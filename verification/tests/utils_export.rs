use toxxi::export::{
    buffer_to_svg, color_to_hex, escape_xml, get_char_category, to_base36, try_buffer_to_svg, Cell, CharCategory,
    Color, SvgModel, TermBuffer,
};
use toxxi::utils::{decode_hex, encode_hex, split_message};

#[test]
fn encode_hex_lowercase_pairs() {
    assert_eq!(encode_hex(&[0x00, 0xab, 0x10, 0xff]), "00ab10ff");
    assert_eq!(encode_hex(&[]), "");
}

#[test]
fn decode_hex_reads_pairs() {
    assert_eq!(decode_hex("00ab10ff"), Some(vec![0x00, 0xab, 0x10, 0xff]));
    assert_eq!(decode_hex("AB"), Some(vec![0xab]));
    assert_eq!(decode_hex(""), Some(vec![]));
}

#[test]
fn decode_hex_rejects_odd_length() {
    assert_eq!(decode_hex("abc"), None);
}

#[test]
fn decode_hex_rejects_non_hex_pair() {
    assert_eq!(decode_hex("zz"), None);
    assert_eq!(decode_hex("0g12"), None);
}

#[test]
fn decode_of_encode_gives_bytes_back() {
    let bytes: Vec<u8> = (0u8..=255).collect();
    assert_eq!(decode_hex(&encode_hex(&bytes)), Some(bytes));
}

#[test]
fn split_message_short_text_is_one_piece() {
    assert_eq!(split_message("hello", 10), vec!["hello".to_string()]);
    assert_eq!(split_message("", 4), vec!["".to_string()]);
}

#[test]
fn split_message_cuts_at_limit() {
    assert_eq!(split_message("abcdef", 4), vec!["abcd".to_string(), "ef".to_string()]);
    assert_eq!(split_message("abcdefgh", 4), vec!["abcd".to_string(), "efgh".to_string()]);
}

#[test]
fn split_message_keeps_characters_whole() {
    // "é" takes two bytes: a cut after one byte would split it.
    assert_eq!(split_message("aé", 2), vec!["a".to_string(), "é".to_string()]);
    let parts = split_message("héllo wörld", 3);
    assert_eq!(parts.concat(), "héllo wörld");
    assert!(parts.iter().all(|p| p.len() <= 3));
}

#[test]
fn base36_class_names() {
    assert_eq!(to_base36(0), "ca");
    assert_eq!(to_base36(1), "cb");
    assert_eq!(to_base36(35), "c9");
    assert_eq!(to_base36(36), "cba");
    assert_eq!(to_base36(37), "cbb");
}

#[test]
fn escape_xml_all_five() {
    assert_eq!(escape_xml("<a href=\"x\">&'</a>"), "&lt;a href=&quot;x&quot;&gt;&amp;&apos;&lt;/a&gt;");
    assert_eq!(escape_xml("plain"), "plain");
}

#[test]
fn color_to_hex_named_and_default() {
    assert_eq!(color_to_hex(Color::Reset, "#000000"), "#000000");
    assert_eq!(color_to_hex(Color::Reset, "#ffffff"), "#ffffff");
    assert_eq!(color_to_hex(Color::Red, "#000000"), "#aa0000");
    assert_eq!(color_to_hex(Color::LightCyan, "#000000"), "#55ffff");
    assert_eq!(color_to_hex(Color::Rgb(1, 2, 255), "#000000"), "#0102ff");
}

#[test]
fn color_to_hex_indexed_table() {
    assert_eq!(color_to_hex(Color::Indexed(9), "#000000"), "#ff5555");
    assert_eq!(color_to_hex(Color::Indexed(16), "#000000"), "#000000");
    assert_eq!(color_to_hex(Color::Indexed(21), "#000000"), "#0000ff");
    assert_eq!(color_to_hex(Color::Indexed(196), "#000000"), "#ff0000");
    assert_eq!(color_to_hex(Color::Indexed(232), "#000000"), "#080808");
    assert_eq!(color_to_hex(Color::Indexed(255), "#000000"), "#eeeeee");
}

#[test]
fn char_categories() {
    assert_eq!(get_char_category(""), CharCategory::Normal);
    assert_eq!(get_char_category("a"), CharCategory::Normal);
    assert_eq!(get_char_category("\u{2588}"), CharCategory::Block);
    assert_eq!(get_char_category("\u{2801}"), CharCategory::Block);
    assert_eq!(get_char_category("\u{1F600}"), CharCategory::Emoji);
}

fn cell(symbol: &str, fg: Color, bg: Color) -> Cell {
    Cell { symbol: symbol.to_string(), fg, bg }
}

fn two_cell_buffer() -> TermBuffer {
    TermBuffer {
        width: 2,
        height: 1,
        content: vec![cell("a", Color::Red, Color::Reset), cell("b", Color::Red, Color::Blue)],
    }
}

#[test]
fn buffer_to_svg_small_buffer() {
    let svg = buffer_to_svg(&two_cell_buffer());
    let expected = [
        "<svg width=\"20\" height=\"20\" viewBox=\"0 0 2 2\" xmlns=\"http://www.w3.org/2000/svg\">",
        "<style>rect,path{shape-rendering:crispEdges}text{white-space:pre;dominant-baseline:central}",
        ".n{font-size:1.66px;font-family:'DejaVu Sans Mono',monospace}",
        ".b{font-size:2.0px;font-family:'DejaVu Sans Mono',monospace}",
        ".e{font-size:2.0px;font-family:'Noto Color Emoji','DejaVu Sans Mono',monospace}",
        ".ca{fill:#000000}.cb{fill:#aa0000}.cc{fill:#0000aa}</style>",
        "<rect width=\"2\" height=\"2\" fill=\"#000\"/>",
        "<path class=\"cc\" d=\"M1 0h1v2h-1z\"/>",
        "<text x=\"0\" y=\"1\" text-anchor=\"start\"><tspan x=\"0 1\" class=\"cb n\">ab</tspan></text>",
        "</svg>",
    ]
    .concat();
    assert_eq!(svg, expected);
}

#[test]
fn svg_model_of_small_buffer() {
    let m = SvgModel::from_buffer(&two_cell_buffer());
    assert_eq!((m.width, m.height), (2, 1));
    assert_eq!(m.bg_rects.len(), 1);
    let r = &m.bg_rects[0];
    assert_eq!((r.x, r.y, r.width, r.height, r.color.as_str()), (1, 0, 1, 1, "#0000aa"));
    assert_eq!(m.fg_texts.len(), 1);
    let t = &m.fg_texts[0];
    assert_eq!((t.x, t.y, t.width, t.text.as_str(), t.color.as_str()), (0, 0, 2, "ab", "#aa0000"));
    assert_eq!(t.category, CharCategory::Normal);
}

#[test]
fn background_rectangles_cover_blocks() {
    // A 3x2 buffer with a blue 2x2 block on the left and a blue cell at
    // the top right: the greedy cover gives the 2x2 block and then 1x1.
    let blue = Color::Blue;
    let buf = TermBuffer {
        width: 3,
        height: 2,
        content: vec![
            cell(" ", Color::Reset, blue),
            cell(" ", Color::Reset, blue),
            cell(" ", Color::Reset, blue),
            cell(" ", Color::Reset, blue),
            cell(" ", Color::Reset, blue),
            cell(" ", Color::Reset, Color::Reset),
        ],
    };
    let m = SvgModel::from_buffer(&buf);
    let rects: Vec<(u16, u16, u16, u16)> = m.bg_rects.iter().map(|r| (r.x, r.y, r.width, r.height)).collect();
    assert_eq!(rects, vec![(0, 0, 3, 1), (0, 1, 2, 1)]);
    assert!(m.fg_texts.is_empty());
}

#[test]
fn runs_split_on_colour_change_and_gaps() {
    let buf = TermBuffer {
        width: 4,
        height: 1,
        content: vec![
            cell("a", Color::Red, Color::Reset),
            cell("b", Color::Green, Color::Reset),
            cell(" ", Color::Green, Color::Reset),
            cell("c", Color::Green, Color::Reset),
        ],
    };
    let m = SvgModel::from_buffer(&buf);
    let texts: Vec<(u16, &str)> = m.fg_texts.iter().map(|t| (t.x, t.text.as_str())).collect();
    assert_eq!(texts, vec![(0, "a"), (1, "b"), (3, "c")]);
}

#[test]
fn try_buffer_to_svg_rejects_missing_cells() {
    let buf = TermBuffer { width: 2, height: 2, content: vec![cell("a", Color::Red, Color::Reset)] };
    assert_eq!(try_buffer_to_svg(&buf), None);
    assert!(SvgModel::try_from_buffer(&buf).is_none());
    assert_eq!(try_buffer_to_svg(&two_cell_buffer()), Some(buffer_to_svg(&two_cell_buffer())));
}
