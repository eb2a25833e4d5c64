//! Hex encoding of byte strings and splitting of long messages.
use crate::text::{byte_len, char_utf8_len, lemma_byte_len_concat, lemma_byte_len_push, lemma_encode_utf8_len, str_chars, string_from_chars, utf8_len};
use vstd::prelude::*;
use vstd::string::StringSliceAdditionalSpecFns;
use vstd::utf8::{encode_utf8, is_continuation_byte};

verus! {

broadcast use vstd::string::group_string_axioms;

/// The lowercase hex digit for `d < 16`.
pub open spec fn hex_digit_char(d: u8) -> char {
    if d < 10 {
        (48 + d) as char
    } else {
        (87 + d) as char
    }
}

/// Two lowercase hex digits per byte, high nibble first.
pub open spec fn hex_encoding(b: Seq<u8>) -> Seq<char> {
    Seq::new(
        2 * b.len(),
        |i: int|
            if i % 2 == 0 {
                hex_digit_char(b[i / 2] / 16)
            } else {
                hex_digit_char(b[i / 2] % 16)
            },
    )
}

/// The value of a hex digit byte, upper or lower case.
pub open spec fn hex_value(b: u8) -> Option<u8> {
    if 48 <= b <= 57 {
        Some((b - 48) as u8)
    } else if 97 <= b <= 102 {
        Some((b - 87) as u8)
    } else if 65 <= b <= 70 {
        Some((b - 55) as u8)
    } else {
        None
    }
}

/// What parsing the two bytes `hi lo` as a base-16 `u8` yields.  As with
/// `u8::from_str_radix`, a leading `+` is accepted in front of one digit.
pub open spec fn pair_value(hi: u8, lo: u8) -> Option<u8> {
    if hi == 43 {
        hex_value(lo)
    } else {
        match (hex_value(hi), hex_value(lo)) {
            (Some(h), Some(l)) => Some((h * 16 + l) as u8),
            _ => None,
        }
    }
}

/// The first `n` byte pairs of `b` parse.
pub open spec fn pairs_valid(b: Seq<u8>, n: int) -> bool {
    forall|k: int| 0 <= k < n ==> (#[trigger] pair_value(b[2 * k], b[2 * k + 1])) is Some
}

/// What `decode_hex` returns for a string with UTF-8 bytes `b`.
pub open spec fn decode_hex_spec(b: Seq<u8>) -> Option<Seq<u8>> {
    if b.len() % 2 != 0 {
        None
    } else if pairs_valid(b, (b.len() / 2) as int) {
        Some(Seq::new(b.len() / 2, |k: int| pair_value(b[2 * k], b[2 * k + 1])->0))
    } else {
        None
    }
}

/// Decoding stops at the first pair that does not parse; it cannot even
/// look at that pair when the pair ends inside a multi-byte character.
pub open spec fn decode_hex_panics(b: Seq<u8>) -> bool {
    &&& b.len() % 2 == 0
    &&& exists|k: int|
        #![trigger pair_value(b[2 * k], b[2 * k + 1])]
        0 <= k && 2 * k + 2 < b.len() && pairs_valid(b, k) && pair_value(b[2 * k], b[2 * k + 1])
            is None && is_continuation_byte(b[2 * k + 2])
}

fn hex_digit(d: u8) -> (c: char)
    requires
        d < 16,
    ensures
        c == hex_digit_char(d),
{
    if d < 10 {
        (48u8 + d) as char
    } else {
        (87u8 + d) as char
    }
}

fn hex_value_of(b: u8) -> (r: Option<u8>)
    ensures
        r == hex_value(b),
{
    if 48 <= b && b <= 57 {
        Some(b - 48)
    } else if 97 <= b && b <= 102 {
        Some(b - 87)
    } else if 65 <= b && b <= 70 {
        Some(b - 55)
    } else {
        None
    }
}

fn pair_value_of(hi: u8, lo: u8) -> (r: Option<u8>)
    ensures
        r == pair_value(hi, lo),
{
    if hi == 43 {
        hex_value_of(lo)
    } else {
        match (hex_value_of(hi), hex_value_of(lo)) {
            (Some(h), Some(l)) => Some(h * 16 + l),
            _ => None,
        }
    }
}

/// Lowercase hex encoding of `bytes`.
pub fn encode_hex(bytes: &[u8]) -> (s: String)
    ensures
        s@ == hex_encoding(bytes@),
{
    let mut out: Vec<char> = Vec::new();
    let mut i: usize = 0;
    while i < bytes.len()
        invariant
            i <= bytes.len(),
            out@ =~= hex_encoding(bytes@.take(i as int)),
        decreases bytes.len() - i,
    {
        let b = bytes[i];
        out.push(hex_digit(b / 16));
        out.push(hex_digit(b % 16));
        assert(out@ =~= hex_encoding(bytes@.take(i as int + 1)));
        i = i + 1;
    }
    assert(bytes@.take(bytes.len() as int) =~= bytes@);
    string_from_chars(out.as_slice())
}

/// Parses a hex string (either case) into bytes; `None` when its length is
/// odd or some pair is not a number.
pub fn decode_hex(s: &str) -> (r: Option<Vec<u8>>)
    requires
        !decode_hex_panics(s.spec_bytes()),
    ensures
        match r {
            Some(v) => decode_hex_spec(s.spec_bytes()) == Some(v@),
            None => decode_hex_spec(s.spec_bytes()) is None,
        },
{
    let b = s.as_bytes();
    let ghost bs = s.spec_bytes();
    if b.len() % 2 != 0 {
        return None;
    }
    let n = b.len() / 2;
    let mut out: Vec<u8> = Vec::new();
    let mut k: usize = 0;
    while k < n
        invariant
            b@ == bs,
            bs == s.spec_bytes(),
            n == bs.len() / 2,
            bs.len() % 2 == 0,
            k <= n,
            pairs_valid(bs, k as int),
            out@ =~= Seq::new(k as nat, |j: int| pair_value(bs[2 * j], bs[2 * j + 1])->0),
        decreases n - k,
    {
        match pair_value_of(b[2 * k], b[2 * k + 1]) {
            Some(v) => {
                out.push(v);
                assert(pairs_valid(bs, k as int + 1)) by {
                    assert forall|j: int| 0 <= j < k + 1 implies (#[trigger] pair_value(
                        bs[2 * j],
                        bs[2 * j + 1],
                    )) is Some by {
                        if j < k {
                            assert(pairs_valid(bs, k as int));
                        }
                    }
                }
                k = k + 1;
            },
            None => {
                assert(!pairs_valid(bs, (bs.len() / 2) as int)) by {
                    assert(pair_value(bs[2 * k as int], bs[2 * k as int + 1]) is None);
                }
                return None;
            },
        }
    }
    Some(out)
}

/// Decoding the hex encoding of a byte string gives the byte string back.
pub proof fn law_decode_hex_of_encode_hex(bytes: Seq<u8>)
    ensures
        decode_hex_spec(encode_utf8(hex_encoding(bytes))) == Some(bytes),
        !decode_hex_panics(encode_utf8(hex_encoding(bytes))),
{
    let h = hex_encoding(bytes);
    assert(vstd::utf8::is_ascii_chars(h)) by {
        assert forall|i: int| 0 <= i < h.len() implies '\0' <= #[trigger] h[i] <= '\u{7f}' by {
            let d = if i % 2 == 0 {
                bytes[i / 2] / 16
            } else {
                bytes[i / 2] % 16
            };
            assert(d < 16);
        }
    }
    vstd::utf8::is_ascii_chars_encode_utf8(h);
    let b = encode_utf8(h);
    assert(b.len() == h.len());
    assert forall|k: int| 0 <= k < bytes.len() implies (#[trigger] pair_value(
        b[2 * k],
        b[2 * k + 1],
    )) == Some(bytes[k]) by {
        let x = bytes[k];
        let hi = x / 16;
        let lo = x % 16;
        assert(h[2 * k] == hex_digit_char(hi));
        assert(h[2 * k + 1] == hex_digit_char(lo));
        assert(b[2 * k] == h[2 * k] as u8);
        assert(b[2 * k + 1] == h[2 * k + 1] as u8);
        assert(hex_value(b[2 * k]) == Some(hi));
        assert(hex_value(b[2 * k + 1]) == Some(lo));
    }
    assert(pairs_valid(b, (b.len() / 2) as int));
    assert(Seq::new(b.len() / 2, |k: int| pair_value(b[2 * k], b[2 * k + 1])->0) =~= bytes);
}


/// Number of leading characters of `s` whose UTF-8 encoding fits in
/// `limit` bytes.
pub open spec fn fit_len(s: Seq<char>, limit: nat) -> nat
    decreases s.len(),
{
    if s.len() == 0 || utf8_len(s[0]) > limit {
        0
    } else {
        1 + fit_len(s.drop_first(), (limit - utf8_len(s[0])) as nat)
    }
}

/// Cuts `s` into pieces of at most `limit` bytes, each as long as it can be
/// without splitting a character.
pub open spec fn split_parts(s: Seq<char>, limit: nat) -> Seq<Seq<char>>
    decreases s.len(),
{
    if s.len() == 0 {
        seq![]
    } else if byte_len(s) <= limit {
        seq![s]
    } else {
        let k = fit_len(s, limit);
        if k == 0 || k > s.len() {
            seq![]
        } else {
            seq![s.take(k as int)] + split_parts(s.skip(k as int), limit)
        }
    }
}

/// The pieces `split_message` cuts a text into.
pub open spec fn split_message_spec(s: Seq<char>, limit: nat) -> Seq<Seq<char>> {
    if byte_len(s) <= limit {
        seq![s]
    } else {
        split_parts(s, limit)
    }
}

/// Cutting never gets stuck: the text fits whole, or every character fits
/// in a piece on its own.
pub open spec fn split_message_terminates(s: Seq<char>, limit: nat) -> bool {
    byte_len(s) <= limit || (forall|i: int| 0 <= i < s.len() ==> utf8_len(#[trigger] s[i]) <= limit)
}

pub proof fn lemma_fit_len_bounds(s: Seq<char>, limit: nat)
    ensures
        fit_len(s, limit) <= s.len(),
        byte_len(s.take(fit_len(s, limit) as int)) <= limit,
        s.len() > 0 && utf8_len(s[0]) <= limit ==> fit_len(s, limit) >= 1,
    decreases s.len(),
{
    if s.len() == 0 || utf8_len(s[0]) > limit {
        assert(s.take(0) =~= Seq::<char>::empty());
    } else {
        let l2 = (limit - utf8_len(s[0])) as nat;
        lemma_fit_len_bounds(s.drop_first(), l2);
        let k = fit_len(s, limit);
        assert(s.take(k as int) =~= seq![s[0]] + s.drop_first().take(k - 1));
        lemma_byte_len_concat(seq![s[0]], s.drop_first().take(k - 1));
        assert(seq![s[0]].drop_last() =~= Seq::<char>::empty());
        assert(byte_len(Seq::<char>::empty()) == 0);
        assert(byte_len(seq![s[0]]) == utf8_len(s[0]));
    }
}

proof fn lemma_fit_len_step(s: Seq<char>, k: int, limit: nat)
    requires
        0 <= k < s.len(),
        utf8_len(s[k]) <= limit,
    ensures
        fit_len(s.skip(k), limit) == 1 + fit_len(s.skip(k + 1), (limit - utf8_len(s[k])) as nat),
{
    assert(s.skip(k).drop_first() =~= s.skip(k + 1));
}

/// Splits `text` into pieces of at most `limit` bytes without splitting a
/// character; a text that fits is returned whole.
pub fn split_message(text: &str, limit: usize) -> (parts: Vec<String>)
    requires
        split_message_terminates(text@, limit as nat),
    ensures
        parts@.map_values(|p: String| p@) == split_message_spec(text@, limit as nat),
{
    let chars = str_chars(text);
    let total = text.as_bytes().len();
    proof {
        lemma_encode_utf8_len(text@);
    }
    if total <= limit {
        let whole = string_from_chars(chars.as_slice());
        let mut v: Vec<String> = Vec::new();
        v.push(whole);
        assert(v@.map_values(|p: String| p@) =~= seq![text@]);
        return v;
    }
    let ghost s = chars@;
    let n = chars.len();
    let mut parts: Vec<String> = Vec::new();
    let mut start: usize = 0;
    let mut consumed: usize = 0;
    assert(s.skip(0) =~= s);
    assert(s.take(0) =~= Seq::<char>::empty());
    assert(byte_len(Seq::<char>::empty()) == 0);
    assert(parts@.map_values(|p: String| p@) =~= Seq::<Seq<char>>::empty());
    while start < n
        invariant
            s == chars@,
            s == text@,
            n == s.len(),
            start <= n,
            byte_len(s) == total,
            total > limit,
            consumed == byte_len(s.take(start as int)),
            consumed <= total,
            split_message_terminates(s, limit as nat),
            split_parts(s, limit as nat) =~= parts@.map_values(|p: String| p@) + split_parts(
                s.skip(start as int),
                limit as nat,
            ),
        decreases n - start,
    {
        let ghost rest = s.skip(start as int);
        proof {
            assert(s =~= s.take(start as int) + rest);
            lemma_byte_len_concat(s.take(start as int), rest);
        }
        if total - consumed <= limit {
            let piece = string_from_chars(&chars.as_slice()[start..n]);
            assert(chars@.subrange(start as int, n as int) =~= rest);
            let ghost before = parts@;
            parts.push(piece);
            proof {
                assert(split_parts(rest, limit as nat) =~= seq![rest]);
                assert(split_parts(s.skip(n as int), limit as nat) =~= Seq::<Seq<char>>::empty());
                assert(parts@.map_values(|p: String| p@) =~= before.map_values(|p: String| p@).push(rest)) by {
                    assert(parts@ =~= before.push(piece));
                }
            }
            start = n;
            consumed = total;
            assert(s.take(n as int) =~= s);
        } else {
            let mut k: usize = start;
            let mut acc: usize = 0;
            while k < n && char_utf8_len(chars[k]) <= limit - acc
                invariant
                    s == chars@,
                    n == s.len(),
                    start <= k <= n,
                    acc <= limit,
                    acc == byte_len(s.subrange(start as int, k as int)),
                    fit_len(s.skip(start as int), limit as nat) == (k - start) + fit_len(
                        s.skip(k as int),
                        (limit - acc) as nat,
                    ),
                decreases n - k,
            {
                proof {
                    lemma_fit_len_step(s, k as int, (limit - acc) as nat);
                    assert(s.subrange(start as int, k as int + 1) =~= s.subrange(start as int, k as int).push(s[k as int]));
                    lemma_byte_len_push(s.subrange(start as int, k as int), s[k as int]);
                }
                acc = acc + char_utf8_len(chars[k]);
                k = k + 1;
            }
            proof {
                if k < n {
                    assert(s.skip(k as int)[0] == s[k as int]);
                }
                assert(fit_len(s.skip(k as int), (limit - acc) as nat) == 0);
                assert(s.skip(start as int)[0] == s[start as int]);
                lemma_fit_len_bounds(rest, limit as nat);
                assert(byte_len(rest) > limit);
                assert(k > start);
                assert(rest.take((k - start) as int) =~= s.subrange(start as int, k as int));
                assert(rest.skip((k - start) as int) =~= s.skip(k as int));
                assert(s.take(k as int) =~= s.take(start as int) + s.subrange(start as int, k as int));
                lemma_byte_len_concat(s.take(start as int), s.subrange(start as int, k as int));
                lemma_byte_len_concat(s.take(k as int), s.skip(k as int));
                assert(s =~= s.take(k as int) + s.skip(k as int));
            }
            let piece = string_from_chars(&chars.as_slice()[start..k]);
            let ghost before = parts@;
            parts.push(piece);
            proof {
                assert(split_parts(rest, limit as nat) =~= seq![s.subrange(start as int, k as int)] + split_parts(s.skip(k as int), limit as nat));
                assert(parts@.map_values(|p: String| p@) =~= before.map_values(|p: String| p@).push(s.subrange(start as int, k as int))) by {
                    assert(parts@ =~= before.push(piece));
                }
            }
            consumed = consumed + acc;
            start = k;
        }
    }
    assert(s.skip(n as int) =~= Seq::<char>::empty());
    assert(parts@.map_values(|p: String| p@) =~= split_parts(s, limit as nat));
    parts
}


proof fn lemma_split_parts_pieces(s: Seq<char>, limit: nat)
    requires
        forall|i: int| 0 <= i < s.len() ==> utf8_len(#[trigger] s[i]) <= limit,
    ensures
        split_parts(s, limit).flatten() == s,
        forall|i: int|
            0 <= i < split_parts(s, limit).len() ==> byte_len(#[trigger] split_parts(s, limit)[i])
                <= limit && split_parts(s, limit)[i].len() > 0,
    decreases s.len(),
{
    let p = split_parts(s, limit);
    if s.len() == 0 {
        assert(p.flatten() =~= s);
    } else if byte_len(s) <= limit {
        assert(p.drop_first() =~= Seq::<Seq<char>>::empty());
        assert(p.drop_first().flatten() =~= Seq::<char>::empty());
        assert(p.flatten() =~= s);
    } else {
        lemma_fit_len_bounds(s, limit);
        let k = fit_len(s, limit);
        let rest = s.skip(k as int);
        assert forall|i: int| 0 <= i < rest.len() implies utf8_len(#[trigger] rest[i]) <= limit by {
            assert(rest[i] == s[i + k]);
        }
        lemma_split_parts_pieces(rest, limit);
        assert(p.drop_first() =~= split_parts(rest, limit));
        assert(p.flatten() =~= s.take(k as int) + split_parts(rest, limit).flatten());
        assert(s =~= s.take(k as int) + rest);
    }
}

/// Joining the pieces of `split_message` gives the text back; when the
/// text had to be cut, every piece is non-empty and fits in `limit` bytes.
pub proof fn law_split_message_pieces(s: Seq<char>, limit: nat)
    requires
        split_message_terminates(s, limit),
    ensures
        split_message_spec(s, limit).flatten() == s,
        byte_len(s) > limit ==> forall|i: int|
            0 <= i < split_message_spec(s, limit).len() ==> byte_len(
                #[trigger] split_message_spec(s, limit)[i],
            ) <= limit && split_message_spec(s, limit)[i].len() > 0,
{
    if byte_len(s) <= limit {
        let p = split_message_spec(s, limit);
        assert(p.drop_first() =~= Seq::<Seq<char>>::empty());
        assert(p.drop_first().flatten() =~= Seq::<char>::empty());
        assert(p.flatten() =~= s);
    } else {
        lemma_split_parts_pieces(s, limit);
    }
}

} // verus!
