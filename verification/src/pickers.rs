//! The quick switcher and the emoji picker: filtering a list by what was
//! typed, and moving the selection through what is left.
use crate::command_menu::{
    fuzzy_from, fuzzy_offsets, fuzzy_query, fuzzy_scan, lemma_fuzzy_from_len, next_selection, previous_selection,
};
use crate::input_box::InputBoxState;
use crate::message_list::trim_end;
use crate::text::{
    char_is_whitespace, chars_eq, is_whitespace_char, lowercase_str, push_all, str_chars, str_to_lowercase,
    string_from_chars,
};
use vstd::prelude::*;

verus! {

broadcast use vstd::std_specs::vec::group_vec_axioms;

/// `s` without its leading whitespace.
pub open spec fn trim_start(s: Seq<char>) -> Seq<char>
    decreases s.len(),
{
    if s.len() > 0 && is_whitespace_char(s[0]) {
        trim_start(s.drop_first())
    } else {
        s
    }
}

/// `s` without whitespace at either end.
pub open spec fn trim(s: Seq<char>) -> Seq<char> {
    trim_start(trim_end(s))
}

/// The index of the first `:` of `s`.
pub open spec fn first_colon(s: Seq<char>) -> Option<int>
    decreases s.len(),
{
    if s.len() == 0 {
        None
    } else {
        match first_colon(s.drop_last()) {
            Some(k) => Some(k),
            None => if s.last() == ':' {
                Some(s.len() - 1)
            } else {
                None
            },
        }
    }
}

/// A switcher prefix: `f` (friends), `g` (groups), `h` (history) or `>`
/// (commands).
pub open spec fn is_switch_prefix(p: Seq<char>) -> bool {
    p == seq!['f'] || p == seq!['g'] || p == seq!['h'] || p == seq!['>']
}

/// A query `p: rest` with a known prefix names the prefix and the rest
/// (without leading whitespace); otherwise the whole query is the query.
pub open spec fn parse_query_spec(q: Seq<char>) -> (Option<Seq<char>>, Seq<char>) {
    match first_colon(q) {
        Some(k) => if is_switch_prefix(trim(q.take(k))) {
            (Some(trim(q.take(k))), trim_start(q.skip(k + 1)))
        } else {
            (None, q)
        },
        None => (None, q),
    }
}

/// `needle` occurs in `hay`.
pub open spec fn contains_seq(hay: Seq<char>, needle: Seq<char>) -> bool {
    exists|i: int| 0 <= i <= hay.len() - needle.len() && #[trigger] hay.subrange(i, i + needle.len()) == needle
}

pub(crate) fn trim_start_chars(s: &[char]) -> (r: Vec<char>)
    ensures
        r@ == trim_start(s@),
{
    let mut i: usize = 0;
    assert(s@.skip(0) =~= s@);
    while i < s.len() && char_is_whitespace(s[i])
        invariant
            i <= s@.len(),
            trim_start(s@) == trim_start(s@.skip(i as int)),
        decreases s@.len() - i,
    {
        assert(s@.skip(i as int).drop_first() =~= s@.skip(i as int + 1));
        i = i + 1;
    }
    let r = crate::text::chars_range(s, i, s.len());
    assert(r@ =~= s@.skip(i as int));
    r
}

fn first_colon_exec(s: &[char]) -> (r: Option<usize>)
    ensures
        match r {
            Some(k) => first_colon(s@) == Some(k as int) && k < s@.len(),
            None => first_colon(s@) is None,
        },
{
    let mut i: usize = 0;
    while i < s.len()
        invariant
            i <= s@.len(),
            forall|j: int| 0 <= j < i ==> s@[j] != ':',
        decreases s@.len() - i,
    {
        if s[i] == ':' {
            proof {
                lemma_first_colon_at(s@, i as int);
            }
            return Some(i);
        }
        i = i + 1;
    }
    proof {
        lemma_no_colon(s@);
    }
    None
}

proof fn lemma_first_colon_at(s: Seq<char>, i: int)
    requires
        0 <= i < s.len(),
        s[i] == ':',
        forall|j: int| 0 <= j < i ==> s[j] != ':',
    ensures
        first_colon(s) == Some(i),
    decreases s.len(),
{
    if s.len() - 1 > i {
        lemma_first_colon_at(s.drop_last(), i);
    } else {
        lemma_no_colon(s.drop_last());
    }
}

proof fn lemma_no_colon(s: Seq<char>)
    requires
        forall|j: int| 0 <= j < s.len() ==> s[j] != ':',
    ensures
        first_colon(s) is None,
    decreases s.len(),
{
    if s.len() > 0 {
        lemma_no_colon(s.drop_last());
    }
}

/// Splits off a switcher prefix (`f:`, `g:`, `h:` or `>:`) from a query.
pub fn parse_query(query: &str) -> (r: (Option<String>, String))
    ensures
        (match r.0 {
            Some(p) => Some(p@),
            None => None,
        }, r.1@) == parse_query_spec(query@),
{
    let q = str_chars(query);
    let qn = q.len();
    match first_colon_exec(q.as_slice()) {
        Some(k) => {
            let head = crate::text::chars_range(q.as_slice(), 0, k);
            assert(head@ =~= query@.take(k as int));
            let te = crate::message_list::trim_end_chars(head.as_slice());
            let p = trim_start_chars(te.as_slice());
            let known = p.len() == 1 && (p[0] == 'f' || p[0] == 'g' || p[0] == 'h' || p[0] == '>');
            proof {
                if known {
                    assert(p@ =~= seq![p@[0]]);
                }
                if is_switch_prefix(p@) {
                    assert(p@.len() == 1);
                }
            }
            if known {
                let tail = crate::text::chars_range(q.as_slice(), k + 1, q.len());
                assert(tail@ =~= query@.skip(k as int + 1));
                let rest = trim_start_chars(tail.as_slice());
                return (Some(string_from_chars(p.as_slice())), string_from_chars(rest.as_slice()));
            }
            (None, query.to_owned())
        },
        None => (None, query.to_owned()),
    }
}

/// `needle` occurs at position `i` of `hay`.
fn occurs_at(hay: &Vec<char>, needle: &Vec<char>, i: usize) -> (r: bool)
    requires
        i + needle@.len() <= hay@.len(),
    ensures
        r == (hay@.subrange(i as int, i + needle@.len()) == needle@),
{
    let hn = hay.len();
    let mut j: usize = 0;
    while j < needle.len()
        invariant
            j <= needle@.len(),
            i + needle@.len() <= hay@.len(),
            hn == hay@.len(),
            forall|t: int| 0 <= t < j ==> hay@[i + t] == needle@[t],
        decreases needle@.len() - j,
    {
        if hay[i + j] != needle[j] {
            assert(hay@.subrange(i as int, i + needle@.len())[j as int] != needle@[j as int]);
            return false;
        }
        j = j + 1;
    }
    assert(hay@.subrange(i as int, i + needle@.len()) =~= needle@);
    true
}

/// `needle` occurs in `hay`.
pub(crate) fn contains_exec(hay: &Vec<char>, needle: &Vec<char>) -> (r: bool)
    ensures
        r == contains_seq(hay@, needle@),
{
    if needle.len() > hay.len() {
        return false;
    }
    let last = hay.len() - needle.len();
    let mut i: usize = 0;
    loop
        invariant_except_break
            i <= last,
            last == hay@.len() - needle@.len(),
            forall|t: int| 0 <= t < i ==> #[trigger] hay@.subrange(t, t + needle@.len()) != needle@,
        ensures
            forall|t: int| 0 <= t <= last ==> #[trigger] hay@.subrange(t, t + needle@.len()) != needle@,
            last == hay@.len() - needle@.len(),
        decreases last - i,
    {
        if occurs_at(hay, needle, i) {
            return true;
        }
        if i == last {
            break;
        }
        i = i + 1;
    }
    false
}

/// An entry of the quick switcher: its name, a description, and the
/// prefix of the kind it belongs to.
#[derive(Debug, Clone)]
pub struct QuickSwitcherItem {
    pub name: String,
    pub description: String,
    pub prefix: String,
}

pub type ItemView = (Seq<char>, Seq<char>, Seq<char>);

pub open spec fn item_view(i: QuickSwitcherItem) -> ItemView {
    (i.name@, i.description@, i.prefix@)
}

/// An item is listed for a query: its kind is the prefix asked for, if
/// any, and the query is empty, matches all its (non-blank) characters in
/// the name in order, or (for history) occurs in the description, case
/// aside.
pub open spec fn item_matches(it: ItemView, prefix: Option<Seq<char>>, query: Seq<char>) -> bool {
    let fq = fuzzy_query(query);
    let found = fuzzy_from(it.0, fq, 0, 0);
    &&& (prefix matches Some(p) ==> it.2 == p)
    &&& (query.len() == 0 || (found.len() > 0 && found.len() == fq.len()) || (it.2 == seq!['h'] && contains_seq(
        lowercase_str(it.1),
        lowercase_str(query),
    )))
}

/// The indices of the first `n` items that are listed.
pub open spec fn listed_upto(items: Seq<ItemView>, prefix: Option<Seq<char>>, query: Seq<char>, n: nat) -> Seq<int>
    decreases n,
{
    if n == 0 {
        seq![]
    } else if item_matches(items[n - 1], prefix, query) {
        listed_upto(items, prefix, query, (n - 1) as nat).push(n - 1)
    } else {
        listed_upto(items, prefix, query, (n - 1) as nat)
    }
}

pub open spec fn items_view(v: Seq<QuickSwitcherItem>) -> Seq<ItemView> {
    v.map_values(|i: QuickSwitcherItem| item_view(i))
}

/// The items listed for the text typed into the switcher.
pub open spec fn switcher_listed(items: Seq<QuickSwitcherItem>, text: Seq<char>) -> Seq<ItemView> {
    let (prefix, query) = parse_query_spec(text);
    let iv = items_view(items);
    listed_upto(iv, prefix, query, iv.len()).map_values(|k: int| iv[k])
}

/// Byte offsets of the characters of `name` that match the non-blank
/// characters of `query` in order, case aside (as far as they match).
pub fn find_fuzzy_indices(name: &str, query: &str) -> (r: Vec<usize>)
    ensures
        r@.map_values(|x: usize| x as int) == fuzzy_offsets(name@, query@),
{
    let (out, _) = fuzzy_scan(name, query);
    out
}

fn item_matches_exec(it: &QuickSwitcherItem, prefix: &Option<String>, query: &str) -> (r: bool)
    ensures
        r == item_matches(
            item_view(*it),
            match prefix {
                Some(p) => Some(p@),
                None => None,
            },
            query@,
        ),
{
    match prefix {
        Some(p) => {
            let a = str_chars(it.prefix.as_str());
            let b = str_chars(p.as_str());
            if !chars_eq(a.as_slice(), b.as_slice()) {
                return false;
            }
        },
        None => {},
    }
    let qc = str_chars(query);
    if qc.len() == 0 {
        return true;
    }
    let (found, qn) = fuzzy_scan(it.name.as_str(), query);
    proof {
        assert(found@.map_values(|x: usize| x as int).len() == found@.len());
    }
    if found.len() > 0 && found.len() == qn {
        return true;
    }
    let pc = str_chars(it.prefix.as_str());
    if pc.len() == 1 && pc[0] == 'h' {
        assert(pc@ =~= seq!['h']);
        let d = str_to_lowercase(it.description.as_str());
        let ql = str_to_lowercase(query);
        let dc = str_chars(d.as_str());
        let qlc = str_chars(ql.as_str());
        return contains_exec(&dc, &qlc);
    }
    proof {
        if pc@ == seq!['h'] {
            assert(pc@.len() == 1);
        }
    }
    false
}

/// The items listed for a prefix and query.
fn get_filtered_items<'a>(items: &'a [QuickSwitcherItem], prefix: &Option<String>, query: &str) -> (r: Vec<
    &'a QuickSwitcherItem,
>)
    ensures
        r@.map_values(|i: &QuickSwitcherItem| item_view(*i)) == listed_upto(
            items_view(items@),
            match prefix {
                Some(p) => Some(p@),
                None => None,
            },
            query@,
            items@.len(),
        ).map_values(|k: int| items_view(items@)[k]),
{
    let ghost pv = match prefix {
        Some(p) => Some(p@),
        None => None,
    };
    let ghost iv = items_view(items@);
    let mut r: Vec<&'a QuickSwitcherItem> = Vec::new();
    let mut i: usize = 0;
    while i < items.len()
        invariant
            i <= items@.len(),
            iv == items_view(items@),
            pv == match prefix {
                Some(p) => Some(p@),
                None => None,
            },
            r@.map_values(|it: &QuickSwitcherItem| item_view(*it)) == listed_upto(iv, pv, query@, i as nat).map_values(
                |k: int| iv[k],
            ),
        decreases items@.len() - i,
    {
        assert(iv[i as int] == item_view(items@[i as int]));
        let m = item_matches_exec(&items[i], prefix, query);
        assert(m == item_matches(iv[i as int], pv, query@));
        if m {
            let ghost before = r@;
            r.push(&items[i]);
            assert(r@.map_values(|it: &QuickSwitcherItem| item_view(*it)) =~= before.map_values(
                |it: &QuickSwitcherItem| item_view(*it),
            ).push(iv[i as int]));
            assert(listed_upto(iv, pv, query@, (i + 1) as nat) == listed_upto(iv, pv, query@, i as nat).push(i as int));
            assert(listed_upto(iv, pv, query@, (i + 1) as nat).map_values(|k: int| iv[k]) =~= listed_upto(
                iv,
                pv,
                query@,
                i as nat,
            ).map_values(|k: int| iv[k]).push(iv[i as int]));
            assert(r@.map_values(|it: &QuickSwitcherItem| item_view(*it)) =~= listed_upto(
                iv,
                pv,
                query@,
                (i + 1) as nat,
            ).map_values(|k: int| iv[k]));
        } else {
            assert(listed_upto(iv, pv, query@, (i + 1) as nat) == listed_upto(iv, pv, query@, i as nat));
        }
        i = i + 1;
    }
    r
}

/// The quick switcher: the typed query, the selection and the entries.
#[derive(Debug)]
pub struct QuickSwitcherState {
    pub input_state: InputBoxState,
    pub selected: Option<usize>,
    pub items: Vec<QuickSwitcherItem>,
}

impl QuickSwitcherState {
    /// A switcher over `items`, the first selected if there is one.
    pub fn new(items: Vec<QuickSwitcherItem>) -> (s: Self)
        ensures
            s.items@ == items@,
            s.input_state.text@.len() == 0,
            s.input_state.wf(),
            s.selected == (if items@.len() > 0 {
                Some(0usize)
            } else {
                None
            }),
    {
        let mut input = InputBoxState::new();
        input.mode = None;
        let selected = if items.len() > 0 {
            Some(0)
        } else {
            None
        };
        QuickSwitcherState { input_state: input, selected: selected, items: items }
    }

    /// The entries listed for what was typed.
    pub fn filtered_items(&self) -> (r: Vec<&QuickSwitcherItem>)
        ensures
            r@.map_values(|i: &QuickSwitcherItem| item_view(*i)) == switcher_listed(self.items@, self.input_state.text@),
    {
        let (prefix, query) = parse_query(self.input_state.text.as_str());
        get_filtered_items(self.items.as_slice(), &prefix, query.as_str())
    }

    /// Selects the next listed entry, wrapping to the first; nothing
    /// happens when none is listed.
    pub fn next(&mut self)
        ensures
            final(self).selected == next_selection(
                old(self).selected,
                switcher_listed(old(self).items@, old(self).input_state.text@).len() as int,
            ),
            final(self).items == old(self).items,
            final(self).input_state == old(self).input_state,
    {
        let count = self.filtered_items().len();
        if count == 0 {
            return;
        }
        let i = match self.selected {
            Some(i) => if i >= count - 1 {
                0
            } else {
                i + 1
            },
            None => 0,
        };
        self.selected = Some(i);
    }

    /// Selects the previous listed entry, wrapping to the last; nothing
    /// happens when none is listed.
    pub fn previous(&mut self)
        ensures
            final(self).selected == previous_selection(
                old(self).selected,
                switcher_listed(old(self).items@, old(self).input_state.text@).len() as int,
            ),
            final(self).items == old(self).items,
            final(self).input_state == old(self).input_state,
    {
        let count = self.filtered_items().len();
        if count == 0 {
            return;
        }
        let i = match self.selected {
            Some(i) => if i == 0 {
                count - 1
            } else {
                i - 1
            },
            None => 0,
        };
        self.selected = Some(i);
    }
}

/// The emoji after `i` of `count`, wrapping to the first; `i` itself when
/// nothing is listed.
pub open spec fn next_item_index(i: int, count: int) -> int {
    if count == 0 {
        i
    } else {
        (i + 1) % count
    }
}

/// The emoji before `i` of `count`, wrapping to the last; `i` itself when
/// nothing is listed.
pub open spec fn previous_item_index(i: int, count: int) -> int {
    if count == 0 {
        i
    } else if i == 0 {
        count - 1
    } else {
        i - 1
    }
}

/// Moving to the next emoji and back, or back and then on, returns to the
/// emoji one started from.
pub proof fn law_item_next_previous_inverse(i: int, count: int)
    requires
        0 <= i < count,
    ensures
        previous_item_index(next_item_index(i, count), count) == i,
        next_item_index(previous_item_index(i, count), count) == i,
{
    if i + 1 < count {
        vstd::arithmetic::div_mod::lemma_small_mod((i + 1) as nat, count as nat);
    } else {
        assert((i + 1) % count == 0) by (nonlinear_arith)
            requires
                i + 1 == count,
                count > 0,
        ;
    }
    if i > 0 {
        vstd::arithmetic::div_mod::lemma_small_mod(i as nat, count as nat);
    } else {
        assert(count % count == 0) by (nonlinear_arith)
            requires
                count > 0,
        ;
    }
}

/// Scrolling and size of the emoji grid.
#[derive(Debug, Clone, Copy, PartialEq, Eq, Structural)]
pub struct EmojiGridState {
    pub scroll: usize,
    pub cols: usize,
    pub rows: usize,
}

impl Default for EmojiGridState {
    fn default() -> (s: Self)
        ensures
            s.scroll == 0 && s.cols == 0 && s.rows == 0,
    {
        EmojiGridState { scroll: 0, cols: 0, rows: 0 }
    }
}

/// The emoji picker: the search typed, the grid and the selected emoji.
#[derive(Debug)]
pub struct EmojiPickerState {
    pub input_state: InputBoxState,
    pub grid_state: EmojiGridState,
    pub selected_index: usize,
}

/// An emoji table as values: (name, emoji) pairs.
pub open spec fn table_view(t: Seq<(String, String)>) -> Seq<(Seq<char>, Seq<char>)> {
    t.map_values(|e: (String, String)| (e.0@, e.1@))
}

/// The emojis of the first `n` table entries whose (lower-cased) name
/// contains the lower-cased query `q` (all of them for an empty query),
/// each emoji once, in table order.
pub open spec fn emoji_filter(t: Seq<(Seq<char>, Seq<char>)>, q: Seq<char>, n: nat) -> Seq<Seq<char>>
    decreases n,
{
    if n == 0 {
        seq![]
    } else {
        let prev = emoji_filter(t, q, (n - 1) as nat);
        let e = t[n - 1];
        if (q.len() == 0 || contains_seq(lowercase_str(e.0), q)) && !prev.contains(e.1) {
            prev.push(e.1)
        } else {
            prev
        }
    }
}

/// The emojis listed for what was typed into the picker.
pub open spec fn picker_listed(text: Seq<char>, t: Seq<(String, String)>) -> Seq<Seq<char>> {
    emoji_filter(table_view(t), lowercase_str(text), t.len())
}

pub open spec fn strings_view(v: Seq<String>) -> Seq<Seq<char>> {
    v.map_values(|s: String| s@)
}

/// `v` holds `c`.
fn has_string(v: &Vec<String>, c: &Vec<char>) -> (r: bool)
    ensures
        r == strings_view(v@).contains(c@),
{
    let mut i: usize = 0;
    while i < v.len()
        invariant
            i <= v@.len(),
            forall|j: int| 0 <= j < i ==> strings_view(v@)[j] != c@,
        decreases v@.len() - i,
    {
        let s = str_chars(v[i].as_str());
        if chars_eq(s.as_slice(), c.as_slice()) {
            assert(strings_view(v@)[i as int] == c@);
            return true;
        }
        i = i + 1;
    }
    proof {
        if strings_view(v@).contains(c@) {
            let j = choose|j: int| 0 <= j < strings_view(v@).len() && strings_view(v@)[j] == c@;
        }
    }
    false
}

impl EmojiPickerState {
    /// An empty picker.
    pub fn new() -> (s: Self)
        ensures
            s.input_state.text@.len() == 0,
            s.input_state.wf(),
            s.input_state.cursor_pos == 0,
            s.input_state.selection is None,
            s.input_state.mode is None,
            s.input_state.clipboard@.len() == 0,
            s.input_state.undo_entries().len() == 0,
            s.input_state.redo_entries().len() == 0,
            s.input_state.lines@.len() == 0,
            s.input_state.cursor_display_pos == (0u16, 0u16),
            s.input_state.last_width == 0,
            s.input_state.prompt@.len() == 0,
            s.input_state.scroll == 0,
            s.grid_state == (EmojiGridState { scroll: 0, cols: 0, rows: 0 }),
            s.selected_index == 0,
    {
        let mut input = InputBoxState::new();
        input.mode = None;
        EmojiPickerState { input_state: input, grid_state: EmojiGridState { scroll: 0, cols: 0, rows: 0 }, selected_index: 0 }
    }

    /// The emojis of `table` listed for what was typed.
    pub fn filtered_emojis(&self, table: &[(String, String)]) -> (r: Vec<String>)
        ensures
            strings_view(r@) == picker_listed(self.input_state.text@, table@),
    {
        let q = str_to_lowercase(self.input_state.text.as_str());
        let qc = str_chars(q.as_str());
        let ghost tv = table_view(table@);
        let mut r: Vec<String> = Vec::new();
        let mut i: usize = 0;
        assert(strings_view(r@) =~= Seq::<Seq<char>>::empty());
        while i < table.len()
            invariant
                i <= table@.len(),
                tv == table_view(table@),
                qc@ == lowercase_str(self.input_state.text@),
                strings_view(r@) == emoji_filter(tv, qc@, i as nat),
            decreases table@.len() - i,
        {
            let (name, emoji) = (&table[i].0, &table[i].1);
            assert(tv[i as int] == (name@, emoji@));
            let wanted = if qc.len() == 0 {
                true
            } else {
                let nl = str_to_lowercase(name.as_str());
                let nc = str_chars(nl.as_str());
                contains_exec(&nc, &qc)
            };
            let ec = str_chars(emoji.as_str());
            if wanted && !has_string(&r, &ec) {
                let ghost before = strings_view(r@);
                r.push(string_from_chars(ec.as_slice()));
                assert(strings_view(r@) =~= before.push(emoji@));
            }
            i = i + 1;
        }
        r
    }

    /// Moves down a row of `cols`, or to the next emoji on the last row,
    /// wrapping to the first; nothing happens when none is listed.
    pub fn next(&mut self, cols: usize, table: &[(String, String)])
        ensures
            ({
                let count = picker_listed(old(self).input_state.text@, table@).len();
                let i = old(self).selected_index;
                final(self).selected_index == if count == 0 {
                    i as int
                } else if i + cols < count {
                    i + cols
                } else if i + 1 < count {
                    i + 1
                } else {
                    0
                }
            }),
            final(self).input_state == old(self).input_state,
            final(self).grid_state == old(self).grid_state,
    {
        let count = self.filtered_emojis(table).len();
        if count == 0 {
            return;
        }
        let i = self.selected_index;
        if i < count && cols < count - i {
            self.selected_index = i + cols;
        } else if i < count - 1 {
            self.selected_index = i + 1;
        } else {
            self.selected_index = 0;
        }
    }

    /// Moves up a row of `cols`, or to the previous emoji on the first
    /// row, wrapping to the last; nothing happens when none is listed.
    pub fn previous(&mut self, cols: usize, table: &[(String, String)])
        ensures
            ({
                let count = picker_listed(old(self).input_state.text@, table@).len();
                let i = old(self).selected_index;
                final(self).selected_index == if count == 0 {
                    i as int
                } else if i >= cols {
                    i - cols
                } else if i > 0 {
                    i - 1
                } else {
                    count - 1
                }
            }),
            final(self).input_state == old(self).input_state,
            final(self).grid_state == old(self).grid_state,
    {
        let count = self.filtered_emojis(table).len();
        if count == 0 {
            return;
        }
        let i = self.selected_index;
        if i >= cols {
            self.selected_index = i - cols;
        } else if i > 0 {
            self.selected_index = i - 1;
        } else {
            self.selected_index = count - 1;
        }
    }

    /// Moves to the next emoji, wrapping to the first.
    pub fn next_item(&mut self, table: &[(String, String)])
        requires
            picker_listed(old(self).input_state.text@, table@).len() == 0 || old(self).selected_index < usize::MAX,
        ensures
            final(self).selected_index == next_item_index(
                old(self).selected_index as int,
                picker_listed(old(self).input_state.text@, table@).len() as int,
            ),
            final(self).input_state == old(self).input_state,
            final(self).grid_state == old(self).grid_state,
    {
        let count = self.filtered_emojis(table).len();
        if count == 0 {
            return;
        }
        self.selected_index = (self.selected_index + 1) % count;
    }

    /// Moves to the previous emoji, wrapping to the last.
    pub fn previous_item(&mut self, table: &[(String, String)])
        ensures
            final(self).selected_index == previous_item_index(
                old(self).selected_index as int,
                picker_listed(old(self).input_state.text@, table@).len() as int,
            ),
            final(self).input_state == old(self).input_state,
            final(self).grid_state == old(self).grid_state,
    {
        let count = self.filtered_emojis(table).len();
        if count == 0 {
            return;
        }
        if self.selected_index == 0 {
            self.selected_index = count - 1;
        } else {
            self.selected_index = self.selected_index - 1;
        }
    }

    /// The selected emoji, if the selection is on a listed one.
    pub fn get_selected_emoji(&self, table: &[(String, String)]) -> (r: Option<String>)
        ensures
            ({
                let l = picker_listed(self.input_state.text@, table@);
                match r {
                    Some(e) => self.selected_index < l.len() && e@ == l[self.selected_index as int],
                    None => self.selected_index >= l.len(),
                }
            }),
    {
        let filtered = self.filtered_emojis(table);
        if self.selected_index < filtered.len() {
            let e = str_chars(filtered[self.selected_index].as_str());
            assert(strings_view(filtered@)[self.selected_index as int] == filtered@[self.selected_index as int]@);
            Some(string_from_chars(e.as_slice()))
        } else {
            None
        }
    }
}

} // verus!
