//! The sidebar's entries and which of its categories are folded away.
use crate::text::str_chars;
use vstd::prelude::*;

verus! {

broadcast use vstd::std_specs::vec::group_vec_axioms;

/// A contact's presence.
#[derive(Debug, Clone, Copy, PartialEq, Eq, Structural)]
pub enum ContactStatus {
    Online,
    Away,
    Busy,
    Offline,
}

/// What a sidebar entry stands for; a category heads a group of entries.
#[derive(Debug, Clone, Copy, PartialEq, Eq, Structural)]
pub enum SidebarItemType {
    Friend,
    Group,
    Conference,
    Category,
}

/// An entry of the sidebar.
#[derive(Debug, Clone)]
pub struct SidebarItem {
    pub name: String,
    pub status: ContactStatus,
    pub unread_count: u32,
    pub item_type: SidebarItemType,
    pub is_typing: bool,
    pub status_message: Option<String>,
}

impl SidebarItem {
    /// An offline entry with nothing unread.
    pub fn new(name: &str, item_type: SidebarItemType) -> (s: Self)
        ensures
            s.name@ == name@,
            s.item_type == item_type,
            s.status == ContactStatus::Offline,
            s.unread_count == 0,
            !s.is_typing,
            s.status_message is None,
    {
        SidebarItem {
            name: name.to_owned(),
            status: ContactStatus::Offline,
            unread_count: 0,
            item_type: item_type,
            is_typing: false,
            status_message: None,
        }
    }

    /// The entry with presence `status`.
    pub fn status(self, status: ContactStatus) -> (s: Self)
        ensures
            s.status == status,
            s.name == self.name && s.unread_count == self.unread_count && s.item_type == self.item_type
                && s.is_typing == self.is_typing && s.status_message == self.status_message,
    {
        let mut s = self;
        s.status = status;
        s
    }

    /// The entry with `count` unread messages.
    pub fn unread(self, count: u32) -> (s: Self)
        ensures
            s.unread_count == count,
            s.name == self.name && s.status == self.status && s.item_type == self.item_type && s.is_typing
                == self.is_typing && s.status_message == self.status_message,
    {
        let mut s = self;
        s.unread_count = count;
        s
    }

    /// The entry marked as typing or not.
    pub fn typing(self, is_typing: bool) -> (s: Self)
        ensures
            s.is_typing == is_typing,
            s.name == self.name && s.status == self.status && s.unread_count == self.unread_count && s.item_type
                == self.item_type && s.status_message == self.status_message,
    {
        let mut s = self;
        s.is_typing = is_typing;
        s
    }

    /// The entry with a status message.
    pub fn status_message(self, msg: &str) -> (s: Self)
        ensures
            s.status_message matches Some(m) && m@ == msg@,
            s.name == self.name && s.status == self.status && s.unread_count == self.unread_count && s.item_type
                == self.item_type && s.is_typing == self.is_typing,
    {
        let mut s = self;
        s.status_message = Some(msg.to_owned());
        s
    }
}

/// The position of the first `x` in `s` (its length if there is none).
pub open spec fn first_pos(s: Seq<SidebarItemType>, x: SidebarItemType) -> int
    decreases s.len(),
{
    if s.len() == 0 {
        0
    } else if s[0] == x {
        0
    } else {
        1 + first_pos(s.drop_first(), x)
    }
}

/// The first `x` of `s` removed, or `x` added at the end when there is
/// none.
pub open spec fn toggled(s: Seq<SidebarItemType>, x: SidebarItemType) -> Seq<SidebarItemType> {
    if s.contains(x) {
        s.remove(first_pos(s, x))
    } else {
        s.push(x)
    }
}

proof fn lemma_first_pos(s: Seq<SidebarItemType>, x: SidebarItemType, i: int)
    requires
        0 <= i < s.len(),
        s[i] == x,
        forall|j: int| 0 <= j < i ==> s[j] != x,
    ensures
        first_pos(s, x) == i,
    decreases i,
{
    if i > 0 {
        lemma_first_pos(s.drop_first(), x, i - 1);
    }
}

/// The sidebar: its entries, the selected one, and the folded categories
/// (in the order they were folded).
#[derive(Debug, Clone)]
pub struct SidebarState {
    pub selected: Option<usize>,
    pub items: Vec<SidebarItem>,
    pub collapsed_categories: Vec<SidebarItemType>,
}

impl SidebarState {
    /// An empty sidebar with nothing folded.
    pub fn new() -> (s: Self)
        ensures
            s.selected is None,
            s.items@.len() == 0,
            s.collapsed_categories@.len() == 0,
    {
        SidebarState { selected: None, items: Vec::new(), collapsed_categories: Vec::new() }
    }

    /// Unfolds a folded category, or folds it.
    pub fn toggle_category(&mut self, item_type: SidebarItemType)
        ensures
            final(self).collapsed_categories@ == toggled(old(self).collapsed_categories@, item_type),
            final(self).items == old(self).items,
            final(self).selected == old(self).selected,
    {
        let mut i: usize = 0;
        while i < self.collapsed_categories.len()
            invariant
                i <= self.collapsed_categories@.len(),
                self.collapsed_categories == old(self).collapsed_categories,
                self.items == old(self).items,
                self.selected == old(self).selected,
                forall|j: int| 0 <= j < i ==> self.collapsed_categories@[j] != item_type,
            decreases self.collapsed_categories@.len() - i,
        {
            if self.collapsed_categories[i] == item_type {
                proof {
                    let s = self.collapsed_categories@;
                    assert(s[i as int] == item_type);
                    assert(s.contains(item_type));
                    lemma_first_pos(s, item_type, i as int);
                }
                self.collapsed_categories.remove(i);
                return;
            }
            i = i + 1;
        }
        assert(!old(self).collapsed_categories@.contains(item_type));
        self.collapsed_categories.push(item_type);
    }

    /// Whether a category is folded.
    pub fn is_collapsed(&self, item_type: SidebarItemType) -> (r: bool)
        ensures
            r == self.collapsed_categories@.contains(item_type),
    {
        let mut i: usize = 0;
        while i < self.collapsed_categories.len()
            invariant
                i <= self.collapsed_categories@.len(),
                forall|j: int| 0 <= j < i ==> self.collapsed_categories@[j] != item_type,
            decreases self.collapsed_categories@.len() - i,
        {
            if self.collapsed_categories[i] == item_type {
                assert(self.collapsed_categories@[i as int] == item_type);
                return true;
            }
            i = i + 1;
        }
        false
    }
}

/// Toggling a category flips whether it is folded and leaves the others
/// as they were, so toggling it twice changes nothing that `is_collapsed`
/// can see (on lists without repeats, which toggling keeps).
pub proof fn law_toggle_twice(s: Seq<SidebarItemType>, x: SidebarItemType, y: SidebarItemType)
    requires
        s.no_duplicates(),
    ensures
        toggled(s, x).no_duplicates(),
        toggled(s, x).contains(x) == !s.contains(x),
        y != x ==> toggled(s, x).contains(y) == s.contains(y),
        toggled(toggled(s, x), x).contains(y) == s.contains(y),
{
    lemma_toggle(s, x);
    lemma_toggle(toggled(s, x), x);
}

proof fn lemma_toggle(s: Seq<SidebarItemType>, x: SidebarItemType)
    requires
        s.no_duplicates(),
    ensures
        toggled(s, x).no_duplicates(),
        toggled(s, x).contains(x) == !s.contains(x),
        forall|z: SidebarItemType| z != x ==> toggled(s, x).contains(z) == s.contains(z),
{
    let t = toggled(s, x);
    if s.contains(x) {
        let k = first_pos(s, x);
        lemma_first_pos_facts(s, x);
        assert(t =~= s.subrange(0, k) + s.subrange(k + 1, s.len() as int));
        assert forall|i: int, j: int| 0 <= i < t.len() && 0 <= j < t.len() && i != j implies t[i] != t[j] by {
            let si = if i < k {
                i
            } else {
                i + 1
            };
            let sj = if j < k {
                j
            } else {
                j + 1
            };
            assert(t[i] == s[si]);
            assert(t[j] == s[sj]);
        }
        if t.contains(x) {
            let j = choose|j: int| 0 <= j < t.len() && t[j] == x;
            if j < k {
                assert(s[j] == x);
            } else {
                assert(s[j + 1] == x);
            }
        }
        assert forall|z: SidebarItemType| z != x implies t.contains(z) == s.contains(z) by {
            if s.contains(z) {
                let j = choose|j: int| 0 <= j < s.len() && s[j] == z;
                if j < k {
                    assert(t[j] == z);
                } else {
                    assert(j != k);
                    assert(t[j - 1] == z);
                }
            }
            if t.contains(z) {
                let j = choose|j: int| 0 <= j < t.len() && t[j] == z;
                if j < k {
                    assert(s[j] == z);
                } else {
                    assert(s[j + 1] == z);
                }
            }
        }
    } else {
        assert(t[t.len() - 1] == x);
        assert forall|i: int, j: int| 0 <= i < t.len() && 0 <= j < t.len() && i != j implies t[i] != t[j] by {
            if i < s.len() && j < s.len() {
            } else if i < s.len() {
                assert(t[i] == s[i]);
            } else if j < s.len() {
                assert(t[j] == s[j]);
            }
        }
        assert forall|z: SidebarItemType| z != x implies t.contains(z) == s.contains(z) by {
            if s.contains(z) {
                let j = choose|j: int| 0 <= j < s.len() && s[j] == z;
                assert(t[j] == z);
            }
            if t.contains(z) {
                let j = choose|j: int| 0 <= j < t.len() && t[j] == z;
                if j < s.len() {
                    assert(s[j] == z);
                }
            }
        }
    }
}

proof fn lemma_first_pos_facts(s: Seq<SidebarItemType>, x: SidebarItemType)
    requires
        s.contains(x),
    ensures
        0 <= first_pos(s, x) < s.len(),
        s[first_pos(s, x)] == x,
        forall|j: int| 0 <= j < first_pos(s, x) ==> s[j] != x,
    decreases s.len(),
{
    if s[0] != x {
        let j = choose|j: int| 0 <= j < s.len() && s[j] == x;
        assert(s.drop_first()[j - 1] == x);
        lemma_first_pos_facts(s.drop_first(), x);
        assert forall|j: int| 0 <= j < first_pos(s, x) implies s[j] != x by {
            if j > 0 {
                assert(s[j] == s.drop_first()[j - 1]);
            }
        }
    }
}

} // verus!
