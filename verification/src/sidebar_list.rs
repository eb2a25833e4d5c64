//! The entries of the sidebar as the model gives them: the system
//! windows, then contacts, groups and conferences, each ordered by key.
use crate::domain::{
    key_pos, key_position, lemma_key_pos, lemma_keys_concrete_eq, lookup, Connection, Conversation, FriendInfo,
    Key32, Model, WindowId,
};
use crate::domain::UiState;
use crate::sidebar::{ContactStatus, SidebarItem, SidebarItemType};
use vstd::prelude::*;

verus! {

broadcast use vstd::std_specs::vec::group_vec_axioms;

/// An entry as values: name, status, unread count, kind, typing, status
/// message.
pub type ItemView = (Seq<char>, ContactStatus, u32, SidebarItemType, bool, Option<Seq<char>>);

pub open spec fn item_view(i: SidebarItem) -> ItemView {
    (
        i.name@,
        i.status,
        i.unread_count,
        i.item_type,
        i.is_typing,
        match i.status_message {
            Some(s) => Some(s@),
            None => None,
        },
    )
}

pub open spec fn items_view(s: Seq<SidebarItem>) -> Seq<ItemView> {
    s.map_values(|i: SidebarItem| item_view(i))
}

/// Bytes `a` come before bytes `b` from position `i` on.
pub open spec fn less_from(a: Seq<u8>, b: Seq<u8>, i: int) -> bool
    decreases a.len() - i,
{
    if i >= a.len() || i >= b.len() || i < 0 {
        false
    } else if a[i] < b[i] {
        true
    } else if a[i] > b[i] {
        false
    } else {
        less_from(a, b, i + 1)
    }
}

/// Key `a` comes before key `b`, byte by byte.
pub open spec fn key_less(a: Key32, b: Key32) -> bool {
    less_from(a.0@, b.0@, 0)
}

/// Where `x` goes among `r`: after the last key not after it.
pub open spec fn key_insert_at(r: Seq<Key32>, x: Key32) -> int
    decreases r.len(),
{
    if r.len() == 0 {
        0
    } else if key_less(x, r.last()) {
        key_insert_at(r.drop_last(), x)
    } else {
        r.len() as int
    }
}

/// The keys in order.
pub open spec fn sorted_keys(s: Seq<Key32>) -> Seq<Key32>
    decreases s.len(),
{
    if s.len() == 0 {
        Seq::empty()
    } else {
        let r = sorted_keys(s.drop_last());
        r.insert(key_insert_at(r, s.last()), s.last())
    }
}

/// The keys of the groups (when `groups`) or of the conferences that have
/// conversations, in the conversations' order.
pub open spec fn conversation_keys(convs: Seq<(WindowId, Conversation)>, groups: bool) -> Seq<Key32>
    decreases convs.len(),
{
    if convs.len() == 0 {
        Seq::empty()
    } else {
        let rest = conversation_keys(convs.drop_last(), groups);
        match convs.last().0 {
            WindowId::Group(g) => if groups {
                rest.push(g)
            } else {
                rest
            },
            WindowId::Conference(c) => if !groups {
                rest.push(c)
            } else {
                rest
            },
            _ => rest,
        }
    }
}

/// The unread count of window `w` as the sidebar shows it.
pub open spec fn unread_of(m: Model, w: WindowId) -> u32 {
    match lookup(m.ui.window_state@, w) {
        Some(st) => st.unread_count as u32,
        None => 0,
    }
}

/// Online unless not connected.
pub open spec fn status_of(c: Connection) -> ContactStatus {
    if c == Connection::Disconnected {
        ContactStatus::Offline
    } else {
        ContactStatus::Online
    }
}

/// A category heading.
pub open spec fn heading(name: Seq<char>) -> ItemView {
    (name, ContactStatus::Offline, 0, SidebarItemType::Category, false, None)
}

/// The entry of contact `pk`: named as its window (or itself), online
/// unless disconnected, with its unread count, typing and status message.
pub open spec fn friend_entry(m: Model, pk: Key32) -> ItemView {
    let info = lookup(m.domain.friends@, pk)->0;
    let w = WindowId::Friend(pk);
    (
        match lookup(m.domain.conversations@, w) {
            Some(c) => c.name@,
            None => info.name@,
        },
        status_of(info.connection),
        unread_of(m, w),
        SidebarItemType::Friend,
        info.is_typing,
        Some(info.status_message@),
    )
}

/// The entry of the conversation of `w`, of kind `kind`: online, with its
/// unread count.
pub open spec fn conversation_entry(m: Model, w: WindowId, kind: SidebarItemType) -> ItemView {
    (lookup(m.domain.conversations@, w)->0.name@, ContactStatus::Online, unread_of(m, w), kind, false, None)
}

/// The sidebar of model `m`.
pub open spec fn sidebar_spec(m: Model) -> Seq<ItemView> {
    let friends = sorted_keys(friend_keys(m));
    let groups = sorted_keys(conversation_keys(m.domain.conversations@, true));
    let confs = sorted_keys(conversation_keys(m.domain.conversations@, false));
    seq![
        heading("System"@),
        (
            "Status"@,
            status_of(m.domain.self_connection_status),
            unread_of(m, WindowId::Console),
            SidebarItemType::Friend,
            false,
            None,
        ),
        ("Logs"@, ContactStatus::Offline, unread_of(m, WindowId::Logs), SidebarItemType::Friend, false, None),
        ("Files"@, ContactStatus::Offline, unread_of(m, WindowId::Files), SidebarItemType::Friend, false, None),
        heading("Friends"@),
    ] + friends.map_values(|pk: Key32| friend_entry(m, pk)) + seq![heading("Groups"@)] + groups.map_values(
        |g: Key32| conversation_entry(m, WindowId::Group(g), SidebarItemType::Group),
    ) + seq![heading("Conferences"@)] + confs.map_values(
        |c: Key32| conversation_entry(m, WindowId::Conference(c), SidebarItemType::Conference),
    )
}

/// The contacts' keys in the order the sidebar lists them.
pub open spec fn listed_friend_keys(m: Model) -> Seq<Key32> {
    sorted_keys(friend_keys(m))
}

/// The contacts' keys, as stored.
pub open spec fn friend_keys(m: Model) -> Seq<Key32> {
    m.domain.friends@.map_values(|e: (Key32, FriendInfo)| e.0)
}

/// In the sidebar the user's own entry (`Status`, second) and the entry
/// of each contact (after the `Friends` heading, in order of key) show
/// the contact as offline exactly when it is not connected at all, and
/// as online when it is connected, whether over TCP or UDP; they show no
/// other status.
pub proof fn law_sidebar_online_iff_connected(m: Model)
    ensures
        sidebar_spec(m).len() >= 5 + listed_friend_keys(m).len(),
        sidebar_spec(m)[1].0 == "Status"@,
        (sidebar_spec(m)[1].1 == ContactStatus::Offline) <==> m.domain.self_connection_status == Connection::Disconnected,
        (sidebar_spec(m)[1].1 == ContactStatus::Online) <==> m.domain.self_connection_status != Connection::Disconnected,
        sidebar_spec(m)[1].2 == match lookup(m.ui.window_state@, WindowId::Console) {
            Some(st) => st.unread_count as u32,
            None => 0u32,
        },
        forall|i: int|
            0 <= i < listed_friend_keys(m).len() ==> {
                let e = #[trigger] sidebar_spec(m)[5 + i];
                let c = lookup(m.domain.friends@, listed_friend_keys(m)[i])->0.connection;
                &&& e.3 == SidebarItemType::Friend
                &&& friend_keys(m).contains(listed_friend_keys(m)[i])
                &&& e.2 == match lookup(m.ui.window_state@, WindowId::Friend(listed_friend_keys(m)[i])) {
                    Some(st) => st.unread_count as u32,
                    None => 0u32,
                }
                &&& (e.1 == ContactStatus::Offline <==> c == Connection::Disconnected)
                &&& (e.1 == ContactStatus::Online <==> c != Connection::Disconnected)
            },
{
    let fs = listed_friend_keys(m);
    let head = seq![
        heading("System"@),
        (
            "Status"@,
            status_of(m.domain.self_connection_status),
            unread_of(m, WindowId::Console),
            SidebarItemType::Friend,
            false,
            None,
        ),
        ("Logs"@, ContactStatus::Offline, unread_of(m, WindowId::Logs), SidebarItemType::Friend, false, None),
        ("Files"@, ContactStatus::Offline, unread_of(m, WindowId::Files), SidebarItemType::Friend, false, None),
        heading("Friends"@),
    ];
    let fe = fs.map_values(|pk: Key32| friend_entry(m, pk));
    assert(sidebar_spec(m) =~= head + fe + sidebar_spec(m).skip(5 + fs.len() as int));
    assert forall|i: int| 0 <= i < fs.len() implies #[trigger] sidebar_spec(m)[5 + i] == friend_entry(m, fs[i])
        && friend_keys(m).contains(fs[i]) by {
        assert((head + fe)[5 + i] == fe[i]);
        assert(fs.contains(fs[i]));
        lemma_sorted_keys_from(friend_keys(m), fs[i]);
    };
}

proof fn lemma_key_insert_at(r: Seq<Key32>, x: Key32)
    ensures
        0 <= key_insert_at(r, x) <= r.len(),
    decreases r.len(),
{
    if r.len() > 0 {
        lemma_key_insert_at(r.drop_last(), x);
    }
}

/// Whether key `a` comes before key `b`.
pub(crate) fn key_less_exec(a: &Key32, b: &Key32) -> (r: bool)
    ensures
        r == key_less(*a, *b),
{
    let mut i: usize = 0;
    while i < 32
        invariant
            i <= 32,
            a.0@.len() == 32,
            b.0@.len() == 32,
            less_from(a.0@, b.0@, 0) == less_from(a.0@, b.0@, i as int),
        decreases 32 - i,
    {
        if a.0[i] < b.0[i] {
            return true;
        }
        if a.0[i] > b.0[i] {
            return false;
        }
        i = i + 1;
    }
    false
}

/// Puts `x` into `r` where `key_insert_at` says.
fn insert_key(r: &mut Vec<Key32>, x: Key32)
    ensures
        final(r)@ == old(r)@.insert(key_insert_at(old(r)@, x), x),
{
    let mut j: usize = r.len();
    proof {
        assert(r@.take(j as int) =~= r@);
    }
    while j > 0 && key_less_exec(&x, &r[j - 1])
        invariant
            j <= r@.len(),
            key_insert_at(r@, x) == key_insert_at(r@.take(j as int), x),
        decreases j,
    {
        assert(r@.take(j as int).drop_last() =~= r@.take(j as int - 1));
        j = j - 1;
    }
    proof {
        if j > 0 {
            assert(r@.take(j as int).last() == r@[j as int - 1]);
        }
        lemma_key_insert_at(r@, x);
    }
    r.insert(j, x);
}

/// The keys of `s` in order.
fn sort_keys(s: &Vec<Key32>) -> (r: Vec<Key32>)
    ensures
        r@ == sorted_keys(s@),
{
    let mut r: Vec<Key32> = Vec::new();
    let mut i: usize = 0;
    assert(s@.take(0) =~= Seq::<Key32>::empty());
    while i < s.len()
        invariant
            i <= s@.len(),
            r@ == sorted_keys(s@.take(i as int)),
        decreases s@.len() - i,
    {
        assert(s@.take(i as int + 1).drop_last() =~= s@.take(i as int));
        insert_key(&mut r, s[i]);
        i = i + 1;
    }
    assert(s@.take(s@.len() as int) =~= s@);
    r
}

impl Model {
    /// The unread count of window `w` as the sidebar shows it.
    fn unread_for(&self, w: WindowId) -> (r: u32)
        ensures
            r == unread_of(*self, w),
    {
        proof {
            lemma_keys_concrete_eq();
            lemma_key_pos(self.ui.window_state@, w);
        }
        match key_position(&self.ui.window_state, &w) {
            Some(i) => self.ui.window_state[i].1.unread_count as u32,
            None => 0,
        }
    }

    /// The name of the conversation of `w`, which must have one.
    fn conversation_name(&self, w: WindowId) -> (r: String)
        requires
            key_pos(self.domain.conversations@, w) >= 0,
        ensures
            r@ == lookup(self.domain.conversations@, w)->0.name@,
    {
        proof {
            lemma_keys_concrete_eq();
            lemma_key_pos(self.domain.conversations@, w);
        }
        match key_position(&self.domain.conversations, &w) {
            Some(i) => self.domain.conversations[i].1.name.clone(),
            None => String::new(),
        }
    }

    /// The keys of the groups (or conferences) with conversations.
    fn conversation_keys_of(&self, groups: bool) -> (r: Vec<Key32>)
        ensures
            r@ == conversation_keys(self.domain.conversations@, groups),
            forall|i: int|
                0 <= i < r@.len() ==> key_pos(
                    self.domain.conversations@,
                    if groups {
                        WindowId::Group(#[trigger] r@[i])
                    } else {
                        WindowId::Conference(r@[i])
                    },
                ) >= 0,
    {
        let ghost cs = self.domain.conversations@;
        let mut r: Vec<Key32> = Vec::new();
        let mut i: usize = 0;
        assert(cs.take(0) =~= Seq::<(WindowId, Conversation)>::empty());
        while i < self.domain.conversations.len()
            invariant
                cs == self.domain.conversations@,
                i <= cs.len(),
                r@ == conversation_keys(cs.take(i as int), groups),
                forall|j: int|
                    0 <= j < r@.len() ==> key_pos(
                        cs,
                        if groups {
                            WindowId::Group(#[trigger] r@[j])
                        } else {
                            WindowId::Conference(r@[j])
                        },
                    ) >= 0,
            decreases cs.len() - i,
        {
            assert(cs.take(i as int + 1).drop_last() =~= cs.take(i as int));
            proof {
                lemma_key_pos(cs, cs[i as int].0);
            }
            match self.domain.conversations[i].0 {
                WindowId::Group(g) => {
                    if groups {
                        r.push(g);
                    }
                },
                WindowId::Conference(c) => {
                    if !groups {
                        r.push(c);
                    }
                },
                _ => {},
            }
            i = i + 1;
        }
        assert(cs.take(cs.len() as int) =~= cs);
        r
    }

    /// Fills the sidebar cache with the sidebar's entries when it is empty;
    /// a filled cache is kept.
    pub fn refresh_sidebar_cache(&mut self)
        requires
            old(self).wf(),
        ensures
            final(self).wf(),
            old(self).ui.sidebar_cache is Some ==> *final(self) == *old(self),
            old(self).ui.sidebar_cache is None ==> {
                &&& *final(self) == (Model {
                    ui: UiState { sidebar_cache: final(self).ui.sidebar_cache, ..old(self).ui },
                    ..*old(self)
                })
                &&& final(self).ui.sidebar_cache matches Some(v) && items_view(v@) == sidebar_spec(*old(self))
            },
    {
        if self.ui.sidebar_cache.is_none() {
            let items = self.sidebar_items();
            self.ui.sidebar_cache = Some(items);
        }
    }

    /// The sidebar's entries: a `System` heading with the console
    /// (`Status`, online unless disconnected), the log and the file
    /// manager; then headings `Friends`, `Groups` and `Conferences`, each
    /// followed by its entries in order of key, with their unread counts.
    pub fn sidebar_items(&self) -> (r: Vec<SidebarItem>)
        requires
            self.wf(),
        ensures
            items_view(r@) == sidebar_spec(*self),
    {
        proof {
            lemma_keys_concrete_eq();
        }
        let mut items: Vec<SidebarItem> = Vec::new();
        items.push(SidebarItem::new("System", SidebarItemType::Category));
        let st = if self.domain.self_connection_status == Connection::Disconnected {
            ContactStatus::Offline
        } else {
            ContactStatus::Online
        };
        items.push(SidebarItem::new("Status", SidebarItemType::Friend).status(st).unread(self.unread_for(WindowId::Console)));
        items.push(SidebarItem::new("Logs", SidebarItemType::Friend).unread(self.unread_for(WindowId::Logs)));
        items.push(SidebarItem::new("Files", SidebarItemType::Friend).unread(self.unread_for(WindowId::Files)));
        items.push(SidebarItem::new("Friends", SidebarItemType::Category));
        let ghost head = items_view(items@);
        proof {
            assert(head =~= sidebar_spec(*self).take(5));
        }
        let mut keys: Vec<Key32> = Vec::new();
        let mut i: usize = 0;
        while i < self.domain.friends.len()
            invariant
                i <= self.domain.friends@.len(),
                keys@ == self.domain.friends@.take(i as int).map_values(|e: (Key32, FriendInfo)| e.0),
            decreases self.domain.friends@.len() - i,
        {
            keys.push(self.domain.friends[i].0);
            assert(keys@ =~= self.domain.friends@.take(i as int + 1).map_values(|e: (Key32, FriendInfo)| e.0));
            i = i + 1;
        }
        assert(self.domain.friends@.take(self.domain.friends@.len() as int) =~= self.domain.friends@);
        let friends = sort_keys(&keys);
        proof {
            assert forall|k: int| 0 <= k < friends@.len() implies key_pos(self.domain.friends@, #[trigger] friends@[k]) >= 0 by {
                lemma_sorted_keys_from(keys@, friends@[k]);
                let j = choose|j: int| 0 <= j < keys@.len() && keys@[j] == friends@[k];
                assert(keys@[j] == self.domain.friends@[j].0);
                lemma_key_pos(self.domain.friends@, friends@[k]);
            };
        }
        let mut k: usize = 0;
        let ghost fv = friends@.map_values(|pk: Key32| friend_entry(*self, pk));
        while k < friends.len()
            invariant
                k <= friends@.len(),
                fv == friends@.map_values(|pk: Key32| friend_entry(*self, pk)),
                items_view(items@) == head + fv.take(k as int),
                forall|q: int| 0 <= q < friends@.len() ==> key_pos(self.domain.friends@, #[trigger] friends@[q]) >= 0,
            decreases friends@.len() - k,
        {
            let pk = friends[k];
            proof {
                lemma_keys_concrete_eq();
                assert(key_pos(self.domain.friends@, friends@[k as int]) >= 0);
                lemma_key_pos(self.domain.friends@, pk);
            }
            let f = key_position(&self.domain.friends, &pk).unwrap();
            let info = &self.domain.friends[f].1;
            let w = WindowId::Friend(pk);
            proof {
                lemma_key_pos(self.domain.conversations@, w);
            }
            let name = match key_position(&self.domain.conversations, &w) {
                Some(c) => self.domain.conversations[c].1.name.clone(),
                None => info.name.clone(),
            };
            let st = if info.connection == Connection::Disconnected {
                ContactStatus::Offline
            } else {
                ContactStatus::Online
            };
            let item = SidebarItem::new(name.as_str(), SidebarItemType::Friend).status(st).unread(
                self.unread_for(w),
            ).typing(info.is_typing).status_message(info.status_message.as_str());
            let ghost before = items@;
            items.push(item);
            proof {
                assert(items_view(items@) =~= items_view(before).push(item_view(item)));
                assert(item_view(item) == fv[k as int]);
                assert(items_view(items@) =~= head + fv.take(k as int + 1));
            }
            k = k + 1;
        }
        proof {
            assert(fv.take(friends@.len() as int) =~= fv);
        }
        let ghost v1 = items@;
        let gh = SidebarItem::new("Groups", SidebarItemType::Category);
        items.push(gh);
        proof {
            assert(items_view(items@) =~= items_view(v1).push(item_view(gh)));
        }
        let gkeys = self.conversation_keys_of(true);
        let groups = sort_keys(&gkeys);
        self.push_conversation_entries(&mut items, &gkeys, &groups, true);
        let ghost v2 = items@;
        let ch = SidebarItem::new("Conferences", SidebarItemType::Category);
        items.push(ch);
        proof {
            assert(items_view(items@) =~= items_view(v2).push(item_view(ch)));
        }
        let ckeys = self.conversation_keys_of(false);
        let confs = sort_keys(&ckeys);
        self.push_conversation_entries(&mut items, &ckeys, &confs, false);
        proof {
            assert(items_view(items@) =~= sidebar_spec(*self));
        }
        items
    }

    /// Appends the entries of the groups (or conferences) `sorted`, the
    /// keys of `keys` in order.
    fn push_conversation_entries(&self, items: &mut Vec<SidebarItem>, keys: &Vec<Key32>, sorted: &Vec<Key32>, groups: bool)
        requires
            sorted@ == sorted_keys(keys@),
            forall|i: int|
                0 <= i < keys@.len() ==> key_pos(
                    self.domain.conversations@,
                    if groups {
                        WindowId::Group(#[trigger] keys@[i])
                    } else {
                        WindowId::Conference(keys@[i])
                    },
                ) >= 0,
        ensures
            items_view(final(items)@) == items_view(old(items)@) + sorted@.map_values(
                |g: Key32|
                    if groups {
                        conversation_entry(*self, WindowId::Group(g), SidebarItemType::Group)
                    } else {
                        conversation_entry(*self, WindowId::Conference(g), SidebarItemType::Conference)
                    },
            ),
    {
        let ghost start = items_view(items@);
        let ghost v = sorted@.map_values(
            |g: Key32|
                if groups {
                    conversation_entry(*self, WindowId::Group(g), SidebarItemType::Group)
                } else {
                    conversation_entry(*self, WindowId::Conference(g), SidebarItemType::Conference)
                },
        );
        let mut k: usize = 0;
        while k < sorted.len()
            invariant
                k <= sorted@.len(),
                sorted@ == sorted_keys(keys@),
                v == sorted@.map_values(
                    |g: Key32|
                        if groups {
                            conversation_entry(*self, WindowId::Group(g), SidebarItemType::Group)
                        } else {
                            conversation_entry(*self, WindowId::Conference(g), SidebarItemType::Conference)
                        },
                ),
                items_view(items@) == start + v.take(k as int),
                forall|i: int|
                    0 <= i < keys@.len() ==> key_pos(
                        self.domain.conversations@,
                        if groups {
                            WindowId::Group(#[trigger] keys@[i])
                        } else {
                            WindowId::Conference(keys@[i])
                        },
                    ) >= 0,
            decreases sorted@.len() - k,
        {
            let g = sorted[k];
            proof {
                lemma_sorted_keys_from(keys@, g);
                let j = choose|j: int| 0 <= j < keys@.len() && keys@[j] == g;
                assert(key_pos(
                    self.domain.conversations@,
                    if groups {
                        WindowId::Group(keys@[j])
                    } else {
                        WindowId::Conference(keys@[j])
                    },
                ) >= 0);
            }
            let (w, kind) = if groups {
                (WindowId::Group(g), SidebarItemType::Group)
            } else {
                (WindowId::Conference(g), SidebarItemType::Conference)
            };
            let name = self.conversation_name(w);
            let item = SidebarItem::new(name.as_str(), kind).status(ContactStatus::Online).unread(self.unread_for(w));
            let ghost before = items@;
            items.push(item);
            proof {
                assert(items_view(items@) =~= items_view(before).push(item_view(item)));
                assert(item_view(item) == v[k as int]);
                assert(items_view(items@) =~= start + v.take(k as int + 1));
            }
            k = k + 1;
        }
        proof {
            assert(v.take(sorted@.len() as int) =~= v);
        }
    }
}

/// Every key of the sorted keys is one of the keys.
proof fn lemma_sorted_keys_from(s: Seq<Key32>, x: Key32)
    requires
        sorted_keys(s).contains(x),
    ensures
        s.contains(x),
    decreases s.len(),
{
    if s.len() > 0 {
        let r = sorted_keys(s.drop_last());
        lemma_key_insert_at(r, s.last());
        let p = key_insert_at(r, s.last());
        let t = r.insert(p, s.last());
        let i = choose|i: int| 0 <= i < t.len() && t[i] == x;
        if x != s.last() {
            if i < p {
                assert(t[i] == r[i]);
            } else if i > p {
                assert(t[i] == r[i - 1]);
            }
            assert(r.contains(x));
            lemma_sorted_keys_from(s.drop_last(), x);
            let j = choose|j: int| 0 <= j < s.drop_last().len() && s.drop_last()[j] == x;
            assert(s[j] == x);
        } else {
            assert(s[s.len() - 1] == x);
        }
    }
}

} // verus!
