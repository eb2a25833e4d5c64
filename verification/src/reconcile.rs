//! Bringing the model in line with what the network library reports after
//! a (re)start: its numbers for contacts, groups and conferences.
use crate::domain::{
    conversation_ensured, friend_window_name, key_pos, lemma_key_pos, lemma_keys_concrete_eq, lookup, numbered_name,
    ChatId, ConferenceId, Conversation, DomainState, FriendInfo, GroupRole, Key32, Model, PeerInfo, PublicKey,
    SessionState, UserStatus, WindowId,
};
use crate::export::{dec, push_dec};
use crate::text::{str_chars, string_from_chars};
use crate::update::{
    conv_of, lemma_numbers_concrete_eq, lemma_peer_pos, lemma_put_unique, lemma_same_keys, map_put,
    only_conference_numbers, only_conversations, only_group_numbers, peer_pos, put, sidebar_dropped,
};
use vstd::laws_eq::obeys_concrete_eq;
use vstd::std_specs::cmp::PartialEqSpec;
use vstd::prelude::*;

verus! {

broadcast use vstd::std_specs::vec::group_vec_axioms;

/// What the network library reports of a group: its number, id, name,
/// the user's role and the user's name in it.
#[derive(Debug, Clone)]
pub struct GroupReconcileInfo {
    pub number: u32,
    pub chat_id: ChatId,
    pub name: Option<String>,
    pub role: Option<GroupRole>,
    pub self_name: Option<String>,
}

/// What the network library reports of a conference: its number, id and
/// title.
#[derive(Debug, Clone)]
pub struct ConferenceReconcileInfo {
    pub number: u32,
    pub id: ConferenceId,
    pub title: Option<String>,
}

/// A reported contact with what was known of its messages kept.
pub open spec fn merged(info: FriendInfo, old: Option<FriendInfo>) -> FriendInfo {
    match old {
        Some(o) => FriendInfo {
            last_sent_message_id: o.last_sent_message_id,
            last_read_receipt: o.last_read_receipt,
            ..info
        },
        None => info,
    }
}

/// The contact numbers of the reported contacts that have keys.
pub open spec fn friend_numbers_of(fs: Seq<(u32, FriendInfo)>) -> Seq<(u32, PublicKey)>
    decreases fs.len(),
{
    if fs.len() == 0 {
        Seq::empty()
    } else {
        let rest = friend_numbers_of(fs.drop_last());
        match fs.last().1.public_key {
            Some(pk) => put(rest, fs.last().0, pk),
            None => rest,
        }
    }
}

/// The contacts after the report `fs`, merged with those known before
/// (`old`): each reported contact with a key, by key.
pub open spec fn friends_of(fs: Seq<(u32, FriendInfo)>, old: Seq<(PublicKey, FriendInfo)>) -> Seq<(PublicKey, FriendInfo)>
    decreases fs.len(),
{
    if fs.len() == 0 {
        Seq::empty()
    } else {
        let rest = friends_of(fs.drop_last(), old);
        match fs.last().1.public_key {
            Some(pk) => put(rest, pk, merged(fs.last().1, lookup(old, pk))),
            None => rest,
        }
    }
}

/// A group's name after a report: the reported name unless empty,
/// otherwise `Group <number>` for a group still called `Group`.
pub open spec fn group_name_after(name: Seq<char>, info: GroupReconcileInfo) -> Seq<char> {
    match info.name {
        Some(n) => if n@.len() > 0 {
            n@
        } else if name == "Group"@ {
            "Group "@ + dec(info.number as nat)
        } else {
            name
        },
        None => if name == "Group"@ {
            "Group "@ + dec(info.number as nat)
        } else {
            name
        },
    }
}

/// A conference's name after a report: the title unless empty, otherwise
/// `Conference <number>` for a conference still called `Conference`.
pub open spec fn conference_name_after(name: Seq<char>, info: ConferenceReconcileInfo) -> Seq<char> {
    match info.title {
        Some(t) => if t@.len() > 0 {
            t@
        } else if name == "Conference"@ {
            "Conference "@ + dec(info.number as nat)
        } else {
            name
        },
        None => if name == "Conference"@ {
            "Conference "@ + dec(info.number as nat)
        } else {
            name
        },
    }
}

/// `m2` is `m` after the report on one group: its number recorded, its
/// window opened, its name, the user's role and the user's name set.
pub open spec fn group_reconciled(m: Model, m2: Model, info: GroupReconcileInfo) -> bool {
    let w = WindowId::Group(info.chat_id);
    exists|m1: Model, mid: Model|
        #![trigger only_group_numbers(m, m1), conversation_ensured(m1, mid, w, numbered_name("Group"@, m1.session.group_numbers@, info.chat_id))]
        {
            let k = key_pos(mid.domain.conversations@, w);
            let c = conv_of(mid, w);
            let c2 = m2.domain.conversations@[k].1;
            &&& only_group_numbers(m, m1)
            &&& m1.session.group_numbers@ == put(m.session.group_numbers@, info.number, info.chat_id)
            &&& conversation_ensured(m1, mid, w, numbered_name("Group"@, m1.session.group_numbers@, info.chat_id))
            &&& only_conversations(mid, m2)
            &&& k >= 0
            &&& m2.domain.conversations@ == mid.domain.conversations@.update(k, (w, c2))
            &&& c2 == (Conversation { name: c2.name, self_role: info.role, self_name: info.self_name, ..c })
            &&& c2.name@ == group_name_after(c.name@, info)
        }
}

/// `m2` is `m` after the reports on the groups `infos`, in order.
pub open spec fn groups_reconciled(m: Model, m2: Model, infos: Seq<GroupReconcileInfo>) -> bool
    decreases infos.len(),
{
    if infos.len() == 0 {
        m2 == m
    } else {
        exists|mid: Model|
            #![trigger group_reconciled(mid, m2, infos.last())]
            groups_reconciled(m, mid, infos.drop_last()) && group_reconciled(mid, m2, infos.last())
    }
}

/// `m2` is `m` after the report on one conference: its number recorded,
/// its window opened, its name (and, for a title, its topic) set.
pub open spec fn conference_reconciled(m: Model, m2: Model, info: ConferenceReconcileInfo) -> bool {
    let w = WindowId::Conference(info.id);
    exists|m1: Model, mid: Model|
        #![trigger only_conference_numbers(m, m1), conversation_ensured(m1, mid, w, numbered_name("Conference"@, m1.session.conference_numbers@, info.id))]
        {
            let k = key_pos(mid.domain.conversations@, w);
            let c = conv_of(mid, w);
            let c2 = m2.domain.conversations@[k].1;
            &&& only_conference_numbers(m, m1)
            &&& m1.session.conference_numbers@ == put(m.session.conference_numbers@, info.number, info.id)
            &&& conversation_ensured(
                m1,
                mid,
                w,
                numbered_name("Conference"@, m1.session.conference_numbers@, info.id),
            )
            &&& only_conversations(mid, m2)
            &&& k >= 0
            &&& m2.domain.conversations@ == mid.domain.conversations@.update(k, (w, c2))
            &&& c2 == (Conversation { name: c2.name, topic: c2.topic, ..c })
            &&& c2.name@ == conference_name_after(c.name@, info)
            &&& c2.topic == match info.title {
                Some(t) => if t@.len() > 0 {
                    Some(t)
                } else {
                    c.topic
                },
                None => c.topic,
            }
        }
}

/// `m2` is `m` after the reports on the conferences `infos`, in order.
pub open spec fn conferences_reconciled(m: Model, m2: Model, infos: Seq<ConferenceReconcileInfo>) -> bool
    decreases infos.len(),
{
    if infos.len() == 0 {
        m2 == m
    } else {
        exists|mid: Model|
            #![trigger conference_reconciled(mid, m2, infos.last())]
            conferences_reconciled(m, mid, infos.drop_last()) && conference_reconciled(mid, m2, infos.last())
    }
}

/// `m2` is `m` with contact `pk`'s window opened and, when the contact has
/// a name that its conversation does not bear, the conversation renamed.
pub open spec fn friend_window_synced(m: Model, m2: Model, pk: PublicKey) -> bool {
    let w = WindowId::Friend(pk);
    exists|mid: Model|
        #![trigger conversation_ensured(m, mid, w, friend_window_name(m, pk))]
        {
            let info = lookup(mid.domain.friends@, pk)->0;
            let k = key_pos(mid.domain.conversations@, w);
            &&& conversation_ensured(m, mid, w, friend_window_name(m, pk))
            &&& if k >= 0 && lookup(mid.domain.friends@, pk) is Some && info.name@.len() > 0 && info.name@
                != conv_of(mid, w).name@ {
                only_conversations(mid, m2) && m2.domain.conversations@ == mid.domain.conversations@.update(
                    k,
                    (w, Conversation { name: info.name, ..conv_of(mid, w) }),
                )
            } else {
                m2 == mid
            }
        }
}

/// `m2` is `m` with the windows of the contacts `pks` synced, in order.
pub open spec fn friend_windows_synced(m: Model, m2: Model, pks: Seq<PublicKey>) -> bool
    decreases pks.len(),
{
    if pks.len() == 0 {
        m2 == m
    } else {
        exists|mid: Model|
            #![trigger friend_window_synced(mid, m2, pks.last())]
            friend_windows_synced(m, mid, pks.drop_last()) && friend_window_synced(mid, m2, pks.last())
    }
}

/// The keys of the contacts, in order.
pub open spec fn friend_keys(s: Seq<(PublicKey, FriendInfo)>) -> Seq<PublicKey> {
    s.map_values(|e: (PublicKey, FriendInfo)| e.0)
}

/// A member not seen yet in this session.
pub open spec fn unseen(p: PeerInfo) -> PeerInfo {
    PeerInfo { seen_online: false, status: UserStatus::Available, ..p }
}

/// The members, each key once (its first entry), none seen yet.
pub open spec fn fresh_peers(ps: Seq<PeerInfo>) -> Seq<PeerInfo>
    decreases ps.len(),
{
    if ps.len() == 0 {
        Seq::empty()
    } else if peer_pos(ps.drop_last(), ps.last().id) >= 0 {
        fresh_peers(ps.drop_last())
    } else {
        fresh_peers(ps.drop_last()).push(unseen(ps.last()))
    }
}

/// `m2` is `m` with the members of every conversation made fresh.
pub open spec fn peers_refreshed(m: Model, m2: Model) -> bool {
    let a = m.domain.conversations@;
    let b = m2.domain.conversations@;
    &&& only_conversations(m, m2)
    &&& b.len() == a.len()
    &&& forall|i: int|
        0 <= i < a.len() ==> #[trigger] b[i] == (
            a[i].0,
            Conversation { peers: b[i].1.peers, ..a[i].1 },
        ) && b[i].1.peers@ == fresh_peers(a[i].1.peers@)
}

/// What `reconcile` makes of the model: the session's numbers replaced by
/// the reported ones; the reported contacts (those with keys) replacing
/// the known ones, keeping what was known of their messages; each group
/// and conference recorded, its window opened and named; every contact's
/// window opened and named after the contact; every conversation's members
/// each listed once and not seen yet; the sidebar drawn again.
pub open spec fn reconciled(
    before: Model,
    after: Model,
    friends: Seq<(u32, FriendInfo)>,
    groups: Seq<GroupReconcileInfo>,
    conferences: Seq<ConferenceReconcileInfo>,
) -> bool {
    exists|m1: Model, m2: Model, m3: Model, m4: Model, m5: Model|
        #![trigger groups_reconciled(m1, m2, groups), conferences_reconciled(m2, m3, conferences), friend_windows_synced(m3, m4, friend_keys(m3.domain.friends@)), peers_refreshed(m4, m5)]
        {
            &&& m1 == (Model {
                session: SessionState {
                    friend_numbers: m1.session.friend_numbers,
                    group_numbers: m1.session.group_numbers,
                    conference_numbers: m1.session.conference_numbers,
                    group_peer_numbers: m1.session.group_peer_numbers,
                },
                domain: DomainState { friends: m1.domain.friends, ..before.domain },
                ..before
            })
            &&& m1.session.friend_numbers@ == friend_numbers_of(friends)
            &&& m1.session.group_numbers@.len() == 0
            &&& m1.session.conference_numbers@.len() == 0
            &&& m1.session.group_peer_numbers@.len() == 0
            &&& m1.domain.friends@ == friends_of(friends, before.domain.friends@)
            &&& groups_reconciled(m1, m2, groups)
            &&& conferences_reconciled(m2, m3, conferences)
            &&& friend_windows_synced(m3, m4, friend_keys(m3.domain.friends@))
            &&& peers_refreshed(m4, m5)
            &&& sidebar_dropped(m5, after)
        }
}

/// A copy of a contact's entry.
fn copy_friend(f: &FriendInfo) -> (r: FriendInfo)
    ensures
        r == *f,
{
    FriendInfo {
        name: f.name.clone(),
        public_key: f.public_key,
        status_message: f.status_message.clone(),
        connection: f.connection,
        last_sent_message_id: f.last_sent_message_id,
        last_read_receipt: f.last_read_receipt,
        is_typing: f.is_typing,
    }
}

/// A copy of a group report.
fn copy_group_info(g: &GroupReconcileInfo) -> (r: GroupReconcileInfo)
    ensures
        r == *g,
{
    GroupReconcileInfo {
        number: g.number,
        chat_id: g.chat_id,
        name: match &g.name {
            Some(n) => Some(n.clone()),
            None => None,
        },
        role: g.role,
        self_name: match &g.self_name {
            Some(n) => Some(n.clone()),
            None => None,
        },
    }
}

/// A copy of a conference report.
fn copy_conference_info(c: &ConferenceReconcileInfo) -> (r: ConferenceReconcileInfo)
    ensures
        r == *c,
{
    ConferenceReconcileInfo {
        number: c.number,
        id: c.id,
        title: match &c.title {
            Some(t) => Some(t.clone()),
            None => None,
        },
    }
}

/// `prefix` followed by `n` in decimal.
fn numbered(prefix: &str, n: u32) -> (r: String)
    ensures
        r@ == prefix@ + dec(n as nat),
{
    let mut cs = str_chars(prefix);
    push_dec(&mut cs, n as u64);
    string_from_chars(cs.as_slice())
}

/// Whether a member with key `pk` comes before position `j`.
fn has_peer_before(ps: &Vec<PeerInfo>, j: usize, pk: &PublicKey) -> (r: bool)
    requires
        j <= ps@.len(),
    ensures
        r == (peer_pos(ps@.take(j as int), *pk) >= 0),
{
    proof {
        lemma_keys_concrete_eq();
        reveal(vstd::laws_eq::obeys_concrete_eq);
        lemma_peer_pos(ps@.take(j as int), *pk);
    }
    let mut i: usize = 0;
    while i < j
        invariant
            i <= j <= ps@.len(),
            forall|q: int| 0 <= q < i ==> ps@[q].id != *pk,
            forall|a: PublicKey, b: PublicKey| a.eq_spec(&b) <==> a == b,
            peer_pos(ps@.take(j as int), *pk) >= 0 ==> ps@.take(j as int)[peer_pos(ps@.take(j as int), *pk)].id == *pk,
            peer_pos(ps@.take(j as int), *pk) == -1 ==> forall|q: int| 0 <= q < j ==> ps@.take(j as int)[q].id != *pk,
            -1 <= peer_pos(ps@.take(j as int), *pk) < j,
        decreases j - i,
    {
        if ps[i].id == *pk {
            assert(ps@.take(j as int)[i as int].id == *pk);
            return true;
        }
        i = i + 1;
    }
    proof {
        if peer_pos(ps@.take(j as int), *pk) >= 0 {
            let q = peer_pos(ps@.take(j as int), *pk);
            assert(ps@[q].id == *pk);
        }
    }
    false
}

/// The members made fresh.
fn refresh_peers(ps: &Vec<PeerInfo>) -> (r: Vec<PeerInfo>)
    ensures
        r@ == fresh_peers(ps@),
{
    let mut r: Vec<PeerInfo> = Vec::new();
    let mut j: usize = 0;
    assert(ps@.take(0) =~= Seq::<PeerInfo>::empty());
    while j < ps.len()
        invariant
            j <= ps@.len(),
            r@ == fresh_peers(ps@.take(j as int)),
        decreases ps@.len() - j,
    {
        assert(ps@.take(j as int + 1).drop_last() =~= ps@.take(j as int));
        if !has_peer_before(ps, j, &ps[j].id) {
            let p = &ps[j];
            r.push(
                PeerInfo {
                    id: p.id,
                    name: p.name.clone(),
                    role: p.role,
                    status: UserStatus::Available,
                    is_ignored: p.is_ignored,
                    seen_online: false,
                },
            );
        }
        j = j + 1;
    }
    assert(ps@.take(ps@.len() as int) =~= ps@);
    r
}

impl Model {
    /// Sets the name, the user's role and the user's name of conversation
    /// `k`.
    fn set_group_fields(&mut self, k: usize, name: String, role: Option<GroupRole>, self_name: Option<String>)
        requires
            old(self).wf(),
            k < old(self).domain.conversations@.len(),
        ensures
            final(self).wf(),
            only_conversations(*old(self), *final(self)),
            final(self).domain.conversations@ == old(self).domain.conversations@.update(
                k as int,
                (
                    old(self).domain.conversations@[k as int].0,
                    Conversation {
                        name: name,
                        self_role: role,
                        self_name: self_name,
                        ..old(self).domain.conversations@[k as int].1
                    },
                ),
            ),
    {
        let ghost before = self.domain.conversations@;
        self.domain.conversations[k].1.name = name;
        self.domain.conversations[k].1.self_role = role;
        self.domain.conversations[k].1.self_name = self_name;
        proof {
            assert(self.domain.conversations@ =~= before.update(
                k as int,
                (
                    before[k as int].0,
                    Conversation { name: name, self_role: role, self_name: self_name, ..before[k as int].1 },
                ),
            ));
            lemma_same_keys(before, self.domain.conversations@);
        }
    }

    /// Sets the name and topic of conversation `k`.
    fn set_conference_fields(&mut self, k: usize, name: String, topic: Option<String>)
        requires
            old(self).wf(),
            k < old(self).domain.conversations@.len(),
        ensures
            final(self).wf(),
            only_conversations(*old(self), *final(self)),
            final(self).domain.conversations@ == old(self).domain.conversations@.update(
                k as int,
                (
                    old(self).domain.conversations@[k as int].0,
                    Conversation { name: name, topic: topic, ..old(self).domain.conversations@[k as int].1 },
                ),
            ),
    {
        let ghost before = self.domain.conversations@;
        self.domain.conversations[k].1.name = name;
        self.domain.conversations[k].1.topic = topic;
        proof {
            assert(self.domain.conversations@ =~= before.update(
                k as int,
                (before[k as int].0, Conversation { name: name, topic: topic, ..before[k as int].1 }),
            ));
            lemma_same_keys(before, self.domain.conversations@);
        }
    }

    /// Records one reported group.
    fn reconcile_group(&mut self, info: GroupReconcileInfo)
        requires
            old(self).wf(),
        ensures
            final(self).wf(),
            group_reconciled(*old(self), *final(self), info),
    {
        proof {
            lemma_numbers_concrete_eq();
        }
        let w = WindowId::Group(info.chat_id);
        map_put(&mut self.session.group_numbers, info.number, info.chat_id);
        let ghost m1 = *self;
        self.ensure_group_window(info.chat_id);
        let ghost mid = *self;
        proof {
            lemma_key_pos(mid.domain.conversations@, w);
            if key_pos(m1.domain.conversations@, w) < 0 {
                assert(mid.domain.conversations@.last().0 == w);
            }
        }
        let k = self.conv_index(w).unwrap();
        let is_plain = self.domain.conversations[k].1.name == "Group".to_owned();
        let name = match &info.name {
            Some(n) => if n.as_str().unicode_len() > 0 {
                n.clone()
            } else if is_plain {
                numbered("Group ", info.number)
            } else {
                self.domain.conversations[k].1.name.clone()
            },
            None => if is_plain {
                numbered("Group ", info.number)
            } else {
                self.domain.conversations[k].1.name.clone()
            },
        };
        self.set_group_fields(k, name, info.role, info.self_name);
        proof {
            assert(only_group_numbers(*old(self), m1));
            assert(conv_of(mid, w) == mid.domain.conversations@[k as int].1);
        }
    }

    /// Records one reported conference.
    fn reconcile_conference(&mut self, info: ConferenceReconcileInfo)
        requires
            old(self).wf(),
        ensures
            final(self).wf(),
            conference_reconciled(*old(self), *final(self), info),
    {
        proof {
            lemma_numbers_concrete_eq();
        }
        let w = WindowId::Conference(info.id);
        map_put(&mut self.session.conference_numbers, info.number, info.id);
        let ghost m1 = *self;
        self.ensure_conference_window(info.id);
        let ghost mid = *self;
        proof {
            lemma_key_pos(mid.domain.conversations@, w);
            if key_pos(m1.domain.conversations@, w) < 0 {
                assert(mid.domain.conversations@.last().0 == w);
            }
        }
        let k = self.conv_index(w).unwrap();
        let is_plain = self.domain.conversations[k].1.name == "Conference".to_owned();
        let old_topic = match &self.domain.conversations[k].1.topic {
            Some(t) => Some(t.clone()),
            None => None,
        };
        let (name, topic) = match &info.title {
            Some(t) => if t.as_str().unicode_len() > 0 {
                (t.clone(), Some(t.clone()))
            } else if is_plain {
                (numbered("Conference ", info.number), old_topic)
            } else {
                (self.domain.conversations[k].1.name.clone(), old_topic)
            },
            None => if is_plain {
                (numbered("Conference ", info.number), old_topic)
            } else {
                (self.domain.conversations[k].1.name.clone(), old_topic)
            },
        };
        self.set_conference_fields(k, name, topic);
        proof {
            assert(only_conference_numbers(*old(self), m1));
            assert(conv_of(mid, w) == mid.domain.conversations@[k as int].1);
        }
    }

    /// Opens contact `pk`'s window and names it after the contact.
    fn sync_friend_window(&mut self, pk: PublicKey)
        requires
            old(self).wf(),
        ensures
            final(self).wf(),
            friend_window_synced(*old(self), *final(self), pk),
    {
        proof {
            lemma_keys_concrete_eq();
        }
        let w = WindowId::Friend(pk);
        self.ensure_friend_window(pk);
        let ghost mid = *self;
        proof {
            lemma_key_pos(self.domain.friends@, pk);
        }
        match (self.conv_index(w), crate::domain::key_position(&self.domain.friends, &pk)) {
            (Some(k), Some(f)) => {
                let fname = self.domain.friends[f].1.name.clone();
                if fname.as_str().unicode_len() > 0 && !(fname == self.domain.conversations[k].1.name) {
                    self.rename_conversation(k, fname);
                    proof {
                        assert(conv_of(mid, w) == mid.domain.conversations@[k as int].1);
                    }
                }
            },
            _ => {},
        }
    }

    /// Brings the model in line with a report of the network library: the
    /// contacts it knows (by number), its groups and its conferences.
    pub fn reconcile(
        &mut self,
        friends: Vec<(u32, FriendInfo)>,
        groups: Vec<GroupReconcileInfo>,
        conferences: Vec<ConferenceReconcileInfo>,
    )
        requires
            old(self).wf(),
        ensures
            final(self).wf(),
            reconciled(*old(self), *final(self), friends@, groups@, conferences@),
    {
        proof {
            lemma_numbers_concrete_eq();
            lemma_keys_concrete_eq();
        }
        self.session.friend_numbers = Vec::new();
        self.session.group_numbers = Vec::new();
        self.session.conference_numbers = Vec::new();
        self.session.group_peer_numbers = Vec::new();
        let mut new_friends: Vec<(PublicKey, FriendInfo)> = Vec::new();
        let mut i: usize = 0;
        assert(friends@.take(0) =~= Seq::<(u32, FriendInfo)>::empty());
        while i < friends.len()
            invariant
                i <= friends@.len(),
                self.domain == old(self).domain,
                self.session.friend_numbers@ == friend_numbers_of(friends@.take(i as int)),
                new_friends@ == friends_of(friends@.take(i as int), old(self).domain.friends@),
                crate::domain::keys_unique(new_friends@),
                self.session.group_numbers@.len() == 0,
                self.session.conference_numbers@.len() == 0,
                self.session.group_peer_numbers@.len() == 0,
                self.ui == old(self).ui,
                self.config == old(self).config,
                self.saved_config == old(self).saved_config,
                self.tick_count == old(self).tick_count,
                obeys_concrete_eq::<u32>(),
                obeys_concrete_eq::<Key32>(),
            decreases friends@.len() - i,
        {
            assert(friends@.take(i as int + 1).drop_last() =~= friends@.take(i as int));
            let num = friends[i].0;
            match friends[i].1.public_key {
                Some(pk) => {
                    map_put(&mut self.session.friend_numbers, num, pk);
                    let mut info = copy_friend(&friends[i].1);
                    proof {
                        lemma_key_pos(self.domain.friends@, pk);
                    }
                    match crate::domain::key_position(&self.domain.friends, &pk) {
                        Some(o) => {
                            info.last_sent_message_id = self.domain.friends[o].1.last_sent_message_id;
                            info.last_read_receipt = self.domain.friends[o].1.last_read_receipt;
                        },
                        None => {},
                    }
                    proof {
                        lemma_put_unique(new_friends@, pk, info);
                    }
                    map_put(&mut new_friends, pk, info);
                },
                None => {},
            }
            i = i + 1;
        }
        assert(friends@.take(friends@.len() as int) =~= friends@);
        self.domain.friends = new_friends;
        let ghost m1 = *self;
        proof {
            assert(m1.session == (SessionState {
                friend_numbers: m1.session.friend_numbers,
                group_numbers: m1.session.group_numbers,
                conference_numbers: m1.session.conference_numbers,
                group_peer_numbers: m1.session.group_peer_numbers,
            }));
        }
        let mut g: usize = 0;
        assert(groups@.take(0) =~= Seq::<GroupReconcileInfo>::empty());
        while g < groups.len()
            invariant
                g <= groups@.len(),
                self.wf(),
                groups_reconciled(m1, *self, groups@.take(g as int)),
            decreases groups@.len() - g,
        {
            let ghost before = *self;
            let info = copy_group_info(&groups[g]);
            self.reconcile_group(info);
            proof {
                let t = groups@.take(g as int + 1);
                assert(t.drop_last() =~= groups@.take(g as int));
                assert(group_reconciled(before, *self, t.last()));
            }
            g = g + 1;
        }
        assert(groups@.take(groups@.len() as int) =~= groups@);
        let ghost m2 = *self;
        let mut c: usize = 0;
        assert(conferences@.take(0) =~= Seq::<ConferenceReconcileInfo>::empty());
        while c < conferences.len()
            invariant
                c <= conferences@.len(),
                self.wf(),
                conferences_reconciled(m2, *self, conferences@.take(c as int)),
            decreases conferences@.len() - c,
        {
            let ghost before = *self;
            let info = copy_conference_info(&conferences[c]);
            self.reconcile_conference(info);
            proof {
                let t = conferences@.take(c as int + 1);
                assert(t.drop_last() =~= conferences@.take(c as int));
                assert(conference_reconciled(before, *self, t.last()));
            }
            c = c + 1;
        }
        assert(conferences@.take(conferences@.len() as int) =~= conferences@);
        let ghost m3 = *self;
        let mut pks: Vec<PublicKey> = Vec::new();
        let mut q: usize = 0;
        while q < self.domain.friends.len()
            invariant
                q <= self.domain.friends@.len(),
                pks@ == friend_keys(self.domain.friends@.take(q as int)),
            decreases self.domain.friends@.len() - q,
        {
            pks.push(self.domain.friends[q].0);
            assert(pks@ =~= friend_keys(self.domain.friends@.take(q as int + 1)));
            q = q + 1;
        }
        assert(self.domain.friends@.take(self.domain.friends@.len() as int) =~= self.domain.friends@);
        let mut f: usize = 0;
        assert(pks@.take(0) =~= Seq::<PublicKey>::empty());
        while f < pks.len()
            invariant
                f <= pks@.len(),
                self.wf(),
                friend_windows_synced(m3, *self, pks@.take(f as int)),
            decreases pks@.len() - f,
        {
            let ghost before = *self;
            self.sync_friend_window(pks[f]);
            proof {
                let t = pks@.take(f as int + 1);
                assert(t.drop_last() =~= pks@.take(f as int));
                assert(friend_window_synced(before, *self, t.last()));
            }
            f = f + 1;
        }
        assert(pks@.take(pks@.len() as int) =~= pks@);
        let ghost m4 = *self;
        let mut k: usize = 0;
        while k < self.domain.conversations.len()
            invariant
                k <= m4.domain.conversations@.len(),
                self.wf(),
                only_conversations(m4, *self),
                self.domain.conversations@.len() == m4.domain.conversations@.len(),
                forall|i: int|
                    0 <= i < k ==> #[trigger] self.domain.conversations@[i] == (
                        m4.domain.conversations@[i].0,
                        Conversation { peers: self.domain.conversations@[i].1.peers, ..m4.domain.conversations@[i].1 },
                    ) && self.domain.conversations@[i].1.peers@ == fresh_peers(m4.domain.conversations@[i].1.peers@),
                forall|i: int| k <= i < m4.domain.conversations@.len() ==> #[trigger] self.domain.conversations@[i]
                    == m4.domain.conversations@[i],
            decreases m4.domain.conversations@.len() - k,
        {
            let fresh = refresh_peers(&self.domain.conversations[k].1.peers);
            let ghost before = self.domain.conversations@;
            self.domain.conversations[k].1.peers = fresh;
            proof {
                lemma_same_keys(before, self.domain.conversations@);
            }
            k = k + 1;
        }
        let ghost m5 = *self;
        self.invalidate_sidebar_cache();
        proof {
            assert(peers_refreshed(m4, m5));
            assert(sidebar_dropped(m5, *self));
        }
    }
}

} // verus!
