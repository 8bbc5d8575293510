//! Channels: the record of a channel with its members, and the registry that indexes
//! channels by case-folded name.
use vstd::prelude::*;
use crate::modes::{MembershipMode, Modes};
use crate::util::{fold, label_to_lower};

verus! {

/// Relies on `time::get_time`: the current time, in seconds since the Unix epoch.
#[verifier::external_body]
fn unix_time() -> (r: i64) {
    time::get_time().sec
}

/// A member of a channel and the member's modes there.
#[derive(PartialEq, Eq, Structural, Clone, Copy, Debug)]
pub struct Member {
    pub id: u128,
    pub mode: MembershipMode,
}

/// A channel.
pub struct Channel {
    /// The name as first seen, with the case it was first written in.
    pub name: String,
    pub topic: String,
    pub modes: Modes,
    /// Creation time, in seconds since the Unix epoch.
    pub creation_time: i64,
    pub members: Vec<Member>,
}

pub open spec fn member_ids(ms: Seq<Member>) -> Seq<u128> {
    ms.map_values(|m: Member| m.id)
}

impl Channel {
    /// Modes are well formed, and each user is a member at most once.
    pub open spec fn wf(&self) -> bool {
        &&& self.modes@.len() == 52
        &&& forall|i: int, j: int|
            0 <= i < self.members@.len() && 0 <= j < self.members@.len() && i != j ==> (
            #[trigger] self.members@[i]).id != (#[trigger] self.members@[j]).id
    }

    pub open spec fn has(&self, id: u128) -> bool {
        exists|i: int| 0 <= i < self.members@.len() && (#[trigger] self.members@[i]).id == id
    }

    /// The folded name, which identifies the channel.
    pub open spec fn key(&self) -> Seq<char> {
        fold(self.name@)
    }

    /// Creates an empty channel with no mode and no topic.
    pub fn new(name: String, creation_time: i64) -> (r: Channel)
        ensures
            r.wf(),
            r.name == name,
            r.topic@.len() == 0,
            r.modes@ == Seq::new(52, |i: int| false),
            r.creation_time == creation_time,
            r.members@.len() == 0,
    {
        Channel { name, topic: String::new(), modes: Modes::new(), creation_time, members: Vec::new() }
    }

    /// Position of a member.
    pub fn index_of_member(&self, id: u128) -> (r: Option<usize>)
        ensures
            r matches Some(i) ==> i < self.members@.len() && self.members@[i as int].id == id,
            r is None ==> !self.has(id),
    {
        let mut i: usize = 0;
        while i < self.members.len()
            invariant
                i <= self.members@.len(),
                forall|k: int| 0 <= k < i ==> (#[trigger] self.members@[k]).id != id,
            decreases self.members.len() - i,
        {
            if self.members[i].id == id {
                return Some(i);
            }
            i = i + 1;
        }
        None
    }

    /// Returns `true` if the user is a member.
    pub fn has_member(&self, id: u128) -> (r: bool)
        ensures
            r == self.has(id),
    {
        self.index_of_member(id).is_some()
    }

    /// The number of members.
    pub fn member_count(&self) -> (r: usize)
        ensures
            r == self.members@.len(),
    {
        self.members.len()
    }

    /// Returns `true` if the channel has no member.
    pub fn is_empty(&self) -> (r: bool)
        ensures
            r == (self.members@.len() == 0),
    {
        self.members.len() == 0
    }

    /// Adds the user with no membership mode; does nothing if the user is already in.
    pub fn join(&mut self, id: u128)
        requires
            old(self).wf(),
        ensures
            final(self).wf(),
            final(self).has(id),
            old(self).has(id) ==> final(self).members@ == old(self).members@,
            old(self).has(id) ==> *final(self) == *old(self),
            !old(self).has(id) ==> final(self).members@ == old(self).members@.push(
                Member { id, mode: MembershipMode { voice: false, op: false } },
            ),
            final(self).name == old(self).name,
            final(self).topic == old(self).topic,
            final(self).modes == old(self).modes,
            final(self).creation_time == old(self).creation_time,
    {
        if self.index_of_member(id).is_none() {
            let ghost before = self.members@;
            self.members.push(Member { id, mode: MembershipMode::empty() });
            assert(self.members@[before.len() as int].id == id);
            assert forall|i: int, j: int|
                0 <= i < self.members@.len() && 0 <= j < self.members@.len() && i != j implies (
                #[trigger] self.members@[i]).id != (#[trigger] self.members@[j]).id by {
                if i < before.len() && j < before.len() {
                    assert(self.members@[i] == before[i] && self.members@[j] == before[j]);
                } else if i < before.len() {
                    assert(self.members@[i] == before[i]);
                } else {
                    assert(self.members@[j] == before[j]);
                }
            }
        }
    }

    /// Removes the user; does nothing if the user is not a member.
    pub fn part(&mut self, id: u128)
        requires
            old(self).wf(),
        ensures
            final(self).wf(),
            !final(self).has(id),
            forall|m: Member| #[trigger]
                final(self).members@.contains(m) <==> old(self).members@.contains(m) && m.id != id,
            final(self).members@.len() == if old(self).has(id) {
                old(self).members@.len() - 1
            } else {
                old(self).members@.len() as int
            },
            final(self).name == old(self).name,
            final(self).topic == old(self).topic,
            final(self).modes == old(self).modes,
            final(self).creation_time == old(self).creation_time,
    {
        match self.index_of_member(id) {
            Some(i) => {
                let ghost before = self.members@;
                self.members.remove(i);
                assert(self.members@ =~= before.remove(i as int));
                assert forall|m: Member| #[trigger]
                    self.members@.contains(m) <==> before.contains(m) && m.id != id by {
                    if self.members@.contains(m) {
                        let k = choose|k: int| 0 <= k < self.members@.len() && self.members@[k] == m;
                        if k < i {
                            assert(before[k] == m);
                            assert(k != i);
                        } else {
                            assert(before[k + 1] == m);
                        }
                    }
                    if before.contains(m) && m.id != id {
                        let k = choose|k: int| 0 <= k < before.len() && before[k] == m;
                        if k < i {
                            assert(self.members@[k] == m);
                        } else {
                            assert(k != i);
                            assert(self.members@[k - 1] == m);
                        }
                    }
                }
                assert forall|k: int| 0 <= k < self.members@.len() implies (#[trigger] self.members@[k]).id != id by {
                    if k < i {
                        assert(self.members@[k] == before[k]);
                    } else {
                        assert(self.members@[k] == before[k + 1]);
                    }
                }
                assert forall|a: int, b: int|
                    0 <= a < self.members@.len() && 0 <= b < self.members@.len() && a != b implies (
                    #[trigger] self.members@[a]).id != (#[trigger] self.members@[b]).id by {
                    let a2 = if a < i { a } else { a + 1 };
                    let b2 = if b < i { b } else { b + 1 };
                    assert(self.members@[a] == before[a2]);
                    assert(self.members@[b] == before[b2]);
                }
            },
            None => {
                assert forall|m: Member| #[trigger]
                    self.members@.contains(m) implies m.id != id by {
                }
            },
        }
    }

    /// The current topic.
    pub fn get_topic(&self) -> (r: &String)
        ensures
            *r == self.topic,
    {
        &self.topic
    }

    /// Sets the topic.
    pub fn set_topic(&mut self, topic: String)
        ensures
            final(self).topic == topic,
            final(self).name == old(self).name,
            final(self).modes == old(self).modes,
            final(self).members == old(self).members,
            final(self).creation_time == old(self).creation_time,
    {
        self.topic = topic;
    }

    /// The identifiers of the members, in order.
    pub fn member_ids(&self) -> (r: Vec<u128>)
        ensures
            r@ == member_ids(self.members@),
    {
        let mut out: Vec<u128> = Vec::new();
        let mut i: usize = 0;
        while i < self.members.len()
            invariant
                i <= self.members@.len(),
                out@ == member_ids(self.members@.take(i as int)),
            decreases self.members.len() - i,
        {
            out.push(self.members[i].id);
            assert(member_ids(self.members@.take(i as int + 1)) =~= member_ids(
                self.members@.take(i as int),
            ).push(self.members@[i as int].id));
            i = i + 1;
        }
        assert(self.members@.take(self.members@.len() as int) =~= self.members@);
        out
    }

    /// The members with their best mode.
    pub fn member_list(&self) -> (r: Vec<Member>)
        ensures
            r@.len() == self.members@.len(),
            forall|i: int|
                0 <= i < r@.len() ==> (#[trigger] r@[i]).id == self.members@[i].id && r@[i].mode.op
                    == self.members@[i].mode.op && r@[i].mode.voice == (self.members@[i].mode.voice
                    && !self.members@[i].mode.op),
    {
        let mut out: Vec<Member> = Vec::new();
        let mut i: usize = 0;
        while i < self.members.len()
            invariant
                i <= self.members@.len(),
                out@.len() == i,
                forall|k: int|
                    0 <= k < i ==> (#[trigger] out@[k]).id == self.members@[k].id && out@[k].mode.op
                        == self.members@[k].mode.op && out@[k].mode.voice == (
                    self.members@[k].mode.voice && !self.members@[k].mode.op),
            decreases self.members.len() - i,
        {
            let m = self.members[i];
            out.push(Member { id: m.id, mode: m.mode.best_mode() });
            i = i + 1;
        }
        out
    }

    /// The membership modes of a member.
    pub open spec fn mode_of(&self, id: u128) -> Option<MembershipMode> {
        if self.has(id) {
            Some(
                self.members@[choose|i: int|
                    0 <= i < self.members@.len() && (#[trigger] self.members@[i]).id == id].mode,
            )
        } else {
            None
        }
    }

    proof fn lemma_mode_of(&self, i: int)
        requires
            self.wf(),
            0 <= i < self.members@.len(),
        ensures
            self.mode_of(self.members@[i].id) == Some(self.members@[i].mode),
    {
        let id = self.members@[i].id;
        assert(self.has(id));
        let j = choose|j: int| 0 <= j < self.members@.len() && (#[trigger] self.members@[j]).id == id;
        if j != i {
            assert(self.members@[i].id != self.members@[j].id);
        }
    }

    /// The membership modes of a member, or `None` for a non-member.
    pub fn member_mode(&self, id: u128) -> (r: Option<MembershipMode>)
        requires
            self.wf(),
        ensures
            r == self.mode_of(id),
    {
        match self.index_of_member(id) {
            Some(i) => {
                proof {
                    self.lemma_mode_of(i as int);
                }
                Some(self.members[i].mode)
            },
            None => None,
        }
    }

    /// Checks whether the member holds at least the given mode; `false` for a non-member.
    pub fn is_at_least(&self, id: u128, mode: MembershipMode) -> (r: bool)
        requires
            self.wf(),
        ensures
            r == (self.mode_of(id) matches Some(m) && crate::modes::membership_rank(m)
                >= crate::modes::membership_rank(mode)),
    {
        match self.member_mode(id) {
            Some(m) => m.is_at_least(&mode),
            None => false,
        }
    }

    /// Sets (`v` true) or clears the given membership flags of a member. Returns `false`,
    /// changing nothing, if the user is not a member.
    pub fn set_member_mode(&mut self, id: u128, flag: MembershipMode, v: bool) -> (r: bool)
        requires
            old(self).wf(),
        ensures
            final(self).wf(),
            r == old(self).has(id),
            !r ==> final(self).members == old(self).members,
            r ==> final(self).mode_of(id) == Some(
                MembershipMode {
                    voice: if flag.voice {
                        v
                    } else {
                        old(self).mode_of(id)->0.voice
                    },
                    op: if flag.op {
                        v
                    } else {
                        old(self).mode_of(id)->0.op
                    },
                },
            ),
            member_ids(final(self).members@) == member_ids(old(self).members@),
            forall|q: int| 0 <= q < old(self).members@.len() && (#[trigger] old(self).members@[q]).id != id
                ==> final(self).members@[q] == old(self).members@[q],
            final(self).name == old(self).name,
            final(self).topic == old(self).topic,
            final(self).modes == old(self).modes,
            final(self).creation_time == old(self).creation_time,
    {
        match self.index_of_member(id) {
            Some(i) => {
                proof {
                    self.lemma_mode_of(i as int);
                }
                let ghost before = self.members@;
                let old_m = self.members[i];
                let new_mode = MembershipMode {
                    voice: if flag.voice {
                        v
                    } else {
                        old_m.mode.voice
                    },
                    op: if flag.op {
                        v
                    } else {
                        old_m.mode.op
                    },
                };
                self.members.set(i, Member { id, mode: new_mode });
                assert(member_ids(self.members@) =~= member_ids(before));
                assert forall|a: int, b: int|
                    0 <= a < self.members@.len() && 0 <= b < self.members@.len() && a != b implies (
                    #[trigger] self.members@[a]).id != (#[trigger] self.members@[b]).id by {
                    assert(self.members@[a].id == before[a].id);
                    assert(self.members@[b].id == before[b].id);
                }
                proof {
                    self.lemma_mode_of(i as int);
                }
                true
            },
            None => false,
        }
    }

    /// Adds the given membership flags to a member; `false` if the user is not a member.
    pub fn add_mode_to(&mut self, id: u128, flag: MembershipMode) -> (r: bool)
        requires
            old(self).wf(),
        ensures
            final(self).wf(),
            r == old(self).has(id),
            member_ids(final(self).members@) == member_ids(old(self).members@),
            r ==> final(self).mode_of(id) == Some(
                MembershipMode {
                    voice: flag.voice || old(self).mode_of(id)->0.voice,
                    op: flag.op || old(self).mode_of(id)->0.op,
                },
            ),
    {
        self.set_member_mode(id, flag, true)
    }

    /// Removes the given membership flags from a member; `false` if the user is not a member.
    pub fn remove_mode_from(&mut self, id: u128, flag: MembershipMode) -> (r: bool)
        requires
            old(self).wf(),
        ensures
            final(self).wf(),
            r == old(self).has(id),
            member_ids(final(self).members@) == member_ids(old(self).members@),
            r ==> final(self).mode_of(id) == Some(
                MembershipMode {
                    voice: !flag.voice && old(self).mode_of(id)->0.voice,
                    op: !flag.op && old(self).mode_of(id)->0.op,
                },
            ),
    {
        self.set_member_mode(id, flag, false)
    }
}

/// `b` is `a` where user `id` may have joined channels: every channel of `a` keeps its
/// name, its members and its position, and any channel added at the end has `id` as sole
/// member.
pub open spec fn grows_by(a: Seq<Channel>, b: Seq<Channel>, id: u128) -> bool {
    &&& b.len() >= a.len()
    &&& forall|k: int|
        0 <= k < a.len() ==> {
            &&& (#[trigger] b[k]).key() == a[k].key()
            &&& b[k].name == a[k].name
            &&& b[k].topic == a[k].topic
            &&& b[k].modes == a[k].modes
            &&& b[k].members@.len() >= a[k].members@.len()
            &&& forall|x: u128| #[trigger] b[k].has(x) ==> x == id || a[k].has(x)
            &&& forall|x: u128| #[trigger] a[k].has(x) ==> b[k].has(x)
        }
    &&& forall|k: int|
        a.len() <= k < b.len() ==> (#[trigger] b[k]).members@ == seq![
            Member { id, mode: MembershipMode { voice: false, op: false } },
        ]
}

/// `b` is `a` where user `id` has left the channel with folded name `key`.
pub open spec fn parted(a: Seq<Channel>, b: Seq<Channel>, id: u128, key: Seq<char>) -> bool {
    &&& b.len() == a.len()
    &&& forall|k: int| 0 <= k < a.len() && (#[trigger] a[k]).key() != key ==> b[k] == a[k]
    &&& forall|k: int|
        0 <= k < a.len() && (#[trigger] a[k]).key() == key ==> {
            &&& b[k].key() == a[k].key()
            &&& b[k].name == a[k].name
            &&& b[k].topic == a[k].topic
            &&& b[k].modes == a[k].modes
            &&& forall|m: Member| #[trigger] b[k].members@.contains(m)
                <==> a[k].members@.contains(m) && m.id != id
        }
}

/// `b` is `a` without the channel with folded name `key` if that channel is empty
/// (`r`), and `a` itself otherwise.
pub open spec fn destroyed(a: Seq<Channel>, b: Seq<Channel>, key: Seq<char>, r: bool) -> bool {
    &&& r == exists|k: int| 0 <= k < a.len() && (#[trigger] a[k]).key() == key && a[k].members@.len() == 0
    &&& r ==> exists|k: int| 0 <= k < a.len() && (#[trigger] a[k]).key() == key && b == a.remove(k)
    &&& !r ==> b == a
}

/// `b` is `a` with a new channel named `name` at the end, whose sole member is `id`.
pub open spec fn joined_fresh(a: Seq<Channel>, b: Seq<Channel>, id: u128, name: Seq<char>) -> bool {
    &&& b.len() == a.len() + 1
    &&& b.drop_last() == a
    &&& b.last().name@ == name
    &&& b.last().members@ == seq![Member { id, mode: MembershipMode { voice: false, op: false } }]
}

/// Channel `c` has the name of `o` and only members that `o` has.
pub open spec fn derived_from(c: Channel, o: Channel) -> bool {
    &&& c.key() == o.key()
    &&& forall|m: Member| #[trigger] c.members@.contains(m) ==> o.members@.contains(m)
}

/// Channel `c` is derived from one of the channels `os`.
pub open spec fn derived_in(c: Channel, os: Seq<Channel>) -> bool {
    exists|k: int| 0 <= k < os.len() && derived_from(c, #[trigger] os[k])
}

/// The channels of `b` are those of `a`, with the same names and members (their modes
/// aside), at the same positions.
pub open spec fn same_members(a: Seq<Channel>, b: Seq<Channel>) -> bool {
    &&& a.len() == b.len()
    &&& forall|k: int|
        0 <= k < a.len() ==> {
            &&& (#[trigger] b[k]).name == a[k].name
            &&& member_ids(b[k].members@) == member_ids(a[k].members@)
        }
}

/// The registry of channels.
pub struct ChannelManager {
    pub chans: Vec<Channel>,
}

impl ChannelManager {
    /// Each channel is well formed, and folded names are unique.
    pub open spec fn wf(&self) -> bool {
        &&& forall|i: int| 0 <= i < self.chans@.len() ==> (#[trigger] self.chans@[i]).wf()
        &&& forall|i: int, j: int|
            0 <= i < self.chans@.len() && 0 <= j < self.chans@.len() && i != j ==> (
            #[trigger] self.chans@[i]).key() != (#[trigger] self.chans@[j]).key()
    }

    pub open spec fn has_key(&self, key: Seq<char>) -> bool {
        exists|i: int| 0 <= i < self.chans@.len() && (#[trigger] self.chans@[i]).key() == key
    }

    /// Whether the user is a member of the channel with this folded name.
    pub open spec fn is_member(&self, key: Seq<char>, id: u128) -> bool {
        exists|i: int|
            0 <= i < self.chans@.len() && (#[trigger] self.chans@[i]).key() == key
                && self.chans@[i].has(id)
    }

    /// The registry with no channel.
    pub fn new() -> (r: ChannelManager)
        ensures
            r.wf(),
            r.chans@.len() == 0,
    {
        ChannelManager { chans: Vec::new() }
    }

    /// Position of the channel whose name folds like `name`.
    pub fn index_of(&self, name: &str) -> (r: Option<usize>)
        ensures
            r matches Some(i) ==> i < self.chans@.len() && self.chans@[i as int].key() == fold(
                name@,
            ),
            r is None ==> !self.has_key(fold(name@)),
    {
        let key = label_to_lower(name);
        let mut i: usize = 0;
        while i < self.chans.len()
            invariant
                i <= self.chans@.len(),
                key@ == fold(name@),
                forall|k: int| 0 <= k < i ==> (#[trigger] self.chans@[k]).key() != key@,
            decreases self.chans.len() - i,
        {
            let k = label_to_lower(self.chans[i].name.as_str());
            if k == key {
                return Some(i);
            }
            i = i + 1;
        }
        None
    }

    /// Returns `true` if the channel exists.
    pub fn has_chan(&self, name: &str) -> (r: bool)
        ensures
            r == self.has_key(fold(name@)),
    {
        self.index_of(name).is_some()
    }

    /// The channel whose name folds like `name`.
    pub fn chan_handle(&self, name: &str) -> (r: Option<&Channel>)
        ensures
            r matches Some(c) ==> c.key() == fold(name@) && self.chans@.contains(*c),
            r is None ==> !self.has_key(fold(name@)),
    {
        match self.index_of(name) {
            Some(i) => Some(&self.chans[i]),
            None => None,
        }
    }

    /// Returns `true` if the user is in the channel.
    pub fn is_in_chan(&self, id: u128, name: &str) -> (r: bool)
        requires
            self.wf(),
        ensures
            r == self.is_member(fold(name@), id),
    {
        match self.index_of(name) {
            Some(i) => {
                let r = self.chans[i].has_member(id);
                proof {
                    if !r {
                        assert forall|j: int|
                            0 <= j < self.chans@.len() && (#[trigger] self.chans@[j]).key() == fold(
                                name@,
                            ) implies !self.chans@[j].has(id) by {
                            if j != i as int {
                                assert(self.chans@[j].key() != self.chans@[i as int].key());
                            }
                        }
                    }
                }
                r
            },
            None => false,
        }
    }

    proof fn lemma_replace_keeps_wf(&self, old_chans: Seq<Channel>, i: int)
        requires
            0 <= i < old_chans.len(),
            self.chans@ == old_chans.update(i, self.chans@[i]),
            self.chans@[i].wf(),
            self.chans@[i].key() == old_chans[i].key(),
            forall|k: int| 0 <= k < old_chans.len() ==> (#[trigger] old_chans[k]).wf(),
            forall|a: int, b: int|
                0 <= a < old_chans.len() && 0 <= b < old_chans.len() && a != b ==> (
                #[trigger] old_chans[a]).key() != (#[trigger] old_chans[b]).key(),
        ensures
            self.wf(),
    {
        assert forall|a: int, b: int|
            0 <= a < self.chans@.len() && 0 <= b < self.chans@.len() && a != b implies (
            #[trigger] self.chans@[a]).key() != (#[trigger] self.chans@[b]).key() by {
            assert(self.chans@[a].key() == old_chans[a].key());
            assert(self.chans@[b].key() == old_chans[b].key());
        }
    }

    /// Adds the user to the channel at position `i`.
    fn join_at(&mut self, id: u128, i: usize)
        requires
            old(self).wf(),
            i < old(self).chans@.len(),
        ensures
            final(self).wf(),
            final(self).chans@.len() == old(self).chans@.len(),
            final(self).chans@[i as int].has(id),
            final(self).chans@[i as int].key() == old(self).chans@[i as int].key(),
            final(self).chans@[i as int].name == old(self).chans@[i as int].name,
            final(self).chans@[i as int].creation_time == old(self).chans@[i as int].creation_time,
            forall|m: Member|
                old(self).chans@[i as int].members@.contains(m) ==> #[trigger] final(self).chans@[i as int].members@.contains(m),
            forall|x: u128| #[trigger] final(self).chans@[i as int].has(x) ==> x == id || old(self).chans@[i as int].has(x),
            forall|k: int| 0 <= k < old(self).chans@.len() && k != i ==> #[trigger] final(self).chans@[k] == old(self).chans@[k],
            grows_by(old(self).chans@, final(self).chans@, id),
            old(self).chans@[i as int].has(id) ==> final(self).chans@ == old(self).chans@,
    {
        let ghost before = self.chans@;
        let mut c = self.chans.remove(i);
        let ghost oc = c;
        c.join(id);
        proof {
            assert forall|m: Member| oc.members@.contains(m) implies #[trigger] c.members@.contains(m) by {
                if !oc.has(id) {
                    let k = choose|k: int| 0 <= k < oc.members@.len() && oc.members@[k] == m;
                    assert(c.members@[k] == m);
                }
            }
            assert forall|x: u128| #[trigger] c.has(x) implies x == id || oc.has(x) by {
                if !oc.has(id) {
                    let k = choose|k: int| 0 <= k < c.members@.len() && c.members@[k].id == x;
                    if k < oc.members@.len() {
                        assert(oc.members@[k].id == x);
                    }
                }
            }
        }
        self.chans.insert(i, c);
        assert(self.chans@ =~= before.update(i as int, c));
        proof {
            self.lemma_replace_keeps_wf(before, i as int);
            assert forall|x: u128| #[trigger] oc.has(x) implies c.has(x) by {
                let k = choose|k: int| 0 <= k < oc.members@.len() && oc.members@[k].id == x;
                assert(oc.members@.contains(oc.members@[k]));
                assert(c.members@.contains(oc.members@[k]));
            }
            assert(c.members@.len() >= oc.members@.len());
            if oc.has(id) {
                assert(before[i as int] == oc);
                assert(self.chans@ =~= before);
            }
        }
    }

    /// Adds the user to an existing channel; does nothing if already in. Returns `false`,
    /// changing nothing, if the channel does not exist.
    pub fn join(&mut self, id: u128, name: &str) -> (r: bool)
        requires
            old(self).wf(),
        ensures
            final(self).wf(),
            r == old(self).has_key(fold(name@)),
            !r ==> final(self).chans@ == old(self).chans@,
            r ==> final(self).is_member(fold(name@), id),
            final(self).chans@.len() == old(self).chans@.len(),
            grows_by(old(self).chans@, final(self).chans@, id),
    {
        match self.index_of(name) {
            Some(i) => {
                self.join_at(id, i);
                assert(self.chans@[i as int].key() == fold(name@));
                true
            },
            None => {
                assert(grows_by(self.chans@, self.chans@, id));
                false
            },
        }
    }

    /// Adds the user to the channel, creating it (with the current time as creation time)
    /// if it does not exist. Does nothing if the user is already in.
    /// Returns whether the channel was created.
    pub fn join_create(&mut self, id: u128, name: &str) -> (r: bool)
        requires
            old(self).wf(),
        ensures
            final(self).wf(),
            final(self).is_member(fold(name@), id),
            r == !old(self).has_key(fold(name@)),
            r ==> joined_fresh(old(self).chans@, final(self).chans@, id, name@),
            r ==> final(self).chans@.len() == old(self).chans@.len() + 1
                && final(self).chans@.drop_last() == old(self).chans@
                && final(self).chans@.last().name@ == name@
                && final(self).chans@.last().members@ == seq![Member { id, mode: MembershipMode { voice: false, op: false } }]
                && final(self).chans@.last().topic@.len() == 0
                && final(self).chans@.last().modes@ == Seq::new(52, |i: int| false),
            !r ==> final(self).chans@.len() == old(self).chans@.len(),
            grows_by(old(self).chans@, final(self).chans@, id),
            old(self).is_member(fold(name@), id) ==> final(self).chans@ == old(self).chans@,
    {
        match self.index_of(name) {
            Some(i) => {
                proof {
                    if self.is_member(fold(name@), id) {
                        let q = choose|q: int| 0 <= q < self.chans@.len() && (#[trigger] self.chans@[q]).key() == fold(name@) && self.chans@[q].has(id);
                        if q != i as int {
                            assert(self.chans@[q].key() != self.chans@[i as int].key());
                        }
                    }
                }
                self.join_at(id, i);
                assert(self.chans@[i as int].key() == fold(name@));
                false
            },
            None => {
                let mut c = Channel::new(name.to_owned(), unix_time());
                c.join(id);
                assert(c.members@ =~= seq![Member { id, mode: MembershipMode { voice: false, op: false } }]);
                let ghost before = self.chans@;
                self.chans.push(c);
                assert(self.chans@.drop_last() =~= before);
                assert(self.chans@[before.len() as int].key() == fold(name@));
                assert forall|a: int, b: int|
                    0 <= a < self.chans@.len() && 0 <= b < self.chans@.len() && a != b implies (
                    #[trigger] self.chans@[a]).key() != (#[trigger] self.chans@[b]).key() by {
                    if a < before.len() && b < before.len() {
                        assert(self.chans@[a] == before[a] && self.chans@[b] == before[b]);
                    } else if a < before.len() {
                        assert(self.chans@[a] == before[a]);
                    } else {
                        assert(self.chans@[b] == before[b]);
                    }
                }
                assert forall|k: int| 0 <= k < before.len() implies #[trigger] self.chans@[k] == before[k] by {}
                true
            },
        }
    }

    /// Parts the user from the channel. Returns `true` if the channel is empty afterwards.
    pub fn part(&mut self, id: u128, name: &str) -> (r: bool)
        requires
            old(self).wf(),
        ensures
            final(self).wf(),
            final(self).chans@.len() == old(self).chans@.len(),
            !final(self).is_member(fold(name@), id),
            !old(self).has_key(fold(name@)) ==> final(self).chans@ == old(self).chans@ && !r,
            forall|k: int|
                0 <= k < old(self).chans@.len() && (#[trigger] old(self).chans@[k]).key() != fold(name@)
                    ==> final(self).chans@[k] == old(self).chans@[k],
            parted(old(self).chans@, final(self).chans@, id, fold(name@)),
            forall|k: int|
                0 <= k < old(self).chans@.len() && (#[trigger] old(self).chans@[k]).key() == fold(name@)
                    ==> (r == (final(self).chans@[k].members@.len() == 0))
                    && final(self).chans@[k].key() == old(self).chans@[k].key()
                    && (forall|m: Member| #[trigger] final(self).chans@[k].members@.contains(m)
                        <==> old(self).chans@[k].members@.contains(m) && m.id != id),
    {
        match self.index_of(name) {
            Some(i) => {
                let ghost before = self.chans@;
                let mut c = self.chans.remove(i);
                c.part(id);
                let empty = c.is_empty();
                self.chans.insert(i, c);
                assert(self.chans@ =~= before.update(i as int, c));
                proof {
                    self.lemma_replace_keeps_wf(before, i as int);
                    assert forall|k: int|
                        0 <= k < self.chans@.len() && (#[trigger] self.chans@[k]).key() == fold(name@)
                            implies !self.chans@[k].has(id) by {
                        if k != i as int {
                            assert(before[k].key() != before[i as int].key());
                        }
                    }
                    assert forall|k: int|
                        0 <= k < before.len() && (#[trigger] before[k]).key() == fold(name@)
                            implies k == i as int by {
                        if k != i as int {
                            assert(before[k].key() != before[i as int].key());
                        }
                    }
                }
                empty
            },
            None => {
                false
            },
        }
    }

    /// Destroys the channel if it exists and is empty, returning `true`; returns `false`
    /// otherwise.
    pub fn destroy_if_empty(&mut self, name: &str) -> (r: bool)
        requires
            old(self).wf(),
        ensures
            final(self).wf(),
            r == exists|k: int| 0 <= k < old(self).chans@.len() && (#[trigger] old(self).chans@[k]).key()
                == fold(name@) && old(self).chans@[k].members@.len() == 0,
            r ==> !final(self).has_key(fold(name@)),
            !r ==> final(self).chans@ == old(self).chans@,
            forall|c: Channel| #[trigger] final(self).chans@.contains(c) <==> old(self).chans@.contains(c) && (c.key() != fold(name@) || !r),
            destroyed(old(self).chans@, final(self).chans@, fold(name@), r),
    {
        match self.index_of(name) {
            Some(i) => {
                if self.chans[i].is_empty() {
                    let ghost before = self.chans@;
                    self.chans.remove(i);
                    assert(self.chans@ =~= before.remove(i as int));
                    proof {
                        assert forall|k: int| 0 <= k < before.len() && k != i as int implies (#[trigger] before[k]).key() != fold(name@) by {
                            assert(before[k].key() != before[i as int].key());
                        }
                        assert forall|c: Channel| #[trigger] self.chans@.contains(c) <==> before.contains(c) && c.key() != fold(name@) by {
                            if self.chans@.contains(c) {
                                let k = choose|k: int| 0 <= k < self.chans@.len() && self.chans@[k] == c;
                                let k2 = if k < i { k } else { k + 1 };
                                assert(before[k2] == c);
                            }
                            if before.contains(c) && c.key() != fold(name@) {
                                let k = choose|k: int| 0 <= k < before.len() && before[k] == c;
                                assert(k != i as int);
                                let k2 = if k < i { k } else { k - 1 };
                                assert(self.chans@[k2] == c);
                            }
                        }
                        assert forall|a: int, b: int|
                            0 <= a < self.chans@.len() && 0 <= b < self.chans@.len() && a != b implies (
                            #[trigger] self.chans@[a]).key() != (#[trigger] self.chans@[b]).key() by {
                            let a2 = if a < i { a } else { a + 1 };
                            let b2 = if b < i { b } else { b + 1 };
                            assert(self.chans@[a] == before[a2]);
                            assert(self.chans@[b] == before[b2]);
                        }
                        assert forall|k: int| 0 <= k < self.chans@.len() implies (#[trigger] self.chans@[k]).key() != fold(name@) by {
                            assert(self.chans@.contains(self.chans@[k]));
                        }
                    }
                    assert(before[i as int].key() == fold(name@) && before[i as int].members@.len() == 0);
                    true
                } else {
                    proof {
                        assert forall|k: int| 0 <= k < self.chans@.len() && (#[trigger] self.chans@[k]).key() == fold(name@)
                            implies self.chans@[k].members@.len() != 0 by {
                            if k != i as int {
                                assert(self.chans@[k].key() != self.chans@[i as int].key());
                            }
                        }
                    }
                    false
                }
            },
            None => false,
        }
    }

    /// Sets the topic of channel `i`.
    pub fn set_topic_at(&mut self, i: usize, topic: String)
        requires
            old(self).wf(),
            i < old(self).chans@.len(),
        ensures
            final(self).wf(),
            same_members(old(self).chans@, final(self).chans@),
            final(self).chans@[i as int].topic == topic,
            final(self).chans@[i as int].modes == old(self).chans@[i as int].modes,
            forall|k: int| 0 <= k < old(self).chans@.len() && k != i ==> #[trigger] final(self).chans@[k] == old(self).chans@[k],
    {
        let ghost before = self.chans@;
        let mut c = self.chans.remove(i);
        c.set_topic(topic);
        self.chans.insert(i, c);
        assert(self.chans@ =~= before.update(i as int, c));
        proof {
            self.lemma_replace_keeps_wf(before, i as int);
        }
    }

    /// Sets or clears a mode flag of channel `i`.
    pub fn set_mode_at(&mut self, i: usize, flag: char, v: bool)
        requires
            old(self).wf(),
            i < old(self).chans@.len(),
        ensures
            final(self).wf(),
            same_members(old(self).chans@, final(self).chans@),
            crate::modes::slot_of(flag) matches Some(k) ==> final(self).chans@[i as int].modes@ == old(self).chans@[i as int].modes@.update(k, v),
            crate::modes::slot_of(flag) is None ==> final(self).chans@[i as int].modes@ == old(self).chans@[i as int].modes@,
            final(self).chans@[i as int].topic == old(self).chans@[i as int].topic,
            final(self).chans@[i as int].members == old(self).chans@[i as int].members,
            forall|k: int| 0 <= k < old(self).chans@.len() && k != i ==> #[trigger] final(self).chans@[k] == old(self).chans@[k],
    {
        let ghost before = self.chans@;
        let mut c = self.chans.remove(i);
        c.modes.set(flag, v);
        self.chans.insert(i, c);
        assert(self.chans@ =~= before.update(i as int, c));
        proof {
            self.lemma_replace_keeps_wf(before, i as int);
        }
    }

    /// Sets or clears membership flags of user `id` in channel `i`; `false`, changing
    /// nothing, if the user is not a member.
    pub fn set_member_mode_at(&mut self, i: usize, id: u128, flag: MembershipMode, v: bool) -> (r: bool)
        requires
            old(self).wf(),
            i < old(self).chans@.len(),
        ensures
            final(self).wf(),
            same_members(old(self).chans@, final(self).chans@),
            r == old(self).chans@[i as int].has(id),
            final(self).chans@[i as int].modes == old(self).chans@[i as int].modes,
            forall|k: int| 0 <= k < old(self).chans@.len() && k != i ==> #[trigger] final(self).chans@[k] == old(self).chans@[k],
            forall|q: int| 0 <= q < old(self).chans@[i as int].members@.len() && (#[trigger] old(self).chans@[i as int].members@[q]).id != id
                ==> final(self).chans@[i as int].members@[q] == old(self).chans@[i as int].members@[q],
    {
        let ghost before = self.chans@;
        let mut c = self.chans.remove(i);
        let r = c.set_member_mode(id, flag, v);
        self.chans.insert(i, c);
        assert(self.chans@ =~= before.update(i as int, c));
        proof {
            self.lemma_replace_keeps_wf(before, i as int);
        }
        r
    }

    /// Parts the user from every channel, destroying the channels left empty.
    /// Returns the names of the destroyed channels.
    pub fn quit(&mut self, id: u128) -> (r: Vec<String>)
        requires
            old(self).wf(),
        ensures
            final(self).wf(),
            forall|i: int| 0 <= i < final(self).chans@.len() ==> !(#[trigger] final(self).chans@[i]).has(id),
            forall|i: int| 0 <= i < final(self).chans@.len() ==> (#[trigger] final(self).chans@[i]).members@.len() > 0,
            forall|i: int| 0 <= i < final(self).chans@.len() ==> #[trigger] derived_in(final(self).chans@[i], old(self).chans@),
    {
        let ghost orig = self.chans@;
        let mut out: Vec<Channel> = Vec::new();
        let mut emptied: Vec<String> = Vec::new();
        let ghost mut src: Seq<int> = Seq::empty();
        let mut k: usize = 0;
        let n = self.chans.len();
        while self.chans.len() > 0
            invariant
                k + self.chans@.len() == n,
                n == orig.len(),
                orig == old(self).chans@,
                self.chans@ == orig.skip(k as int),
                forall|i: int| 0 <= i < orig.len() ==> (#[trigger] orig[i]).wf(),
                forall|a: int, b: int|
                    0 <= a < orig.len() && 0 <= b < orig.len() && a != b ==> (#[trigger] orig[a]).key() != (#[trigger] orig[b]).key(),
                src.len() == out@.len(),
                forall|j: int| 0 <= j < src.len() ==> 0 <= #[trigger] src[j] < k,
                forall|a: int, b: int| 0 <= a < b < src.len() ==> #[trigger] src[a] < #[trigger] src[b],
                forall|j: int| 0 <= j < out@.len() ==> {
                    &&& (#[trigger] out@[j]).wf()
                    &&& out@[j].key() == orig[src[j]].key()
                    &&& !out@[j].has(id)
                    &&& out@[j].members@.len() > 0
                    &&& forall|m: Member| #[trigger] out@[j].members@.contains(m) ==> orig[src[j]].members@.contains(m)
                },
            decreases self.chans@.len(),
        {
            assert(self.chans@[0] == orig[k as int]);
            let mut c = self.chans.remove(0);
            assert(self.chans@ =~= orig.skip(k as int + 1));
            c.part(id);
            if c.is_empty() {
                emptied.push(c.name.clone());
            } else {
                out.push(c);
                proof {
                    src = src.push(k as int);
                }
            }
            k = k + 1;
        }
        self.chans = out;
        proof {
            assert forall|a: int, b: int|
                0 <= a < self.chans@.len() && 0 <= b < self.chans@.len() && a != b implies (
                #[trigger] self.chans@[a]).key() != (#[trigger] self.chans@[b]).key() by {
                if a < b {
                    assert(src[a] < src[b]);
                } else {
                    assert(src[b] < src[a]);
                }
            }
            assert forall|i: int| 0 <= i < self.chans@.len() implies #[trigger] derived_in(self.chans@[i], old(self).chans@) by {
                let q = src[i];
                assert(out@[i] == self.chans@[i]);
                assert(forall|m: Member| #[trigger] out@[i].members@.contains(m) ==> orig[src[i]].members@.contains(m));
                assert(derived_from(self.chans@[i], old(self).chans@[q]));
            }
        }
        emptied
    }

    /// The members of the channel with their best mode; empty if it does not exist.
    pub fn member_list(&self, name: &str) -> (r: Vec<Member>)
        ensures
            self.has_key(fold(name@)) ==> exists|k: int| 0 <= k < self.chans@.len() && (#[trigger] self.chans@[k]).key() == fold(name@)
                && r@.len() == self.chans@[k].members@.len()
                && forall|i: int| 0 <= i < r@.len() ==> (#[trigger] r@[i]).id == self.chans@[k].members@[i].id
                    && r@[i].mode.op == self.chans@[k].members@[i].mode.op
                    && r@[i].mode.voice == (self.chans@[k].members@[i].mode.voice && !self.chans@[k].members@[i].mode.op),
            !self.has_key(fold(name@)) ==> r@.len() == 0,
    {
        match self.index_of(name) {
            Some(i) => self.chans[i].member_list(),
            None => Vec::new(),
        }
    }
}

/// A user joining a channel that did not exist, then parting it, leaves the channel
/// registry as it was before the join: the emptied channel is destroyed.
pub proof fn lemma_join_then_part_restores(
    c0: Seq<Channel>,
    c1: Seq<Channel>,
    c2: Seq<Channel>,
    c3: Seq<Channel>,
    id: u128,
    name: Seq<char>,
    destroyed_flag: bool,
)
    requires
        forall|i: int, j: int|
            0 <= i < c1.len() && 0 <= j < c1.len() && i != j ==> (#[trigger] c1[i]).key() != (
            #[trigger] c1[j]).key(),
        joined_fresh(c0, c1, id, name),
        parted(c1, c2, id, fold(name)),
        destroyed(c2, c3, fold(name), destroyed_flag),
    ensures
        destroyed_flag,
        c3 == c0,
{
    let n = c0.len() as int;
    assert(c1[n] == c1.last());
    assert(c1[n].key() == fold(name));
    assert(c2[n].members@.len() == 0) by {
        if c2[n].members@.len() > 0 {
            let m = c2[n].members@[0];
            assert(c2[n].members@.contains(m));
            assert(c1[n].members@.contains(m) && m.id != id);
            let j = choose|j: int| 0 <= j < c1[n].members@.len() && c1[n].members@[j] == m;
            assert(c1[n].members@[j].id == id);
        }
    }
    assert(c2[n].key() == fold(name));
    assert(destroyed_flag);
    let k = choose|k: int| 0 <= k < c2.len() && (#[trigger] c2[k]).key() == fold(name) && c3 == c2.remove(k);
    assert forall|j: int| 0 <= j < n implies (#[trigger] c1[j]).key() != fold(name) by {
        assert(c1[j].key() != c1[n].key());
    }
    if k != n {
        assert(c1[k].key() != fold(name));
    }
    assert forall|j: int| 0 <= j < n implies #[trigger] c2[j] == c0[j] by {
        assert(c1[j].key() != fold(name));
        assert(c1[j] == c1.drop_last()[j]);
    }
    assert(c3 =~= c0);
}

} // verus!
