//! The recycler's operations: nickname changes and the destruction of users, the
//! mutations that need exclusive access to the user registry.
use vstd::prelude::*;
use crate::channels::{derived_in, derived_from, Member};
use crate::messages::{IRCMessage, MsgView};
use crate::numericreply::NumericReply;
use crate::server::{RecyclingAction, ServerData, queues_pushed, share_channel};
use crate::users::nick_key;
use crate::util::fold;

verus! {

/// Some member among the first `j` has identifier `y`.
pub open spec fn id_in_prefix(ms: Seq<Member>, j: int, y: u128) -> bool {
    exists|q: int| 0 <= q < j && (#[trigger] ms[q]).id == y
}

/// The NICK message from `from` announcing the nickname `n`.
pub open spec fn nick_view(from: Seq<char>, n: Seq<char>) -> MsgView {
    MsgView { prefix: Some(from), command: "NICK"@, args: seq![n], suffix: None }
}

impl ServerData {
    /// The users that share a channel with user `id`, each once.
    pub fn known_by_uuid(&self, id: u128) -> (r: Vec<u128>)
        requires
            self.inv(),
        ensures
            forall|a: int, b: int| 0 <= a < r@.len() && 0 <= b < r@.len() && a != b ==> r@[a] != r@[b],
            forall|x: u128| r@.contains(x) <==> share_channel(self.channels.chans@, id, x),
    {
        let chans = &self.channels.chans;
        let mut out: Vec<u128> = Vec::new();
        let mut i: usize = 0;
        while i < chans.len()
            invariant
                i <= chans@.len(),
                chans == &self.channels.chans,
                forall|a: int, b: int| 0 <= a < out@.len() && 0 <= b < out@.len() && a != b ==> out@[a] != out@[b],
                forall|x: u128| #![trigger out@.contains(x)] #![trigger share_channel(chans@.take(i as int), id, x)] out@.contains(x) <==> share_channel(chans@.take(i as int), id, x),
            decreases chans.len() - i,
        {
            let c = &chans[i];
            let ghost prev = chans@.take(i as int);
            let ghost next = chans@.take(i as int + 1);
            assert forall|x: u128| share_channel(next, id, x) <==> share_channel(prev, id, x) || (c.has(id) && c.has(x)) by {
                if share_channel(next, id, x) {
                    let q = choose|q: int| 0 <= q < next.len() && (#[trigger] next[q]).has(id) && next[q].has(x);
                    if q < i {
                        assert(prev[q] == next[q]);
                    }
                }
                if share_channel(prev, id, x) {
                    let q = choose|q: int| 0 <= q < prev.len() && (#[trigger] prev[q]).has(id) && prev[q].has(x);
                    assert(next[q] == prev[q]);
                }
                if c.has(id) && c.has(x) {
                    assert(next[i as int] == *c);
                }
            }
            if c.has_member(id) {
                let mut j: usize = 0;
                while j < c.members.len()
                    invariant
                        j <= c.members@.len(),
                        c.has(id),
                        forall|a: int, b: int| 0 <= a < out@.len() && 0 <= b < out@.len() && a != b ==> out@[a] != out@[b],
                        forall|x: u128| #![trigger out@.contains(x)] #![trigger id_in_prefix(c.members@, j as int, x)] out@.contains(x) <==> share_channel(prev, id, x) || id_in_prefix(c.members@, j as int, x),
                    decreases c.members.len() - j,
                {
                    let x = c.members[j].id;
                    let ghost o0 = out@;
                    let mut found = false;
                    let mut q: usize = 0;
                    while q < out.len()
                        invariant
                            q <= out@.len(),
                            found == exists|t: int| 0 <= t < q && out@[t] == x,
                        decreases out.len() - q,
                    {
                        if out[q] == x {
                            found = true;
                        }
                        q = q + 1;
                    }
                    proof {
                        if found {
                            let t = choose|t: int| 0 <= t < q && out@[t] == x;
                            assert(out@.contains(x));
                            assert(out@ == o0);
                            assert forall|y: u128| #[trigger] out@.contains(y) <==> o0.contains(y) || y == x by {}
                        }
                    }
                    if !found {
                        let ghost before = out@;
                        assert(before == o0);
                        out.push(x);
                        proof {
                            assert forall|a: int, b: int| 0 <= a < out@.len() && 0 <= b < out@.len() && a != b implies out@[a] != out@[b] by {
                                if a == before.len() as int {
                                    assert(!before.contains(x));
                                } else if b == before.len() as int {
                                    assert(!before.contains(x));
                                    assert(before[a] == out@[a]);
                                }
                            }
                            assert forall|y: u128| out@.contains(y) <==> before.contains(y) || y == x by {
                                if out@.contains(y) {
                                    let t = choose|t: int| 0 <= t < out@.len() && out@[t] == y;
                                    if t < before.len() {
                                        assert(before[t] == y);
                                    }
                                }
                                if before.contains(y) {
                                    let t = choose|t: int| 0 <= t < before.len() && before[t] == y;
                                    assert(out@[t] == y);
                                }
                                if y == x {
                                    assert(out@[before.len() as int] == x);
                                }
                            }
                        }
                    }
                    proof {
                        assert(out@ == if found { o0 } else { o0.push(x) });
                        assert forall|y: u128| #[trigger] out@.contains(y) <==> o0.contains(y) || y == x by {
                            if found {
                                let t = choose|t: int| 0 <= t < o0.len() && o0[t] == x;
                                assert(o0.contains(x));
                            } else {
                                if out@.contains(y) {
                                    let t = choose|t: int| 0 <= t < out@.len() && out@[t] == y;
                                    if t < o0.len() {
                                        assert(o0[t] == y);
                                    }
                                }
                                if o0.contains(y) {
                                    let t = choose|t: int| 0 <= t < o0.len() && o0[t] == y;
                                    assert(out@[t] == y);
                                }
                                if y == x {
                                    assert(out@[o0.len() as int] == x);
                                }
                            }
                        }
                        assert forall|y: u128| #[trigger] id_in_prefix(c.members@, j as int + 1, y)
                            <==> id_in_prefix(c.members@, j as int, y) || y == x by {
                            if y == x {
                                assert(c.members@[j as int].id == x);
                            }
                            if id_in_prefix(c.members@, j as int + 1, y) {
                                let q = choose|q: int| 0 <= q < j + 1 && (#[trigger] c.members@[q]).id == y;
                                if q < j {
                                    assert(id_in_prefix(c.members@, j as int, y));
                                }
                            }
                        }
                        assert forall|y: u128| #![trigger out@.contains(y)] out@.contains(y) <==> share_channel(prev, id, y) || id_in_prefix(c.members@, j as int + 1, y) by {
                            assert(o0.contains(y) <==> share_channel(prev, id, y) || id_in_prefix(c.members@, j as int, y));
                            assert(id_in_prefix(c.members@, j as int + 1, y) <==> id_in_prefix(c.members@, j as int, y) || y == x);
                        }
                    }
                    j = j + 1;
                }
                proof {
                    assert forall|x: u128| c.has(x) <==> #[trigger] id_in_prefix(c.members@, c.members@.len() as int, x) by {}
                }
            }
            i = i + 1;
        }
        assert(chans@.take(chans@.len() as int) =~= chans@);
        out
    }

    /// The folded names of the channels that user `id` is in: the user's side of the
    /// membership relation, which holds a channel's folded name exactly when the channel
    /// holds the user.
    pub fn channels_of(&self, id: u128) -> (r: Vec<String>)
        requires
            self.inv(),
        ensures
            forall|i: int| 0 <= i < self.channels.chans@.len() ==> (crate::messages::strings_view(r@).contains(
                (#[trigger] self.channels.chans@[i]).key()) <==> self.channels.chans@[i].has(id)),
    {
        let chans = &self.channels.chans;
        let mut out: Vec<String> = Vec::new();
        let mut i: usize = 0;
        while i < chans.len()
            invariant
                i <= chans@.len(),
                chans == &self.channels.chans,
                self.inv(),
                forall|k: Seq<char>| #[trigger] crate::messages::strings_view(out@).contains(k) <==> exists|j: int|
                    0 <= j < i && (#[trigger] chans@[j]).key() == k && chans@[j].has(id),
            decreases chans.len() - i,
        {
            let c = &chans[i];
            let ghost before = crate::messages::strings_view(out@);
            if c.has_member(id) {
                let key = crate::util::label_to_lower(c.name.as_str());
                out.push(key);
                proof {
                    let after = crate::messages::strings_view(out@);
                    assert(after =~= before.push(c.key()));
                    assert forall|k: Seq<char>| #[trigger] after.contains(k) <==> exists|j: int|
                        0 <= j < i + 1 && (#[trigger] chans@[j]).key() == k && chans@[j].has(id) by {
                        if after.contains(k) {
                            let t = choose|t: int| 0 <= t < after.len() && after[t] == k;
                            if t == before.len() {
                                assert(chans@[i as int].key() == k);
                            } else {
                                assert(before[t] == k);
                                assert(before.contains(k));
                            }
                        }
                        if exists|j: int| 0 <= j < i + 1 && (#[trigger] chans@[j]).key() == k && chans@[j].has(id) {
                            let j = choose|j: int| 0 <= j < i + 1 && (#[trigger] chans@[j]).key() == k && chans@[j].has(id);
                            if j < i {
                                assert(before.contains(k));
                                let t = choose|t: int| 0 <= t < before.len() && before[t] == k;
                                assert(after[t] == k);
                            } else {
                                assert(after[before.len() as int] == k);
                            }
                        }
                    }
                }
            } else {
                proof {
                    assert forall|k: Seq<char>| #[trigger] before.contains(k) <==> exists|j: int|
                        0 <= j < i + 1 && (#[trigger] chans@[j]).key() == k && chans@[j].has(id) by {
                        if exists|j: int| 0 <= j < i + 1 && (#[trigger] chans@[j]).key() == k && chans@[j].has(id) {
                            let j = choose|j: int| 0 <= j < i + 1 && (#[trigger] chans@[j]).key() == k && chans@[j].has(id);
                            assert(j != i);
                        }
                    }
                }
            }
            i = i + 1;
        }
        proof {
            let v = crate::messages::strings_view(out@);
            assert forall|i: int| 0 <= i < chans@.len() implies (v.contains(
                (#[trigger] chans@[i]).key()) <==> chans@[i].has(id)) by {
                if v.contains(chans@[i].key()) {
                    let j = choose|j: int| 0 <= j < chans@.len() && (#[trigger] chans@[j]).key() == chans@[i].key() && chans@[j].has(id);
                    if j != i {
                        assert(chans@[j].key() != chans@[i].key());
                    }
                }
            }
        }
        out
    }

    /// Performs a recycling action on user `id`. For a nickname change: when the folded
    /// new nickname belongs to another user, the nickname stays and the user gets
    /// `ERR_NICKNAMEINUSE`; otherwise the nickname changes and every user sharing a channel
    /// with the user, and the user, get a `NICK` message from the old full name.
    pub fn recycle_user(&mut self, id: u128, action: RecyclingAction)
        requires
            old(self).inv(),
            old(self).users.has_id(id),
        ensures
            final(self).inv(),
            final(self).channels == old(self).channels,
            forall|x: u128| #[trigger] final(self).users.has_id(x) == old(self).users.has_id(x),
            action matches RecyclingAction::ChangeNick(n) ==> {
                let taken = exists|j: int|
                    0 <= j < old(self).users.users@.len() && (#[trigger] old(self).users.users@[j]).id != id
                        && nick_key(old(self).users.users@[j]) == fold(n@);
                &&& taken ==> final(self).user(id).nickname == old(self).user(id).nickname
                &&& taken ==> exists|m: MsgView|
                    queues_pushed(old(self).users.users@, final(self).users.users@, set![id], m)
                        && m.command == crate::numericreply::three_digits(433)
                        && m.args == seq![old(self).user(id).nickname@, n@]
                &&& taken ==> final(self).channels == old(self).channels
                &&& !taken ==> final(self).user(id).nickname == n
                &&& !taken ==> final(self).users.users@.len() == old(self).users.users@.len()
                &&& !taken ==> forall|i: int| 0 <= i < old(self).users.users@.len() ==> crate::users::queue_view(
                    #[trigger] final(self).users.users@[i].queue@,
                ) == if old(self).users.users@[i].id == id || share_channel(old(self).channels.chans@, id, old(self).users.users@[i].id) {
                    crate::users::queue_view(old(self).users.users@[i].queue@).push(nick_view(old(self).user(id).fullname(), n@))
                } else {
                    crate::users::queue_view(old(self).users.users@[i].queue@)
                }
            },
    {
        match action {
            RecyclingAction::ChangeNick(new_nick) => {
                let old_name = self.fullname_of(id);
                let ghost before = *self;
                let ok = self.users.change_nick(id, &new_nick);
                proof {
                    let i = choose|i: int| 0 <= i < before.users.users@.len() && (#[trigger] before.users.users@[i]).id == id;
                    assert(self.users.users@[i].id == id);
                    ServerData::lemma_user_of(before.users.users@, i);
                    ServerData::lemma_user_of(self.users.users@, i);
                    assert forall|x: u128| #[trigger] self.users.has_id(x) == before.users.has_id(x) by {
                        if self.users.has_id(x) {
                            let q = choose|q: int| 0 <= q < self.users.users@.len() && (#[trigger] self.users.users@[q]).id == x;
                            assert(before.users.users@[q].id == x);
                        }
                        if before.users.has_id(x) {
                            let q = choose|q: int| 0 <= q < before.users.users@.len() && (#[trigger] before.users.users@[q]).id == x;
                            assert(self.users.users@[q].id == x);
                        }
                    }
                }
                if ok {
                    let mut known = self.known_by_uuid(id);
                    let ghost k_orig = known@;
                    let mut found = false;
                    let mut q: usize = 0;
                    while q < known.len()
                        invariant
                            q <= known@.len(),
                            found == exists|t: int| 0 <= t < q && known@[t] == id,
                        decreases known.len() - q,
                    {
                        if known[q] == id {
                            found = true;
                        }
                        q = q + 1;
                    }
                    if !found {
                        let ghost k0 = known@;
                        known.push(id);
                        proof {
                            assert forall|a: int, b: int| 0 <= a < known@.len() && 0 <= b < known@.len() && a != b implies known@[a] != known@[b] by {
                                if a == k0.len() as int {
                                    assert(!k0.contains(id));
                                } else if b == k0.len() as int {
                                    assert(!k0.contains(id));
                                    assert(k0[a] == known@[a]);
                                }
                            }
                        }
                    }
                    proof {
                        assert(known@ == if found { k_orig } else { k_orig.push(id) });
                        assert forall|x: u128| known@.contains(x) <==> share_channel(self.channels.chans@, id, x) || x == id by {
                            if found {
                                let t = choose|t: int| 0 <= t < q && known@[t] == id;
                                assert(k_orig.contains(id));
                            } else {
                                if known@.contains(x) {
                                    let t = choose|t: int| 0 <= t < known@.len() && known@[t] == x;
                                    if t < k_orig.len() {
                                        assert(k_orig[t] == x);
                                    }
                                }
                                if k_orig.contains(x) {
                                    let t = choose|t: int| 0 <= t < k_orig.len() && k_orig[t] == x;
                                    assert(known@[t] == x);
                                }
                                if x == id {
                                    assert(known@[k_orig.len() as int] == id);
                                }
                            }
                        }
                    }
                    let a = crate::commands::one_arg_pub(new_nick.clone());
                    let msg = IRCMessage { prefix: Some(old_name), command: "NICK".to_owned(), args: a, suffix: None };
                    let ghost mid = self.users.users@;
                    proof {
                        assert(msg@ == nick_view(before.user(id).fullname(), new_nick@)) by {
                            assert(crate::messages::strings_view(a@) =~= seq![new_nick@]);
                        }
                        assert(Set::new(|x: u128| known@.contains(x) && None::<u128> != Some(x)) =~= Set::new(
                            |x: u128| share_channel(self.channels.chans@, id, x) || x == id,
                        ));
                    }
                    self.send_to_ids(&known, &msg, None);
                    proof {
                        assert forall|i: int| 0 <= i < before.users.users@.len() implies crate::users::queue_view(
                            #[trigger] self.users.users@[i].queue@,
                        ) == if before.users.users@[i].id == id || share_channel(before.channels.chans@, id, before.users.users@[i].id) {
                            crate::users::queue_view(before.users.users@[i].queue@).push(nick_view(before.user(id).fullname(), new_nick@))
                        } else {
                            crate::users::queue_view(before.users.users@[i].queue@)
                        } by {
                            assert(mid[i].id == before.users.users@[i].id);
                            assert(mid[i].queue == before.users.users@[i].queue);
                        }
                    }
                } else {
                    assert(self.users.users@ == before.users.users@);
                    let mut a: Vec<String> = Vec::new();
                    a.push(new_nick);
                    let txt = Some("Nickname is already in use.".to_owned());
                    let ghost tv = crate::messages::opt_view(txt);
                    let ghost av = crate::messages::strings_view(a@);
                    let ghost mv = crate::numericreply::numeric_view(
                        NumericReply::ERR_NICKNAMEINUSE,
                        Some(self.settings.name@),
                        self.user(id).nickname@,
                        av,
                        tv,
                    );
                    self.send_numeric(id, NumericReply::ERR_NICKNAMEINUSE, a, txt);
                    assert(queues_pushed(before.users.users@, self.users.users@, set![id], mv));
                    assert(mv.args =~= seq![before.user(id).nickname@, av[0]]);
                }
            },
            _ => {},
        }
    }

    /// Destroys user `id`: parts it from every channel, destroys the channels left empty,
    /// and removes it from the registry.
    pub fn destroy_user(&mut self, id: u128)
        requires
            old(self).inv(),
        ensures
            final(self).inv(),
            !final(self).users.has_id(id),
            forall|x: u128| x != id ==> #[trigger] final(self).users.has_id(x) == old(self).users.has_id(x),
            forall|i: int| 0 <= i < final(self).channels.chans@.len() ==> !(#[trigger] final(self).channels.chans@[i]).has(id),
    {
        let ghost before = *self;
        let _emptied = self.channels.quit(id);
        self.users.del_user(id);
        proof {
            assert forall|x: u128| x != id implies #[trigger] self.users.has_id(x) == before.users.has_id(x) by {
                if before.users.has_id(x) {
                    let q = choose|q: int| 0 <= q < before.users.users@.len() && (#[trigger] before.users.users@[q]).id == x;
                    assert(self.users.users@.contains(before.users.users@[q]));
                    let t = choose|t: int| 0 <= t < self.users.users@.len() && self.users.users@[t] == before.users.users@[q];
                    assert(self.users.users@[t].id == x);
                }
                if self.users.has_id(x) {
                    let q = choose|q: int| 0 <= q < self.users.users@.len() && (#[trigger] self.users.users@[q]).id == x;
                    assert(before.users.users@.contains(self.users.users@[q]));
                    let t = choose|t: int| 0 <= t < before.users.users@.len() && before.users.users@[t] == self.users.users@[q];
                    assert(before.users.users@[t].id == x);
                }
            }
            let cc = self.channels.chans@;
            assert forall|i: int, j: int| 0 <= i < cc.len() && 0 <= j < cc[i].members@.len() implies self.users.has_id(
                #[trigger] cc[i].members@[j].id) by {
                assert(derived_in(cc[i], before.channels.chans@));
                let k = choose|k: int| 0 <= k < before.channels.chans@.len() && derived_from(cc[i], #[trigger] before.channels.chans@[k]);
                let m = cc[i].members@[j];
                assert(cc[i].members@.contains(m));
                assert(before.channels.chans@[k].members@.contains(m));
                let t = choose|t: int| 0 <= t < before.channels.chans@[k].members@.len() && before.channels.chans@[k].members@[t] == m;
                assert(before.users.has_id(before.channels.chans@[k].members@[t].id));
                if m.id == id {
                    assert(cc[i].has(id));
                }
            }
        }
    }
}

} // verus!
