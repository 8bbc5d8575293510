//! The shared state of the server and the operations that keep its invariant: users,
//! channels and memberships, and delivery of messages to users' outbound queues.
use vstd::prelude::*;
use crate::channels::{Channel, ChannelManager};
use crate::messages::{IRCMessage, MsgView, strings_view};
use crate::numericreply::{NumericReply, numeric_view};
use crate::users::{UserData, UserManager, queue_view, same_but_queues};

verus! {

/// Settings of the server that the protocol logic reads.
pub struct ServerSettings {
    /// The server's name, used as prefix of the messages it emits.
    pub name: String,
    pub address: String,
    pub port: u16,
    /// Number of worker tasks.
    pub workers: usize,
}

/// What a command handler asks of the recycler, the one task with exclusive access to
/// the user registry.
#[derive(PartialEq, Eq, Debug)]
pub enum RecyclingAction {
    /// Nothing to do.
    Nothing,
    /// A nickname change is requested.
    ChangeNick(String),
    /// The user has quit and is to be destroyed.
    Zombify,
}

/// The users in `b` are those of `a`, where the users whose identifier is in `to` have
/// `m` appended to their outbound queue.
pub open spec fn queues_pushed(a: Seq<UserData>, b: Seq<UserData>, to: Set<u128>, m: MsgView) -> bool {
    &&& same_but_queues(a, b)
    &&& forall|i: int|
        0 <= i < a.len() ==> queue_view(#[trigger] b[i].queue@) == if to.contains(a[i].id) {
            queue_view(a[i].queue@).push(m)
        } else {
            queue_view(a[i].queue@)
        }
}

/// Whether users `a` and `b` are members of a common channel.
pub open spec fn share_channel(chans: Seq<Channel>, a: u128, b: u128) -> bool {
    exists|i: int| 0 <= i < chans.len() && (#[trigger] chans[i]).has(a) && chans[i].has(b)
}

/// The user with a given identifier.
pub open spec fn user_of(us: Seq<UserData>, id: u128) -> UserData {
    us[choose|i: int| 0 <= i < us.len() && (#[trigger] us[i]).id == id]
}

/// The whole state of the server.
pub struct ServerData {
    pub settings: ServerSettings,
    pub users: UserManager,
    pub channels: ChannelManager,
    /// Operator credentials: (name, password).
    pub opers: Vec<(String, String)>,
    /// Set when the server is shutting down.
    pub signal_shutdown: bool,
}

impl ServerData {
    /// The invariant of the server: the registries are well formed (unique identifiers,
    /// unique folded nicknames and channel names), no channel is empty, and every member
    /// of a channel is a registered user.
    pub open spec fn inv(&self) -> bool {
        &&& self.users.wf()
        &&& self.channels.wf()
        &&& forall|i: int|
            0 <= i < self.channels.chans@.len() ==> (#[trigger] self.channels.chans@[i]).members@.len()
                > 0
        &&& forall|i: int, j: int|
            0 <= i < self.channels.chans@.len() && 0 <= j < self.channels.chans@[i].members@.len()
                ==> self.users.has_id(#[trigger] self.channels.chans@[i].members@[j].id)
    }

    /// A server with no user, no channel and no operator credentials.
    pub fn new(settings: ServerSettings, opers: Vec<(String, String)>) -> (r: ServerData)
        ensures
            r.inv(),
            r.users.users@.len() == 0,
            r.channels.chans@.len() == 0,
            r.settings == settings,
            r.opers == opers,
            !r.signal_shutdown,
    {
        ServerData {
            settings,
            users: UserManager::new(),
            channels: ChannelManager::new(),
            opers,
            signal_shutdown: false,
        }
    }

    /// The user with identifier `id`.
    pub open spec fn user(&self, id: u128) -> UserData {
        user_of(self.users.users@, id)
    }

    pub proof fn lemma_user_of(us: Seq<UserData>, i: int)
        requires
            0 <= i < us.len(),
            forall|a: int, b: int|
                0 <= a < us.len() && 0 <= b < us.len() && a != b ==> (#[trigger] us[a]).id != (
                #[trigger] us[b]).id,
        ensures
            user_of(us, us[i].id) == us[i],
    {
        let id = us[i].id;
        let j = choose|j: int| 0 <= j < us.len() && (#[trigger] us[j]).id == id;
        assert(0 <= j < us.len() && us[j].id == id);
        if j != i {
            assert(us[i].id != us[j].id);
        }
    }

    proof fn lemma_same_ids(a: &UserManager, b: &UserManager)
        requires
            a.wf(),
            same_but_queues(a.users@, b.users@),
        ensures
            forall|id: u128| a.has_id(id) == b.has_id(id),
            forall|id: u128| a.has_id(id) ==> user_of(b.users@, id).nickname == user_of(a.users@, id).nickname,
    {
        assert forall|id: u128| a.has_id(id) == b.has_id(id) by {
            if a.has_id(id) {
                let i = choose|i: int| 0 <= i < a.users@.len() && (#[trigger] a.users@[i]).id == id;
                assert(b.users@[i].id == id);
            }
            if b.has_id(id) {
                let i = choose|i: int| 0 <= i < b.users@.len() && (#[trigger] b.users@[i]).id == id;
                assert(a.users@[i].id == id);
            }
        }
        assert forall|id: u128| a.has_id(id) implies user_of(b.users@, id).nickname == user_of(a.users@, id).nickname by {
            let ib = choose|i: int| 0 <= i < b.users@.len() && (#[trigger] b.users@[i]).id == id;
            let ia = choose|i: int| 0 <= i < a.users@.len() && (#[trigger] a.users@[i]).id == id;
            assert(b.users@[ib].id == id);
            assert(a.users@[ib].id == id);
            assert(a.users@[ia].id == id);
            if ia != ib {
                assert(a.users@[ia].id != a.users@[ib].id);
            }
        }
    }

    /// After messages are pushed to the users in `to`, the queue of user `x` is its old
    /// queue, with `m` appended if `x` is in `to`.
    pub proof fn lemma_pushed_user(a: Seq<UserData>, b: Seq<UserData>, to: Set<u128>, m: MsgView, x: u128)
        requires
            queues_pushed(a, b, to, m),
            forall|i: int, j: int|
                0 <= i < a.len() && 0 <= j < a.len() && i != j ==> (#[trigger] a[i]).id != (#[trigger] a[j]).id,
            exists|i: int| 0 <= i < a.len() && (#[trigger] a[i]).id == x,
        ensures
            queue_view(user_of(b, x).queue@) == if to.contains(x) {
                queue_view(user_of(a, x).queue@).push(m)
            } else {
                queue_view(user_of(a, x).queue@)
            },
    {
        let i = choose|i: int| 0 <= i < a.len() && (#[trigger] a[i]).id == x;
        Self::lemma_user_of(a, i);
        assert forall|p: int, q: int| 0 <= p < b.len() && 0 <= q < b.len() && p != q implies (#[trigger] b[p]).id != (#[trigger] b[q]).id by {
            assert(a[p].id != a[q].id);
        }
        assert(b[i].id == x);
        Self::lemma_user_of(b, i);
    }

    /// Pushing messages leaves each user's fields but the queue as they were.
    pub proof fn lemma_identity_user(a: ServerData, b: ServerData, x: u128)
        requires
            a.users.wf(),
            same_but_queues(a.users.users@, b.users.users@),
            a.users.has_id(x),
        ensures
            b.user(x).nickname == a.user(x).nickname,
            b.user(x).username == a.user(x).username,
            b.user(x).hostname == a.user(x).hostname,
            b.user(x).away == a.user(x).away,
            b.user(x).modes == a.user(x).modes,
            b.user(x).id == a.user(x).id,
    {
        let i = choose|i: int| 0 <= i < a.users.users@.len() && (#[trigger] a.users.users@[i]).id == x;
        Self::lemma_user_of(a.users.users@, i);
        assert forall|p: int, q: int| 0 <= p < b.users.users@.len() && 0 <= q < b.users.users@.len() && p != q implies (#[trigger] b.users.users@[p]).id != (#[trigger] b.users.users@[q]).id by {
            assert(a.users.users@[p].id != a.users.users@[q].id);
        }
        assert(b.users.users@[i].id == x);
        Self::lemma_user_of(b.users.users@, i);
    }

    /// Every live channel has at least one member.
    pub proof fn lemma_channels_nonempty(&self)
        requires
            self.inv(),
        ensures
            forall|i: int| 0 <= i < self.channels.chans@.len() ==> (#[trigger] self.channels.chans@[i]).members@.len() > 0,
    {
    }

    /// Changing users without changing their identifiers and nicknames keeps the
    /// invariant and the set of registered identifiers.
    pub proof fn lemma_identity_keeps_inv(a: ServerData, b: ServerData)
        requires
            a.inv(),
            b.users.wf(),
            b.channels == a.channels,
            crate::users::same_identity(a.users.users@, b.users.users@),
        ensures
            b.inv(),
            forall|x: u128| #[trigger] b.users.has_id(x) == a.users.has_id(x),
            forall|x: u128| a.users.has_id(x) ==> #[trigger] b.user(x).nickname == a.user(x).nickname,
    {
        assert forall|x: u128| #[trigger] b.users.has_id(x) == a.users.has_id(x) by {
            if a.users.has_id(x) {
                let i = choose|i: int| 0 <= i < a.users.users@.len() && (#[trigger] a.users.users@[i]).id == x;
                assert(b.users.users@[i].id == x);
            }
            if b.users.has_id(x) {
                let i = choose|i: int| 0 <= i < b.users.users@.len() && (#[trigger] b.users.users@[i]).id == x;
                assert(a.users.users@[i].id == x);
            }
        }
        assert forall|x: u128| a.users.has_id(x) implies #[trigger] b.user(x).nickname == a.user(x).nickname by {
            let i = choose|i: int| 0 <= i < a.users.users@.len() && (#[trigger] a.users.users@[i]).id == x;
            Self::lemma_user_of(a.users.users@, i);
            Self::lemma_user_of(b.users.users@, i);
        }
    }

    /// Changing channels without changing their names and members keeps the invariant.
    pub proof fn lemma_same_members_keeps_inv(a: ServerData, b: ServerData)
        requires
            a.inv(),
            b.users == a.users,
            b.channels.wf(),
            crate::channels::same_members(a.channels.chans@, b.channels.chans@),
        ensures
            b.inv(),
    {
        let ac = a.channels.chans@;
        let bc = b.channels.chans@;
        assert forall|i: int| 0 <= i < bc.len() implies (#[trigger] bc[i]).members@.len() > 0 by {
            assert(crate::channels::member_ids(bc[i].members@).len() == crate::channels::member_ids(ac[i].members@).len());
        }
        assert forall|i: int, j: int| 0 <= i < bc.len() && 0 <= j < bc[i].members@.len() implies b.users.has_id(
            #[trigger] bc[i].members@[j].id) by {
            let bi = crate::channels::member_ids(bc[i].members@);
            let ai = crate::channels::member_ids(ac[i].members@);
            assert(bi.len() == bc[i].members@.len());
            assert(ai.len() == ac[i].members@.len());
            assert(bi[j] == bc[i].members@[j].id);
            assert(ai[j] == ac[i].members@[j].id);
            assert(a.users.has_id(ac[i].members@[j].id));
        }
    }

    /// Appends a message to the outbound queue of user `id`.
    pub fn send_to(&mut self, id: u128, msg: IRCMessage)
        requires
            old(self).inv(),
        ensures
            final(self).inv(),
            final(self).channels == old(self).channels,
            final(self).settings == old(self).settings,
            final(self).opers == old(self).opers,
            final(self).signal_shutdown == old(self).signal_shutdown,
            forall|x: u128| #[trigger] final(self).users.has_id(x) == old(self).users.has_id(x),
            forall|x: u128| old(self).users.has_id(x) ==> #[trigger] final(self).user(x).nickname == old(self).user(x).nickname,
            queues_pushed(old(self).users.users@, final(self).users.users@, set![id], msg@),
    {
        let ghost m = msg@;
        let ghost before = self.users;
        self.users.push_to(id, msg);
        proof {
            Self::lemma_same_ids(&before, &self.users);
            assert forall|i: int| 0 <= i < before.users@.len() implies queue_view(
                #[trigger] self.users.users@[i].queue@,
            ) == if set![id].contains(before.users@[i].id) {
                queue_view(before.users@[i].queue@).push(m)
            } else {
                queue_view(before.users@[i].queue@)
            } by {
                assert(set![id].contains(before.users@[i].id) == (before.users@[i].id == id));
            }
        }
    }

    /// Appends a message to the outbound queue of each user in `ids`, but `except`.
    pub fn send_to_ids(&mut self, ids: &Vec<u128>, msg: &IRCMessage, except: Option<u128>)
        requires
            old(self).inv(),
            forall|a: int, b: int|
                0 <= a < ids@.len() && 0 <= b < ids@.len() && a != b ==> ids@[a] != ids@[b],
        ensures
            final(self).inv(),
            final(self).channels == old(self).channels,
            final(self).settings == old(self).settings,
            final(self).opers == old(self).opers,
            final(self).signal_shutdown == old(self).signal_shutdown,
            forall|x: u128| #[trigger] final(self).users.has_id(x) == old(self).users.has_id(x),
            forall|x: u128| old(self).users.has_id(x) ==> #[trigger] final(self).user(x).nickname == old(self).user(x).nickname,
            queues_pushed(
                old(self).users.users@,
                final(self).users.users@,
                Set::new(|x: u128| ids@.contains(x) && except != Some(x)),
                msg@,
            ),
    {
        let ghost start = self.users.users@;
        let mut j: usize = 0;
        while j < ids.len()
            invariant
                j <= ids@.len(),
                self.inv(),
                self.channels == old(self).channels,
                self.settings == old(self).settings,
                self.opers == old(self).opers,
                self.signal_shutdown == old(self).signal_shutdown,
                start == old(self).users.users@,
                forall|x: u128| #[trigger] self.users.has_id(x) == old(self).users.has_id(x),
                forall|x: u128| old(self).users.has_id(x) ==> #[trigger] self.user(x).nickname == old(self).user(x).nickname,
                forall|a: int, b: int|
                    0 <= a < ids@.len() && 0 <= b < ids@.len() && a != b ==> ids@[a] != ids@[b],
                queues_pushed(
                    start,
                    self.users.users@,
                    Set::new(|x: u128| ids@.take(j as int).contains(x) && except != Some(x)),
                    msg@,
                ),
            decreases ids.len() - j,
        {
            let id = ids[j];
            let ghost mid = self.users.users@;
            let ghost s_old = Set::new(|x: u128| ids@.take(j as int).contains(x) && except != Some(x));
            let ghost s_new = Set::new(|x: u128| ids@.take(j as int + 1).contains(x) && except != Some(x));
            proof {
                assert(ids@.take(j as int + 1) =~= ids@.take(j as int).push(id));
                assert(!ids@.take(j as int).contains(id)) by {
                    if ids@.take(j as int).contains(id) {
                        let k = choose|k: int| 0 <= k < j && ids@.take(j as int)[k] == id;
                        assert(ids@[k] == ids@[j as int]);
                    }
                }
            }
            let skip = match except {
                Some(e) => e == id,
                None => false,
            };
            if !skip {
                self.send_to(id, msg.copy());
                proof {
                    assert forall|i: int| 0 <= i < start.len() implies queue_view(
                        #[trigger] self.users.users@[i].queue@,
                    ) == if s_new.contains(start[i].id) {
                        queue_view(start[i].queue@).push(msg@)
                    } else {
                        queue_view(start[i].queue@)
                    } by {
                        assert(mid[i].id == start[i].id);
                        assert(queue_view(mid[i].queue@) == if s_old.contains(start[i].id) {
                            queue_view(start[i].queue@).push(msg@)
                        } else {
                            queue_view(start[i].queue@)
                        });
                        if start[i].id == id {
                            assert(ids@.take(j as int + 1)[j as int] == id);
                            assert(!s_old.contains(start[i].id));
                            assert(s_new.contains(start[i].id));
                        } else {
                            assert(s_new.contains(start[i].id) == s_old.contains(start[i].id));
                        }
                    }
                }
            } else {
                proof {
                    assert forall|x: u128| s_new.contains(x) == s_old.contains(x) by {}
                    assert(s_new =~= s_old);
                }
            }
            j = j + 1;
        }
        assert(ids@.take(ids@.len() as int) =~= ids@);
    }

    /// The nickname of user `id`.
    pub fn nick_of(&self, id: u128) -> (r: String)
        requires
            self.inv(),
            self.users.has_id(id),
        ensures
            r == self.user(id).nickname,
    {
        let i = self.users.index_of_uuid(id);
        match i {
            Some(i) => {
                proof {
                    Self::lemma_user_of(self.users.users@, i as int);
                }
                self.users.users[i].nickname.clone()
            },
            None => String::new(),
        }
    }

    /// The full name `nick!user@host` of user `id`.
    pub fn fullname_of(&self, id: u128) -> (r: String)
        requires
            self.inv(),
            self.users.has_id(id),
        ensures
            r@ == self.user(id).fullname(),
    {
        let i = self.users.index_of_uuid(id);
        match i {
            Some(i) => {
                proof {
                    Self::lemma_user_of(self.users.users@, i as int);
                }
                self.users.users[i].get_fullname()
            },
            None => String::new(),
        }
    }

    /// Sends a numeric reply to user `id`: from the server, addressed to the user's
    /// nickname, with `args` after it and `text` as trailing argument.
    pub fn send_numeric(&mut self, id: u128, reply: NumericReply, args: Vec<String>, text: Option<String>)
        requires
            old(self).inv(),
            old(self).users.has_id(id),
        ensures
            final(self).inv(),
            final(self).channels == old(self).channels,
            final(self).settings == old(self).settings,
            final(self).opers == old(self).opers,
            final(self).signal_shutdown == old(self).signal_shutdown,
            forall|x: u128| #[trigger] final(self).users.has_id(x) == old(self).users.has_id(x),
            forall|x: u128| old(self).users.has_id(x) ==> #[trigger] final(self).user(x).nickname == old(self).user(x).nickname,
            queues_pushed(
                old(self).users.users@,
                final(self).users.users@,
                set![id],
                numeric_view(
                    reply,
                    Some(old(self).settings.name@),
                    old(self).user(id).nickname@,
                    strings_view(args@),
                    crate::messages::opt_view(text),
                ),
            ),
    {
        let nick = self.nick_of(id);
        let msg = reply.into_prefixed_message(nick.as_str(), self.settings.name.as_str(), &args, text);
        self.send_to(id, msg);
    }
}

} // verus!
