//! Users: the record of a registered connection, the registration candidate, and the
//! registry that indexes users by identifier and by case-folded nickname.
use vstd::prelude::*;
use crate::messages::{IRCMessage, MsgView};
use crate::modes::Modes;
use crate::util::{fold, label_to_lower, mask_match, matches_mask, push_char};

verus! {

/// Relies on `uuid::Uuid::new_v4`: a random version-4 identifier, read as a 128-bit integer.
#[verifier::external_body]
fn fresh_id() -> (r: u128) {
    uuid::Uuid::new_v4().as_u128()
}

pub open spec fn queue_view(q: Seq<IRCMessage>) -> Seq<MsgView> {
    q.map_values(|m: IRCMessage| m@)
}

/// `nick!user@host`.
pub open spec fn fullname_of(nick: Seq<char>, user: Seq<char>, host: Seq<char>) -> Seq<char> {
    nick + seq!['!'] + user + seq!['@'] + host
}

/// A registered user.
pub struct UserData {
    pub id: u128,
    pub nickname: String,
    pub username: String,
    pub hostname: String,
    pub realname: String,
    pub modes: Modes,
    /// The away message, when the user is away.
    pub away: Option<String>,
    /// Messages waiting to be written to the user's connection, oldest first.
    pub queue: Vec<IRCMessage>,
    /// Set when the connection is closed; the user then waits to be destroyed.
    pub zombie: bool,
}

impl UserData {
    pub open spec fn wf(&self) -> bool {
        self.modes@.len() == 52
    }

    pub open spec fn fullname(&self) -> Seq<char> {
        fullname_of(self.nickname@, self.username@, self.hostname@)
    }

    /// Creates a user with no mode set, nothing queued, and not away.
    pub fn new(id: u128, nick: String, username: String, hostname: String, realname: String) -> (r:
        UserData)
        ensures
            r.wf(),
            r.id == id,
            r.nickname == nick,
            r.username == username,
            r.hostname == hostname,
            r.realname == realname,
            r.modes@ == Seq::new(52, |i: int| false),
            r.away is None,
            r.queue@.len() == 0,
            !r.zombie,
    {
        UserData {
            id,
            nickname: nick,
            username,
            hostname,
            realname,
            modes: Modes::new(),
            away: None,
            queue: Vec::new(),
            zombie: false,
        }
    }

    /// Appends a message to this user's outbound queue.
    pub fn push_message(&mut self, msg: IRCMessage)
        ensures
            final(self).queue@ == old(self).queue@.push(msg),
            final(self).id == old(self).id,
            final(self).nickname == old(self).nickname,
            final(self).username == old(self).username,
            final(self).hostname == old(self).hostname,
            final(self).realname == old(self).realname,
            final(self).modes == old(self).modes,
            final(self).away == old(self).away,
            final(self).zombie == old(self).zombie,
    {
        self.queue.push(msg);
    }

    /// Takes the oldest message of the outbound queue.
    pub fn next_queued_message(&mut self) -> (r: Option<IRCMessage>)
        ensures
            old(self).queue@.len() == 0 ==> r is None && final(self).queue@ == old(self).queue@,
            old(self).queue@.len() > 0 ==> r == Some(old(self).queue@[0]) && final(self).queue@
                == old(self).queue@.drop_first(),
            final(self).id == old(self).id,
            final(self).nickname == old(self).nickname,
            final(self).modes == old(self).modes,
            final(self).zombie == old(self).zombie,
    {
        if self.queue.len() == 0 {
            None
        } else {
            let m = self.queue.remove(0);
            assert(self.queue@ =~= old(self).queue@.drop_first());
            Some(m)
        }
    }

    /// Returns `nick!user@host`.
    pub fn get_fullname(&self) -> (r: String)
        ensures
            r@ == self.fullname(),
    {
        let mut r = self.nickname.clone();
        push_char(&mut r, '!');
        r.append(self.username.as_str());
        push_char(&mut r, '@');
        r.append(self.hostname.as_str());
        r
    }

    pub fn is_zombie(&self) -> (r: bool)
        ensures
            r == self.zombie,
    {
        self.zombie
    }

    /// Marks the user as disconnected, to be destroyed.
    pub fn zombify(&mut self)
        ensures
            final(self).zombie,
            final(self).id == old(self).id,
            final(self).nickname == old(self).nickname,
            final(self).modes == old(self).modes,
            final(self).queue == old(self).queue,
    {
        self.zombie = true;
    }
}

/// A connection that has not completed registration yet.
#[derive(Debug)]
pub struct NewUser {
    pub nickname: Option<String>,
    pub username: Option<String>,
    pub realname: Option<String>,
    pub hostname: String,
    pub zombie: bool,
}

impl NewUser {
    /// A candidate that has given nothing yet, connected from `hostname`.
    pub fn new(hostname: String) -> (r: NewUser)
        ensures
            r.nickname is None,
            r.username is None,
            r.realname is None,
            r.hostname == hostname,
            !r.zombie,
    {
        NewUser { nickname: None, username: None, realname: None, hostname, zombie: false }
    }

    pub open spec fn ready(&self) -> bool {
        self.nickname is Some && self.username is Some && self.realname is Some
    }

    /// Whether nickname, user name and real name have all been given.
    pub fn is_ready(&self) -> (r: bool)
        ensures
            r == self.ready(),
    {
        self.nickname.is_some() && self.username.is_some() && self.realname.is_some()
    }
}

/// Why a candidate was not registered.
#[derive(PartialEq, Eq, Structural, Clone, Copy, Debug)]
pub enum InsertError {
    /// Nickname, user name or real name is missing.
    Incomplete,
    /// The folded nickname belongs to a registered user.
    NickInUse,
    /// No unused identifier could be drawn.
    NoFreshId,
}

pub open spec fn nick_key(u: UserData) -> Seq<char> {
    fold(u.nickname@)
}

/// The identifiers, in registry order, of the users that satisfy `p`.
pub open spec fn ids_where(us: Seq<UserData>, p: spec_fn(UserData) -> bool) -> Seq<u128>
    decreases us.len(),
{
    if us.len() == 0 {
        Seq::empty()
    } else if p(us.last()) {
        ids_where(us.drop_last(), p).push(us.last().id)
    } else {
        ids_where(us.drop_last(), p)
    }
}

/// Two user lists that differ at most in the users' outbound queues.
pub open spec fn same_but_queues(a: Seq<UserData>, b: Seq<UserData>) -> bool {
    &&& a.len() == b.len()
    &&& forall|i: int|
        0 <= i < a.len() ==> {
            let (x, y) = (#[trigger] a[i], b[i]);
            &&& y.id == x.id
            &&& y.nickname == x.nickname
            &&& y.username == x.username
            &&& y.hostname == x.hostname
            &&& y.realname == x.realname
            &&& y.modes == x.modes
            &&& y.away == x.away
            &&& y.zombie == x.zombie
        }
}

/// Two user lists with the same identifiers and nicknames, user by user.
pub open spec fn same_identity(a: Seq<UserData>, b: Seq<UserData>) -> bool {
    &&& a.len() == b.len()
    &&& forall|i: int|
        0 <= i < a.len() ==> {
            let (x, y) = (#[trigger] a[i], b[i]);
            &&& y.id == x.id
            &&& y.nickname == x.nickname
            &&& y.username == x.username
            &&& y.hostname == x.hostname
            &&& y.realname == x.realname
        }
}

/// The registry of users.
pub struct UserManager {
    pub users: Vec<UserData>,
}

impl UserManager {
    /// Identifiers are unique, folded nicknames are unique, and each user is well formed.
    pub open spec fn wf(&self) -> bool {
        &&& forall|i: int| 0 <= i < self.users@.len() ==> (#[trigger] self.users@[i]).wf()
        &&& forall|i: int, j: int|
            0 <= i < self.users@.len() && 0 <= j < self.users@.len() && i != j ==> (
            #[trigger] self.users@[i]).id != (#[trigger] self.users@[j]).id && nick_key(
                self.users@[i],
            ) != nick_key(self.users@[j])
    }

    pub open spec fn has_id(&self, id: u128) -> bool {
        exists|i: int| 0 <= i < self.users@.len() && (#[trigger] self.users@[i]).id == id
    }

    pub open spec fn has_nick(&self, key: Seq<char>) -> bool {
        exists|i: int| 0 <= i < self.users@.len() && nick_key(#[trigger] self.users@[i]) == key
    }

    /// The user that the index holds under a folded nickname.
    pub open spec fn by_nick(&self, key: Seq<char>) -> Option<UserData> {
        if self.has_nick(key) {
            Some(
                self.users@[choose|i: int|
                    0 <= i < self.users@.len() && nick_key(#[trigger] self.users@[i]) == key],
            )
        } else {
            None
        }
    }

    /// The registry with no user.
    pub fn new() -> (r: UserManager)
        ensures
            r.wf(),
            r.users@.len() == 0,
    {
        UserManager { users: Vec::new() }
    }

    pub fn is_empty(&self) -> (r: bool)
        ensures
            r == (self.users@.len() == 0),
    {
        self.users.len() == 0
    }

    /// Position of the user with this identifier.
    pub fn index_of_uuid(&self, id: u128) -> (r: Option<usize>)
        ensures
            r matches Some(i) ==> i < self.users@.len() && self.users@[i as int].id == id,
            r is None ==> !self.has_id(id),
    {
        let mut i: usize = 0;
        while i < self.users.len()
            invariant
                i <= self.users@.len(),
                forall|k: int| 0 <= k < i ==> (#[trigger] self.users@[k]).id != id,
            decreases self.users.len() - i,
        {
            if self.users[i].id == id {
                return Some(i);
            }
            i = i + 1;
        }
        None
    }

    /// Position of the user whose folded nickname is `key`.
    pub fn index_of_key(&self, key: &String) -> (r: Option<usize>)
        ensures
            r matches Some(i) ==> i < self.users@.len() && nick_key(self.users@[i as int])
                == key@,
            r is None ==> !self.has_nick(key@),
    {
        let mut i: usize = 0;
        while i < self.users.len()
            invariant
                i <= self.users@.len(),
                forall|k: int| 0 <= k < i ==> nick_key(#[trigger] self.users@[k]) != key@,
            decreases self.users.len() - i,
        {
            let k = label_to_lower(self.users[i].nickname.as_str());
            if k == *key {
                return Some(i);
            }
            i = i + 1;
        }
        None
    }

    /// The user with this identifier.
    pub fn get_user_by_uuid(&self, id: u128) -> (r: Option<&UserData>)
        ensures
            r matches Some(u) ==> u.id == id && self.users@.contains(*u),
            r is None ==> !self.has_id(id),
    {
        match self.index_of_uuid(id) {
            Some(i) => Some(&self.users[i]),
            None => None,
        }
    }

    /// The identifier of the user whose nickname folds like `nick`.
    pub fn get_uuid_of_nickname(&self, nick: &str) -> (r: Option<u128>)
        requires
            self.wf(),
        ensures
            r matches Some(id) ==> self.by_nick(fold(nick@)) matches Some(u) && u.id == id,
            r is None ==> self.by_nick(fold(nick@)) is None,
    {
        let key = label_to_lower(nick);
        match self.index_of_key(&key) {
            Some(i) => {
                proof {
                    self.lemma_by_nick(i as int);
                }
                Some(self.users[i].id)
            },
            None => None,
        }
    }

    /// The user whose nickname folds like `nick`.
    pub fn get_user_by_nickname(&self, nick: &str) -> (r: Option<&UserData>)
        requires
            self.wf(),
        ensures
            r matches Some(u) ==> self.by_nick(fold(nick@)) == Some(*u),
            r is None ==> self.by_nick(fold(nick@)) is None,
    {
        let key = label_to_lower(nick);
        match self.index_of_key(&key) {
            Some(i) => {
                proof {
                    self.lemma_by_nick(i as int);
                }
                Some(&self.users[i])
            },
            None => None,
        }
    }

    /// In a well-formed registry, each user is the one its folded nickname finds.
    pub proof fn lemma_by_nick(&self, i: int)
        requires
            self.wf(),
            0 <= i < self.users@.len(),
        ensures
            self.by_nick(nick_key(self.users@[i])) == Some(self.users@[i]),
    {
        let key = nick_key(self.users@[i]);
        assert(self.has_nick(key));
        let j = choose|j: int| 0 <= j < self.users@.len() && nick_key(#[trigger] self.users@[j]) == key;
        if j != i {
            assert(nick_key(self.users@[i]) != nick_key(self.users@[j]));
        }
    }

    /// Registers a candidate under the given identifier.
    pub fn insert_with_id(&mut self, user: NewUser, id: u128) -> (r: Result<u128, (NewUser, InsertError)>)
        requires
            old(self).wf(),
        ensures
            final(self).wf(),
            match r {
                Ok(rid) => {
                    &&& rid == id
                    &&& user.ready()
                    &&& !old(self).has_nick(fold(user.nickname->0@))
                    &&& !old(self).has_id(id)
                    &&& final(self).users@.len() == old(self).users@.len() + 1
                    &&& final(self).users@.drop_last() == old(self).users@
                    &&& final(self).users@.last().id == id
                    &&& final(self).users@.last().nickname == user.nickname->0
                    &&& final(self).users@.last().username == user.username->0
                    &&& final(self).users@.last().realname == user.realname->0
                    &&& final(self).users@.last().hostname == user.hostname
                    &&& final(self).users@.last().queue@.len() == 0
                    &&& !final(self).users@.last().zombie
                },
                Err((u, e)) => {
                    &&& u == user
                    &&& final(self).users@ == old(self).users@
                    &&& (e == InsertError::Incomplete <==> !user.ready())
                    &&& (e == InsertError::NickInUse <==> user.ready() && old(self).has_nick(
                        fold(user.nickname->0@),
                    ))
                    &&& (e == InsertError::NoFreshId <==> user.ready() && !old(self).has_nick(
                        fold(user.nickname->0@),
                    ) && old(self).has_id(id))
                },
            },
    {
        if !user.is_ready() {
            return Err((user, InsertError::Incomplete));
        }
        let key = match &user.nickname {
            Some(n) => label_to_lower(n.as_str()),
            None => String::new(),
        };
        if self.index_of_key(&key).is_some() {
            return Err((user, InsertError::NickInUse));
        }
        if self.index_of_uuid(id).is_some() {
            return Err((user, InsertError::NoFreshId));
        }
        let NewUser { nickname, username, realname, hostname, zombie: _ } = user;
        let (nick, uname, rname) = match (nickname, username, realname) {
            (Some(n), Some(u), Some(r)) => (n, u, r),
            _ => {
                return Err((NewUser { nickname: None, username: None, realname: None, hostname, zombie: false }, InsertError::Incomplete));
            },
        };
        let data = UserData::new(id, nick, uname, hostname, rname);
        let ghost before = self.users@;
        self.users.push(data);
        assert(self.users@.drop_last() =~= before);
        assert forall|i: int, j: int|
            0 <= i < self.users@.len() && 0 <= j < self.users@.len() && i != j implies (
            #[trigger] self.users@[i]).id != (#[trigger] self.users@[j]).id && nick_key(
                self.users@[i],
            ) != nick_key(self.users@[j]) by {
            if i == before.len() as int {
                assert(self.users@[j] == before[j]);
            } else if j == before.len() as int {
                assert(self.users@[i] == before[i]);
            } else {
                assert(self.users@[i] == before[i] && self.users@[j] == before[j]);
            }
        }
        Ok(id)
    }

    /// Registers a candidate under a fresh random identifier. Fails when a name is
    /// missing or the folded nickname is in use; also fails, leaving the registry as it
    /// was, in the unlikely case that every identifier drawn is already in use.
    pub fn insert(&mut self, user: NewUser) -> (r: Result<u128, (NewUser, InsertError)>)
        requires
            old(self).wf(),
        ensures
            final(self).wf(),
            match r {
                Ok(id) => {
                    &&& user.ready()
                    &&& !old(self).has_nick(fold(user.nickname->0@))
                    &&& !old(self).has_id(id)
                    &&& final(self).users@.drop_last() == old(self).users@
                    &&& final(self).users@.len() == old(self).users@.len() + 1
                    &&& final(self).users@.last().id == id
                    &&& final(self).users@.last().nickname == user.nickname->0
                    &&& final(self).users@.last().username == user.username->0
                    &&& final(self).users@.last().realname == user.realname->0
                    &&& final(self).users@.last().hostname == user.hostname
                    &&& final(self).users@.last().queue@.len() == 0
                    &&& !final(self).users@.last().zombie
                },
                Err((u, e)) => {
                    &&& u == user
                    &&& final(self).users@ == old(self).users@
                    &&& (e == InsertError::Incomplete <==> !user.ready())
                    &&& (e == InsertError::NickInUse <==> user.ready() && old(self).has_nick(
                        fold(user.nickname->0@),
                    ))
                },
            },
    {
        let mut candidate = user;
        let mut tries: u32 = 0;
        loop
            invariant
                candidate == user,
                self.users@ == old(self).users@,
                self.wf(),
                tries <= 8,
            decreases 8 - tries,
        {
            let id = fresh_id();
            match self.insert_with_id(candidate, id) {
                Ok(id) => {
                    return Ok(id);
                },
                Err((u, e)) => {
                    if e != InsertError::NoFreshId || tries == 8 {
                        return Err((u, e));
                    }
                    candidate = u;
                },
            }
            tries = tries + 1;
        }
    }

    /// Changes the nickname of the user `id`. Returns `false`, changing nothing, when the
    /// folded new nickname belongs to another user.
    pub fn change_nick(&mut self, id: u128, new_nick: &String) -> (r: bool)
        requires
            old(self).wf(),
            old(self).has_id(id),
        ensures
            final(self).wf(),
            final(self).users@.len() == old(self).users@.len(),
            r == !(exists|j: int|
                0 <= j < old(self).users@.len() && (#[trigger] old(self).users@[j]).id != id
                    && nick_key(old(self).users@[j]) == fold(new_nick@)),
            forall|i: int|
                0 <= i < old(self).users@.len() ==> {
                    let (o, n) = (#[trigger] old(self).users@[i], final(self).users@[i]);
                    &&& n.id == o.id
                    &&& n.username == o.username
                    &&& n.hostname == o.hostname
                    &&& n.realname == o.realname
                    &&& n.modes == o.modes
                    &&& n.away == o.away
                    &&& n.queue == o.queue
                    &&& n.zombie == o.zombie
                    &&& n.nickname == if r && o.id == id {
                        *new_nick
                    } else {
                        o.nickname
                    }
                },
    {
        let key = label_to_lower(new_nick.as_str());
        let idx = match self.index_of_uuid(id) {
            Some(i) => i,
            None => {
                return false;
            },
        };
        match self.index_of_key(&key) {
            Some(j) => {
                if j != idx {
                    assert(self.users@[j as int].id != id);
                    return false;
                }
            },
            None => {},
        }
        proof {
            assert forall|j: int|
                0 <= j < old(self).users@.len() && (#[trigger] old(self).users@[j]).id != id
                    implies nick_key(old(self).users@[j]) != fold(new_nick@) by {
                if nick_key(old(self).users@[j]) == fold(new_nick@) {
                    assert(self.has_nick(key@));
                    assert(j != idx);
                }
            }
        }
        let ghost before = self.users@;
        let mut u = self.users.remove(idx);
        u.nickname = new_nick.clone();
        self.users.insert(idx, u);
        assert forall|i: int| 0 <= i < before.len() && i != idx implies self.users@[i] == before[i] by {
        }
        assert forall|i: int, j: int|
            0 <= i < self.users@.len() && 0 <= j < self.users@.len() && i != j implies (
            #[trigger] self.users@[i]).id != (#[trigger] self.users@[j]).id && nick_key(
                self.users@[i],
            ) != nick_key(self.users@[j]) by {
            assert(before[i].id != before[j].id);
            if i != idx && j != idx {
                assert(nick_key(before[i]) != nick_key(before[j]));
            }
        }
        true
    }

    /// Removes the user `id`, if registered.
    pub fn del_user(&mut self, id: u128)
        requires
            old(self).wf(),
        ensures
            final(self).wf(),
            !final(self).has_id(id),
            forall|i: int| 0 <= i < final(self).users@.len() ==> old(self).users@.contains(
                #[trigger] final(self).users@[i]),
            forall|i: int|
                0 <= i < old(self).users@.len() && (#[trigger] old(self).users@[i]).id != id
                    ==> final(self).users@.contains(old(self).users@[i]),
    {
        match self.index_of_uuid(id) {
            Some(i) => {
                let ghost before = self.users@;
                self.users.remove(i);
                assert(self.users@ =~= before.remove(i as int));
                assert forall|k: int| 0 <= k < self.users@.len() implies old(self).users@.contains(
                    #[trigger] self.users@[k]) by {
                    if k < i {
                        assert(self.users@[k] == before[k]);
                    } else {
                        assert(self.users@[k] == before[k + 1]);
                    }
                }
                assert forall|k: int|
                    0 <= k < before.len() && (#[trigger] before[k]).id != id implies self.users@.contains(
                    before[k]) by {
                    if k < i {
                        assert(self.users@[k] == before[k]);
                    } else if k > i {
                        assert(self.users@[k - 1] == before[k]);
                    }
                }
                assert forall|k: int| 0 <= k < self.users@.len() implies (#[trigger] self.users@[k]).id != id by {
                    if k < i {
                        assert(self.users@[k] == before[k]);
                    } else {
                        assert(self.users@[k] == before[k + 1]);
                    }
                }
            },
            None => {},
        }
    }

    /// Sets or clears a mode flag of user `id`; every other field and every other user
    /// stay as they were.
    pub fn set_user_mode(&mut self, id: u128, flag: char, v: bool)
        requires
            old(self).wf(),
        ensures
            final(self).wf(),
            same_identity(old(self).users@, final(self).users@),
            forall|i: int|
                0 <= i < old(self).users@.len() ==> {
                    let (o, n) = (#[trigger] old(self).users@[i], final(self).users@[i]);
                    &&& n.away == o.away
                    &&& n.queue == o.queue
                    &&& n.zombie == o.zombie
                    &&& if o.id == id {
                        crate::modes::slot_of(flag) matches Some(k) ==> n.modes@ == o.modes@.update(k, v)
                    } else {
                        n.modes == o.modes
                    }
                },
    {
        match self.index_of_uuid(id) {
            Some(i) => {
                let ghost before = self.users@;
                let mut u = self.users.remove(i);
                u.modes.set(flag, v);
                self.users.insert(i, u);
                assert(self.users@ =~= before.update(i as int, u));
                assert forall|a: int, b: int|
                    0 <= a < self.users@.len() && 0 <= b < self.users@.len() && a != b implies (
                    #[trigger] self.users@[a]).id != (#[trigger] self.users@[b]).id && nick_key(
                        self.users@[a],
                    ) != nick_key(self.users@[b]) by {
                    assert(before[a].id != before[b].id);
                    assert(nick_key(before[a]) != nick_key(before[b]));
                }
                assert forall|k: int| 0 <= k < before.len() && k != i as int implies before[k].id != id by {
                    assert(before[k].id != before[i as int].id);
                }
            },
            None => {},
        }
    }

    /// Sets the away message of user `id` (`None`: not away) and its mode `a` accordingly;
    /// every other field and every other user stay as they were.
    pub fn set_away(&mut self, id: u128, away: Option<String>)
        requires
            old(self).wf(),
        ensures
            final(self).wf(),
            same_identity(old(self).users@, final(self).users@),
            forall|i: int|
                0 <= i < old(self).users@.len() ==> {
                    let (o, n) = (#[trigger] old(self).users@[i], final(self).users@[i]);
                    &&& n.queue == o.queue
                    &&& n.zombie == o.zombie
                    &&& if o.id == id {
                        n.away == away && n.modes@ == o.modes@.update(0, away is Some)
                    } else {
                        n.away == o.away && n.modes == o.modes
                    }
                },
    {
        match self.index_of_uuid(id) {
            Some(i) => {
                let ghost before = self.users@;
                let mut u = self.users.remove(i);
                let is_away = away.is_some();
                u.modes.set('a', is_away);
                u.away = away;
                self.users.insert(i, u);
                assert(self.users@ =~= before.update(i as int, u));
                assert forall|a: int, b: int|
                    0 <= a < self.users@.len() && 0 <= b < self.users@.len() && a != b implies (
                    #[trigger] self.users@[a]).id != (#[trigger] self.users@[b]).id && nick_key(
                        self.users@[a],
                    ) != nick_key(self.users@[b]) by {
                    assert(before[a].id != before[b].id);
                    assert(nick_key(before[a]) != nick_key(before[b]));
                }
                assert forall|k: int| 0 <= k < before.len() && k != i as int implies before[k].id != id by {
                    assert(before[k].id != before[i as int].id);
                }
            },
            None => {},
        }
    }

    /// Appends a message to the outbound queue of the user `id`; every other field and
    /// every other user stay as they were.
    pub fn push_to(&mut self, id: u128, msg: IRCMessage)
        requires
            old(self).wf(),
        ensures
            final(self).wf(),
            same_but_queues(old(self).users@, final(self).users@),
            forall|i: int|
                0 <= i < old(self).users@.len() ==> queue_view(
                    #[trigger] final(self).users@[i].queue@,
                ) == if old(self).users@[i].id == id {
                    queue_view(old(self).users@[i].queue@).push(msg@)
                } else {
                    queue_view(old(self).users@[i].queue@)
                },
    {
        match self.index_of_uuid(id) {
            Some(i) => {
                let ghost before = self.users@;
                let mut u = self.users.remove(i);
                u.push_message(msg);
                assert(queue_view(u.queue@) =~= queue_view(before[i as int].queue@).push(msg@));
                self.users.insert(i, u);
                assert(self.users@ =~= before.update(i as int, u));
                assert forall|a: int, b: int|
                    0 <= a < self.users@.len() && 0 <= b < self.users@.len() && a != b implies (
                    #[trigger] self.users@[a]).id != (#[trigger] self.users@[b]).id && nick_key(
                        self.users@[a],
                    ) != nick_key(self.users@[b]) by {
                    assert(before[a].id != before[b].id);
                    assert(nick_key(before[a]) != nick_key(before[b]));
                }
                assert forall|k: int| 0 <= k < before.len() implies queue_view(
                    #[trigger] self.users@[k].queue@,
                ) == if before[k].id == id {
                    queue_view(before[k].queue@).push(msg@)
                } else {
                    queue_view(before[k].queue@)
                } by {
                    if k != i as int {
                        assert(before[k].id != before[i as int].id);
                    }
                }
            },
            None => {},
        }
    }

    /// Identifiers, in registry order, of the users whose folded nickname matches `mask`.
    pub fn uuids_matching_mask_nick(&self, mask: &str) -> (r: Vec<u128>)
        ensures
            r@ == ids_where(self.users@, |u: UserData| mask_match(fold(u.nickname@), mask@)),
    {
        let ghost p = |u: UserData| mask_match(fold(u.nickname@), mask@);
        let mut out: Vec<u128> = Vec::new();
        let mut i: usize = 0;
        while i < self.users.len()
            invariant
                i <= self.users@.len(),
                forall|u: UserData| #[trigger] p(u) == mask_match(fold(u.nickname@), mask@),
                out@ == ids_where(self.users@.take(i as int), p),
            decreases self.users.len() - i,
        {
            assert(self.users@.take(i as int + 1).drop_last() =~= self.users@.take(i as int));
            assert(self.users@.take(i as int + 1).last() == self.users@[i as int]);
            let k = label_to_lower(self.users[i].nickname.as_str());
            let ok = matches_mask(k.as_str(), mask);
            assert(p(self.users@[i as int]) == ok);
            if ok {
                out.push(self.users[i].id);
            }
            i = i + 1;
        }
        assert(self.users@.take(self.users@.len() as int) =~= self.users@);
        out
    }

    /// Identifiers, in registry order, of the users whose host name matches `mask`.
    pub fn uuids_matching_mask_host(&self, mask: &str) -> (r: Vec<u128>)
        ensures
            r@ == ids_where(self.users@, |u: UserData| mask_match(u.hostname@, mask@)),
    {
        let ghost p = |u: UserData| mask_match(u.hostname@, mask@);
        let mut out: Vec<u128> = Vec::new();
        let mut i: usize = 0;
        while i < self.users.len()
            invariant
                i <= self.users@.len(),
                forall|u: UserData| #[trigger] p(u) == mask_match(u.hostname@, mask@),
                out@ == ids_where(self.users@.take(i as int), p),
            decreases self.users.len() - i,
        {
            assert(self.users@.take(i as int + 1).drop_last() =~= self.users@.take(i as int));
            assert(self.users@.take(i as int + 1).last() == self.users@[i as int]);
            let ok = matches_mask(self.users[i].hostname.as_str(), mask);
            assert(p(self.users@[i as int]) == ok);
            if ok {
                out.push(self.users[i].id);
            }
            i = i + 1;
        }
        assert(self.users@.take(self.users@.len() as int) =~= self.users@);
        out
    }

    /// Identifiers, in registry order, of the users whose `nick!user@host` matches `mask`.
    pub fn uuids_matching_mask_fullname(&self, mask: &str) -> (r: Vec<u128>)
        ensures
            r@ == ids_where(self.users@, |u: UserData| mask_match(u.fullname(), mask@)),
    {
        let ghost p = |u: UserData| mask_match(u.fullname(), mask@);
        let mut out: Vec<u128> = Vec::new();
        let mut i: usize = 0;
        while i < self.users.len()
            invariant
                i <= self.users@.len(),
                forall|u: UserData| #[trigger] p(u) == mask_match(u.fullname(), mask@),
                out@ == ids_where(self.users@.take(i as int), p),
            decreases self.users.len() - i,
        {
            assert(self.users@.take(i as int + 1).drop_last() =~= self.users@.take(i as int));
            assert(self.users@.take(i as int + 1).last() == self.users@[i as int]);
            let f = self.users[i].get_fullname();
            let ok = matches_mask(f.as_str(), mask);
            assert(p(self.users@[i as int]) == ok);
            if ok {
                out.push(self.users[i].id);
            }
            i = i + 1;
        }
        assert(self.users@.take(self.users@.len() as int) =~= self.users@);
        out
    }
}

/// Every registered user is the one that the nickname index finds under its folded
/// nickname.
pub proof fn lemma_nick_index_finds_each_user(reg: &UserManager)
    requires
        reg.wf(),
    ensures
        forall|i: int|
            0 <= i < reg.users@.len() ==> #[trigger] reg.by_nick(fold(reg.users@[i].nickname@))
                == Some(reg.users@[i]),
{
    assert forall|i: int| 0 <= i < reg.users@.len() implies #[trigger] reg.by_nick(
        fold(reg.users@[i].nickname@),
    ) == Some(reg.users@[i]) by {
        reg.lemma_by_nick(i);
    }
}

} // verus!
