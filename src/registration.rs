//! The registration handshake: a connection gives its nickname and its user and real
//! names, then is inserted in the user registry and welcomed.
use vstd::prelude::*;
use crate::commands::is_command;
use crate::messages::{IRCMessage, strings_view};
use crate::numericreply::{NumericReply, numeric_view};
use crate::server::ServerData;
use crate::users::{InsertError, NewUser, nick_key};
use crate::util::{check_label, fold, is_label, upper};

verus! {

impl NewUser {
    /// Handles one line of a connection that is not registered yet, and returns the
    /// replies to write to it. `NICK` with a valid nickname sets the nickname
    /// (`ERR_ERRONEUSNICKNAME` otherwise); `USER` with four arguments sets the user name
    /// (the first) and the real name (the last); either without enough arguments gets
    /// `ERR_NEEDMOREPARAMS`. Any other command is ignored.
    pub fn handle_message(&mut self, msg: &IRCMessage, server_name: &str) -> (r: Vec<IRCMessage>)
        ensures
            final(self).hostname == old(self).hostname,
            final(self).zombie == old(self).zombie,
            upper(msg.command@) != "NICK"@ && upper(msg.command@) != "USER"@ ==> *final(self) == *old(self) && r@.len() == 0,
            upper(msg.command@) == "NICK"@ && msg@.args.len() > 0 && is_label(msg@.args[0]) ==> final(self).nickname is Some
                && final(self).nickname->0@ == msg@.args[0] && r@.len() == 0,
            upper(msg.command@) == "NICK"@ && msg@.args.len() > 0 && !is_label(msg@.args[0]) ==> final(self).nickname == old(self).nickname
                && r@.len() == 1 && r@[0]@.command == crate::numericreply::three_digits(432),
            upper(msg.command@) == "USER"@ && msg@.args.len() >= 4 ==> final(self).username is Some
                && final(self).username->0@ == msg@.args[0] && final(self).realname is Some && r@.len() == 0,
            upper(msg.command@) == "USER"@ ==> final(self).nickname == old(self).nickname,
    {
        proof {
            reveal_strlit("NICK");
            reveal_strlit("USER");
            assert("NICK"@[0] != "USER"@[0]);
        }
        let mut replies: Vec<IRCMessage> = Vec::new();
        if is_command(msg, "USER") {
            match msg.as_nparams(4, 0) {
                Some(args) => {
                    proof {
                        let m = msg@;
                        if m.args.len() >= 4 {
                            let f = crate::messages::fuse(m.args.skip(3), m.suffix);
                            assert(strings_view(args@) == m.args.take(3).push(f));
                            assert(strings_view(args@)[0] == args@[0]@);
                            assert(m.args.take(3).push(f)[0] == m.args[0]);
                        }
                    }
                    self.username = Some(args[0].clone());
                    self.realname = Some(args[3].clone());
                },
                None => {
                    let mut a: Vec<String> = Vec::new();
                    a.push("USER".to_owned());
                    replies.push(NumericReply::ERR_NEEDMOREPARAMS.into_prefixed_message("*", server_name, &a, Some("Not enough parameters.".to_owned())));
                },
            }
        } else if is_command(msg, "NICK") {
            let given: Option<String> = if msg.args.len() > 0 {
                Some(msg.args[0].clone())
            } else {
                crate::messages::copy_opt(&msg.suffix)
            };
            match given {
                Some(nick) => {
                    if check_label(nick.as_str()) {
                        self.nickname = Some(nick);
                    } else {
                        let mut a: Vec<String> = Vec::new();
                        a.push(nick);
                        replies.push(NumericReply::ERR_ERRONEUSNICKNAME.into_prefixed_message("*", server_name, &a, Some("Erroneous nickname.".to_owned())));
                        assert(replies@[0]@.command == crate::numericreply::three_digits(432));
                    }
                },
                None => {
                    let mut a: Vec<String> = Vec::new();
                    a.push("NICK".to_owned());
                    replies.push(NumericReply::ERR_NONICKNAMEGIVEN.into_prefixed_message("*", server_name, &a, Some("No nickname given.".to_owned())));
                },
            }
        }
        replies
    }

    /// Clears the nickname, which another user holds, and returns the
    /// `ERR_NICKNAMEINUSE` reply for it.
    pub fn report_unavailable_nick(&mut self, server_name: &str) -> (r: IRCMessage)
        ensures
            final(self).nickname is None,
            final(self).zombie == old(self).zombie,
            final(self).username == old(self).username,
            final(self).realname == old(self).realname,
            final(self).hostname == old(self).hostname,
            r@ == numeric_view(
                NumericReply::ERR_NICKNAMEINUSE,
                Some(server_name@),
                "*"@,
                seq![match old(self).nickname { Some(n) => n@, None => Seq::empty() }],
                Some("Nickname is already in use"@),
            ),
    {
        let nick = match self.nickname.take() {
            Some(n) => n,
            None => String::new(),
        };
        let mut a: Vec<String> = Vec::new();
        a.push(nick);
        assert(strings_view(a@) =~= seq![match old(self).nickname { Some(n) => n@, None => Seq::empty() }]);
        NumericReply::ERR_NICKNAMEINUSE.into_prefixed_message("*", server_name, &a, Some("Nickname is already in use".to_owned()))
    }
}

impl ServerData {
    /// Registers a candidate: on success the user is in the registry and gets
    /// `RPL_WELCOME`; the candidate comes back when a name is missing, when its folded
    /// nickname is in use, or when no fresh identifier could be drawn.
    pub fn register(&mut self, user: NewUser) -> (r: Result<u128, (NewUser, InsertError)>)
        requires
            old(self).inv(),
        ensures
            final(self).inv(),
            final(self).channels == old(self).channels,
            r matches Ok(id) ==> user.ready() && !old(self).users.has_nick(fold(user.nickname->0@)),
            r matches Ok(id) ==> final(self).users.has_id(id) && !old(self).users.has_id(id),
            r matches Ok(id) ==> final(self).user(id).nickname == user.nickname->0,
            r matches Ok(id) ==> final(self).users.by_nick(fold(user.nickname->0@)) == Some(final(self).user(id)),
            r matches Ok(id) ==> crate::users::queue_view(final(self).user(id).queue@).len() == 1
                && crate::users::queue_view(final(self).user(id).queue@)[0].command == crate::numericreply::three_digits(1),
            r is Ok ==> forall|x: u128| old(self).users.has_id(x) ==> #[trigger] final(self).users.has_id(x),
            r matches Err((u, e)) ==> u == user && final(self).users.users@ == old(self).users.users@,
            r matches Err((u, e)) ==> (e == InsertError::Incomplete <==> !user.ready()),
            r matches Err((u, e)) ==> (e == InsertError::NickInUse <==> user.ready() && old(self).users.has_nick(fold(user.nickname->0@))),
    {
        let ghost before = *self;
        match self.users.insert(user) {
            Ok(id) => {
                proof {
                    let us = self.users.users@;
                    let n = us.len() - 1;
                    assert(us[n].id == id);
                    assert forall|x: u128| before.users.has_id(x) implies #[trigger] self.users.has_id(x) by {
                        let q = choose|q: int| 0 <= q < before.users.users@.len() && (#[trigger] before.users.users@[q]).id == x;
                        assert(us.drop_last()[q] == us[q]);
                    }
                    assert forall|i: int, j: int|
                        0 <= i < self.channels.chans@.len() && 0 <= j < self.channels.chans@[i].members@.len()
                            implies self.users.has_id(#[trigger] self.channels.chans@[i].members@[j].id) by {
                        assert(before.users.has_id(self.channels.chans@[i].members@[j].id));
                    }
                    ServerData::lemma_user_of(us, n);
                    self.users.lemma_by_nick(n);
                }
                let ghost mid = *self;
                let nick = self.nick_of(id);
                let full = self.fullname_of(id);
                let mut text = "Welcome to metallirc IRC Network ".to_owned();
                text.append(full.as_str());
                let no_args: Vec<String> = Vec::new();
                let txt = Some(text);
                let ghost mv = numeric_view(NumericReply::RPL_WELCOME, Some(self.settings.name@), self.user(id).nickname@, strings_view(no_args@), crate::messages::opt_view(txt));
                self.send_numeric(id, NumericReply::RPL_WELCOME, no_args, txt);
                proof {
                    let us = mid.users.users@;
                    let n = us.len() - 1;
                    ServerData::lemma_user_of(self.users.users@, n);
                    assert(self.users.users@[n].id == id);
                    assert(self.users.users@[n].nickname == us[n].nickname);
                    assert(us[n].queue@.len() == 0);
                    assert(crate::users::queue_view(us[n].queue@) =~= Seq::<crate::messages::MsgView>::empty());
                    assert(crate::users::queue_view(self.users.users@[n].queue@) == crate::users::queue_view(us[n].queue@).push(mv));
                    assert forall|x: u128| before.users.has_id(x) implies #[trigger] self.users.has_id(x) by {
                        assert(mid.users.has_id(x));
                    }
                    assert forall|i: int| 0 <= i < self.users.users@.len() implies crate::users::nick_key(#[trigger] self.users.users@[i]) == crate::users::nick_key(mid.users.users@[i]) by {}
                    self.users.lemma_by_nick(n);
                    assert(nick_key(self.users.users@[n]) == fold(user.nickname->0@));
                    assert(self.users.has_id(id));
                }
                Ok(id)
            },
            Err(e) => Err(e),
        }
    }
}

} // verus!
