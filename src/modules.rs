//! The handler pipeline: the command handlers in registration order, and the dispatch
//! of a command to the last registered handler that takes it.
use vstd::prelude::*;
use crate::commands::{
    ping_done, privmsg_done, join_done, part_done, names_done, list_done, mode_done, away_done,
    topic_done, oper_done, nick_done, quit_done, time_done, die_done, user_done, who_done, whois_done,
    CmdDie, CmdJoin, CmdList, CmdMode, CmdNames, CmdNick, CmdOper, CmdPart, CmdPing,
    CmdPrivmsgOrNotice, CmdQuit, CmdTime, CmdTopic, CmdUser, CmdWho, CmdWhois, ModAway,
};
use crate::messages::IRCMessage;
use crate::numericreply::NumericReply;
use crate::server::{RecyclingAction, ServerData};

verus! {

/// A command handler of the pipeline.
pub enum Module {
    Ping(CmdPing),
    PrivmsgOrNotice(CmdPrivmsgOrNotice),
    Join(CmdJoin),
    Part(CmdPart),
    Names(CmdNames),
    List(CmdList),
    Mode(CmdMode),
    Away(ModAway),
    Topic(CmdTopic),
    Oper(CmdOper),
    Nick(CmdNick),
    Quit(CmdQuit),
    Time(CmdTime),
    Die(CmdDie),
    User(CmdUser),
    Who(CmdWho),
    Whois(CmdWhois),
}

/// The upper-cased command names that a handler takes.
pub open spec fn takes(m: Module, c: Seq<char>) -> bool {
    match m {
        Module::Ping(_) => c == "PING"@,
        Module::PrivmsgOrNotice(_) => c == "PRIVMSG"@ || c == "NOTICE"@,
        Module::Join(_) => c == "JOIN"@,
        Module::Part(_) => c == "PART"@,
        Module::Names(_) => c == "NAMES"@,
        Module::List(_) => c == "LIST"@,
        Module::Mode(_) => c == "MODE"@,
        Module::Away(_) => c == "AWAY"@,
        Module::Topic(_) => c == "TOPIC"@,
        Module::Oper(_) => c == "OPER"@,
        Module::Nick(_) => c == "NICK"@,
        Module::Quit(_) => c == "QUIT"@,
        Module::Time(_) => c == "TIME"@,
        Module::Die(_) => c == "DIE"@,
        Module::User(_) => c == "USER"@,
        Module::Who(_) => c == "WHO"@,
        Module::Whois(_) => c == "WHOIS"@,
    }
}

/// The recycling action that handler `m` returns when it takes `cmd` from user `id` in
/// state `srv`: QUIT asks for the user's destruction, NICK with a valid nickname other
/// than the current one asks for the change, every other command asks for nothing.
pub open spec fn action_ok(m: Module, srv: ServerData, id: u128, cmd: crate::messages::MsgView, r: RecyclingAction) -> bool {
    match m {
        Module::Quit(_) => r == RecyclingAction::Zombify,
        Module::Nick(_) => {
            let given: Option<Seq<char>> = if cmd.args.len() > 0 { Some(cmd.args[0]) } else { cmd.suffix };
            let n = given->0;
            if given is Some && crate::util::is_label(n) && n != srv.user(id).nickname@ {
                r is ChangeNick && r->ChangeNick_0@ == n
            } else {
                r == RecyclingAction::Nothing
            }
        },
        _ => r == RecyclingAction::Nothing,
    }
}

/// What handler `m` does when user `id` sends `cmd` in state `a`, leaving state `b` and
/// returning `r`: the handler's own contract.
pub open spec fn handled(m: Module, a: ServerData, b: ServerData, id: u128, cmd: IRCMessage, r: (bool, RecyclingAction)) -> bool {
    match m {
        Module::Ping(_) => ping_done(a, b, id, cmd, r),
        Module::PrivmsgOrNotice(_) => privmsg_done(a, b, id, cmd, r),
        Module::Join(_) => join_done(a, b, id, cmd, r),
        Module::Part(_) => part_done(a, b, id, cmd, r),
        Module::Names(_) => names_done(a, b, id, cmd, r),
        Module::List(_) => list_done(a, b, id, cmd, r),
        Module::Mode(_) => mode_done(a, b, id, cmd, r),
        Module::Away(_) => away_done(a, b, id, cmd, r),
        Module::Topic(_) => topic_done(a, b, id, cmd, r),
        Module::Oper(_) => oper_done(a, b, id, cmd, r),
        Module::Nick(_) => nick_done(a, b, id, cmd, r),
        Module::Quit(_) => quit_done(a, b, id, cmd, r),
        Module::Time(_) => time_done(a, b, id, cmd, r),
        Module::Die(_) => die_done(a, b, id, cmd, r),
        Module::User(_) => user_done(a, b, id, cmd, r),
        Module::Who(_) => who_done(a, b, id, cmd, r),
        Module::Whois(_) => whois_done(a, b, id, cmd, r),
    }
}

impl Module {
    /// Lets this handler try the command: `(true, action)` if it took it.
    pub fn handle_command(&self, srv: &mut ServerData, id: u128, cmd: &IRCMessage) -> (r: (bool, RecyclingAction))
        requires
            old(srv).inv(),
            old(srv).users.has_id(id),
        ensures
            final(srv).inv(),
            r.0 == takes(*self, crate::util::upper(cmd.command@)),
            !r.0 ==> *final(srv) == *old(srv) && r.1 == RecyclingAction::Nothing,
            r.0 ==> action_ok(*self, *old(srv), id, cmd@, r.1),
            handled(*self, *old(srv), *final(srv), id, *cmd, r),
    {
        match self {
            Module::Ping(h) => h.handle_command(srv, id, cmd),
            Module::PrivmsgOrNotice(h) => h.handle_command(srv, id, cmd),
            Module::Join(h) => h.handle_command(srv, id, cmd),
            Module::Part(h) => h.handle_command(srv, id, cmd),
            Module::Names(h) => h.handle_command(srv, id, cmd),
            Module::List(h) => h.handle_command(srv, id, cmd),
            Module::Mode(h) => h.handle_command(srv, id, cmd),
            Module::Away(h) => h.handle_command(srv, id, cmd),
            Module::Topic(h) => h.handle_command(srv, id, cmd),
            Module::Oper(h) => h.handle_command(srv, id, cmd),
            Module::Nick(h) => h.handle_command(srv, id, cmd),
            Module::Quit(h) => h.handle_command(srv, id, cmd),
            Module::Time(h) => h.handle_command(srv, id, cmd),
            Module::Die(h) => h.handle_command(srv, id, cmd),
            Module::User(h) => h.handle_command(srv, id, cmd),
            Module::Who(h) => h.handle_command(srv, id, cmd),
            Module::Whois(h) => h.handle_command(srv, id, cmd),
        }
    }
}

/// The handler pipeline.
pub struct ModulesHandler {
    pub modules: Vec<Module>,
}

impl ModulesHandler {
    /// The pipeline with every handler of the server.
    pub fn init() -> (r: ModulesHandler)
        ensures
            r.modules@.len() == 17,
    {
        let mut modules: Vec<Module> = Vec::new();
        modules.push(Module::Ping(CmdPing));
        modules.push(Module::PrivmsgOrNotice(CmdPrivmsgOrNotice));
        modules.push(Module::Join(CmdJoin));
        modules.push(Module::Part(CmdPart));
        modules.push(Module::Names(CmdNames));
        modules.push(Module::List(CmdList));
        modules.push(Module::Mode(CmdMode));
        modules.push(Module::Away(ModAway::init()));
        modules.push(Module::Topic(CmdTopic));
        modules.push(Module::Oper(CmdOper));
        modules.push(Module::Nick(CmdNick));
        modules.push(Module::Quit(CmdQuit));
        modules.push(Module::Time(CmdTime));
        modules.push(Module::Die(CmdDie));
        modules.push(Module::User(CmdUser));
        modules.push(Module::Who(CmdWho));
        modules.push(Module::Whois(CmdWhois));
        ModulesHandler { modules }
    }

    /// Tries the handlers from the last registered to the first, stopping at the first
    /// that takes the command, and returns its recycling action. When none takes it, the
    /// user gets `ERR_UNKNOWNCOMMAND` and nothing else changes.
    pub fn handle_command(&self, srv: &mut ServerData, id: u128, cmd: &IRCMessage) -> (r: RecyclingAction)
        requires
            old(srv).inv(),
            old(srv).users.has_id(id),
        ensures
            final(srv).inv(),
            (forall|k: int| 0 <= k < self.modules@.len() ==> !takes(#[trigger] self.modules@[k], crate::util::upper(cmd.command@)))
                ==> r == RecyclingAction::Nothing && final(srv).channels == old(srv).channels && exists|m: crate::messages::MsgView|
                crate::server::queues_pushed(old(srv).users.users@, final(srv).users.users@, set![id], m)
                    && m.command == crate::numericreply::three_digits(421)
                    && m.args == seq![old(srv).user(id).nickname@, cmd.command@],
            forall|k: int| 0 <= k < self.modules@.len() && takes(#[trigger] self.modules@[k], crate::util::upper(cmd.command@))
                && (forall|j: int| k < j < self.modules@.len() ==> !takes(#[trigger] self.modules@[j], crate::util::upper(cmd.command@)))
                ==> action_ok(self.modules@[k], *old(srv), id, cmd@, r)
                    && handled(self.modules@[k], *old(srv), *final(srv), id, *cmd, (true, r)),
    {
        let mut k: usize = self.modules.len();
        while k > 0
            invariant
                k <= self.modules@.len(),
                *srv == *old(srv),
                srv.inv(),
                srv.users.has_id(id),
                forall|j: int| k <= j < self.modules@.len() ==> !takes(#[trigger] self.modules@[j], crate::util::upper(cmd.command@)),
            decreases k,
        {
            k = k - 1;
            let (done, action) = self.modules[k].handle_command(srv, id, cmd);
            if done {
                proof {
                    assert forall|q: int| 0 <= q < self.modules@.len() && takes(#[trigger] self.modules@[q], crate::util::upper(cmd.command@))
                        && (forall|j: int| q < j < self.modules@.len() ==> !takes(#[trigger] self.modules@[j], crate::util::upper(cmd.command@)))
                        implies action_ok(self.modules@[q], *old(srv), id, cmd@, action)
                            && handled(self.modules@[q], *old(srv), *srv, id, *cmd, (true, action)) by {
                        if q < k {
                            assert(takes(self.modules@[k as int], crate::util::upper(cmd.command@)));
                        }
                    }
                }
                return action;
            }
        }
        let mut a: Vec<String> = Vec::new();
        a.push(cmd.command.clone());
        let txt = Some("Unknown command.".to_owned());
        let ghost mv = crate::numericreply::numeric_view(
            NumericReply::ERR_UNKNOWNCOMMAND,
            Some(srv.settings.name@),
            srv.user(id).nickname@,
            crate::messages::strings_view(a@),
            crate::messages::opt_view(txt),
        );
        srv.send_numeric(id, NumericReply::ERR_UNKNOWNCOMMAND, a, txt);
        assert(crate::server::queues_pushed(old(srv).users.users@, srv.users.users@, set![id], mv));
        assert(mv.args =~= seq![old(srv).user(id).nickname@, cmd.command@]);
        RecyclingAction::Nothing
    }
}

} // verus!
