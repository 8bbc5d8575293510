//! Numeric replies of the protocol, by their three-digit codes.
use vstd::prelude::*;
use crate::messages::{IRCMessage, MsgView, copy_strings, strings_view};
use crate::util::string_of;

verus! {

/// The numeric replies that the server emits.
#[allow(non_camel_case_types)]
#[derive(PartialEq, Eq, Structural, Clone, Copy, Debug)]
pub enum NumericReply {
    RPL_WELCOME,
    RPL_YOURHOST,
    RPL_CREATED,
    RPL_MYINFO,
    RPL_BOUNCE,
    RPL_UMODEIS,
    RPL_AWAY,
    RPL_UNAWAY,
    RPL_NOWAWAY,
    RPL_WHOISUSER,
    RPL_WHOISSERVER,
    RPL_WHOISOPERATOR,
    RPL_ENDOFWHO,
    RPL_WHOISIDLE,
    RPL_ENDOFWHOIS,
    RPL_WHOISCHANNELS,
    RPL_LIST,
    RPL_LISTEND,
    RPL_CHANNELMODEIS,
    RPL_CREATIONTIME,
    RPL_NOTOPIC,
    RPL_TOPIC,
    RPL_INVITING,
    RPL_WHOREPLY,
    RPL_NAMEREPLY,
    RPL_ENDOFNAMES,
    RPL_MOTD,
    RPL_MOTDSTART,
    RPL_ENDOFMOTD,
    RPL_YOUREOPER,
    RPL_TIME,
    ERR_NOSUCHNICK,
    ERR_NOSUCHCHANNEL,
    ERR_CANNOTSENDTOCHAN,
    ERR_NORECIPIENT,
    ERR_NOTEXTTOSEND,
    ERR_UNKNOWNCOMMAND,
    ERR_NONICKNAMEGIVEN,
    ERR_ERRONEUSNICKNAME,
    ERR_NICKNAMEINUSE,
    ERR_USERNOTINCHANNEL,
    ERR_NOTONCHANNEL,
    ERR_NOTREGISTERED,
    ERR_NEEDMOREPARAMS,
    ERR_ALREADYREGISTERED,
    ERR_PASSWDMISMATCH,
    ERR_CHANNELISFULL,
    ERR_UNKNOWNMODE,
    ERR_INVITEONLYCHAN,
    ERR_BANNEDFROMCHAN,
    ERR_BADCHANNELKEY,
    ERR_BADCHANMASK,
    ERR_NOCHANMODES,
    ERR_BANLISTFULL,
    ERR_NOPRIVILEGES,
    ERR_CHANOPRIVSNEEDED,
    ERR_UMODEUNKNOWNFLAG,
    ERR_USERSDONTMATCH,
}

/// The code of a numeric reply.
pub open spec fn code_of(r: NumericReply) -> u16 {
    match r {
        NumericReply::RPL_WELCOME => 1,
        NumericReply::RPL_YOURHOST => 2,
        NumericReply::RPL_CREATED => 3,
        NumericReply::RPL_MYINFO => 4,
        NumericReply::RPL_BOUNCE => 5,
        NumericReply::RPL_UMODEIS => 221,
        NumericReply::RPL_AWAY => 301,
        NumericReply::RPL_UNAWAY => 305,
        NumericReply::RPL_NOWAWAY => 306,
        NumericReply::RPL_WHOISUSER => 311,
        NumericReply::RPL_WHOISSERVER => 312,
        NumericReply::RPL_WHOISOPERATOR => 313,
        NumericReply::RPL_ENDOFWHO => 315,
        NumericReply::RPL_WHOISIDLE => 317,
        NumericReply::RPL_ENDOFWHOIS => 318,
        NumericReply::RPL_WHOISCHANNELS => 319,
        NumericReply::RPL_LIST => 322,
        NumericReply::RPL_LISTEND => 323,
        NumericReply::RPL_CHANNELMODEIS => 324,
        NumericReply::RPL_CREATIONTIME => 329,
        NumericReply::RPL_NOTOPIC => 331,
        NumericReply::RPL_TOPIC => 332,
        NumericReply::RPL_INVITING => 341,
        NumericReply::RPL_WHOREPLY => 352,
        NumericReply::RPL_NAMEREPLY => 353,
        NumericReply::RPL_ENDOFNAMES => 366,
        NumericReply::RPL_MOTD => 372,
        NumericReply::RPL_MOTDSTART => 375,
        NumericReply::RPL_ENDOFMOTD => 376,
        NumericReply::RPL_YOUREOPER => 381,
        NumericReply::RPL_TIME => 391,
        NumericReply::ERR_NOSUCHNICK => 401,
        NumericReply::ERR_NOSUCHCHANNEL => 403,
        NumericReply::ERR_CANNOTSENDTOCHAN => 404,
        NumericReply::ERR_NORECIPIENT => 411,
        NumericReply::ERR_NOTEXTTOSEND => 412,
        NumericReply::ERR_UNKNOWNCOMMAND => 421,
        NumericReply::ERR_NONICKNAMEGIVEN => 431,
        NumericReply::ERR_ERRONEUSNICKNAME => 432,
        NumericReply::ERR_NICKNAMEINUSE => 433,
        NumericReply::ERR_USERNOTINCHANNEL => 441,
        NumericReply::ERR_NOTONCHANNEL => 442,
        NumericReply::ERR_NOTREGISTERED => 451,
        NumericReply::ERR_NEEDMOREPARAMS => 461,
        NumericReply::ERR_ALREADYREGISTERED => 462,
        NumericReply::ERR_PASSWDMISMATCH => 464,
        NumericReply::ERR_CHANNELISFULL => 471,
        NumericReply::ERR_UNKNOWNMODE => 472,
        NumericReply::ERR_INVITEONLYCHAN => 473,
        NumericReply::ERR_BANNEDFROMCHAN => 474,
        NumericReply::ERR_BADCHANNELKEY => 475,
        NumericReply::ERR_BADCHANMASK => 476,
        NumericReply::ERR_NOCHANMODES => 477,
        NumericReply::ERR_BANLISTFULL => 478,
        NumericReply::ERR_NOPRIVILEGES => 481,
        NumericReply::ERR_CHANOPRIVSNEEDED => 482,
        NumericReply::ERR_UMODEUNKNOWNFLAG => 501,
        NumericReply::ERR_USERSDONTMATCH => 502,
    }
}

pub open spec fn digit(d: int) -> char {
    (d + 48) as char
}

/// The three decimal digits of a code below 1000.
pub open spec fn three_digits(n: int) -> Seq<char> {
    seq![digit(n / 100), digit((n / 10) % 10), digit(n % 10)]
}

/// The message of a numeric reply: the code as command, the target nickname then
/// `args` as arguments, and `text` as trailing argument.
pub open spec fn numeric_view(
    r: NumericReply,
    prefix: Option<Seq<char>>,
    nick: Seq<char>,
    args: Seq<Seq<char>>,
    text: Option<Seq<char>>,
) -> MsgView {
    MsgView {
        prefix,
        command: three_digits(code_of(r) as int),
        args: seq![nick] + args,
        suffix: text,
    }
}

impl NumericReply {
    /// The code of this reply.
    pub fn code(&self) -> (r: u16)
        ensures
            r == code_of(*self),
            r < 1000,
    {
        match self {
            NumericReply::RPL_WELCOME => 1,
            NumericReply::RPL_YOURHOST => 2,
            NumericReply::RPL_CREATED => 3,
            NumericReply::RPL_MYINFO => 4,
            NumericReply::RPL_BOUNCE => 5,
            NumericReply::RPL_UMODEIS => 221,
            NumericReply::RPL_AWAY => 301,
            NumericReply::RPL_UNAWAY => 305,
            NumericReply::RPL_NOWAWAY => 306,
            NumericReply::RPL_WHOISUSER => 311,
            NumericReply::RPL_WHOISSERVER => 312,
            NumericReply::RPL_WHOISOPERATOR => 313,
            NumericReply::RPL_ENDOFWHO => 315,
            NumericReply::RPL_WHOISIDLE => 317,
            NumericReply::RPL_ENDOFWHOIS => 318,
            NumericReply::RPL_WHOISCHANNELS => 319,
            NumericReply::RPL_LIST => 322,
            NumericReply::RPL_LISTEND => 323,
            NumericReply::RPL_CHANNELMODEIS => 324,
            NumericReply::RPL_CREATIONTIME => 329,
            NumericReply::RPL_NOTOPIC => 331,
            NumericReply::RPL_TOPIC => 332,
            NumericReply::RPL_INVITING => 341,
            NumericReply::RPL_WHOREPLY => 352,
            NumericReply::RPL_NAMEREPLY => 353,
            NumericReply::RPL_ENDOFNAMES => 366,
            NumericReply::RPL_MOTD => 372,
            NumericReply::RPL_MOTDSTART => 375,
            NumericReply::RPL_ENDOFMOTD => 376,
            NumericReply::RPL_YOUREOPER => 381,
            NumericReply::RPL_TIME => 391,
            NumericReply::ERR_NOSUCHNICK => 401,
            NumericReply::ERR_NOSUCHCHANNEL => 403,
            NumericReply::ERR_CANNOTSENDTOCHAN => 404,
            NumericReply::ERR_NORECIPIENT => 411,
            NumericReply::ERR_NOTEXTTOSEND => 412,
            NumericReply::ERR_UNKNOWNCOMMAND => 421,
            NumericReply::ERR_NONICKNAMEGIVEN => 431,
            NumericReply::ERR_ERRONEUSNICKNAME => 432,
            NumericReply::ERR_NICKNAMEINUSE => 433,
            NumericReply::ERR_USERNOTINCHANNEL => 441,
            NumericReply::ERR_NOTONCHANNEL => 442,
            NumericReply::ERR_NOTREGISTERED => 451,
            NumericReply::ERR_NEEDMOREPARAMS => 461,
            NumericReply::ERR_ALREADYREGISTERED => 462,
            NumericReply::ERR_PASSWDMISMATCH => 464,
            NumericReply::ERR_CHANNELISFULL => 471,
            NumericReply::ERR_UNKNOWNMODE => 472,
            NumericReply::ERR_INVITEONLYCHAN => 473,
            NumericReply::ERR_BANNEDFROMCHAN => 474,
            NumericReply::ERR_BADCHANNELKEY => 475,
            NumericReply::ERR_BADCHANMASK => 476,
            NumericReply::ERR_NOCHANMODES => 477,
            NumericReply::ERR_BANLISTFULL => 478,
            NumericReply::ERR_NOPRIVILEGES => 481,
            NumericReply::ERR_CHANOPRIVSNEEDED => 482,
            NumericReply::ERR_UMODEUNKNOWNFLAG => 501,
            NumericReply::ERR_USERSDONTMATCH => 502,
        }
    }

    /// The three-digit string of this reply's code.
    pub fn to_text(&self) -> (r: String)
        ensures
            r@ == three_digits(code_of(*self) as int),
    {
        let c = self.code();
        let mut v: Vec<char> = Vec::new();
        v.push(((c / 100) as u8 + 48) as char);
        v.push((((c / 10) % 10) as u8 + 48) as char);
        v.push(((c % 10) as u8 + 48) as char);
        assert(v@ =~= three_digits(c as int));
        string_of(v.as_slice())
    }

    /// The reply as a message to `nick`, without prefix.
    pub fn into_ircmessage(self, nick: &str, args: &Vec<String>, text: Option<String>) -> (r:
        IRCMessage)
        ensures
            r@ == numeric_view(self, None, nick@, strings_view(args@), crate::messages::opt_view(text)),
    {
        let mut all: Vec<String> = Vec::new();
        all.push(nick.to_owned());
        let mut rest = copy_strings(args);
        all.append(&mut rest);
        let m = IRCMessage { prefix: None, command: self.to_text(), args: all, suffix: text };
        assert(strings_view(m.args@) =~= seq![nick@] + strings_view(args@));
        m
    }

    /// The reply as a message to `nick`, sent from `prefix` (the server's name).
    pub fn into_prefixed_message(
        self,
        nick: &str,
        prefix: &str,
        args: &Vec<String>,
        text: Option<String>,
    ) -> (r: IRCMessage)
        ensures
            r@ == numeric_view(
                self,
                Some(prefix@),
                nick@,
                strings_view(args@),
                crate::messages::opt_view(text),
            ),
    {
        let mut m = self.into_ircmessage(nick, args, text);
        m.prefix = Some(prefix.to_owned());
        m
    }
}

} // verus!
