use metallirc::messages::{parse, write_message, IRCMessage, ParseError};
use metallirc::numericreply::NumericReply;

fn msg(prefix: Option<&str>, command: &str, args: &[&str], suffix: Option<&str>) -> IRCMessage {
    IRCMessage {
        prefix: prefix.map(|s| s.to_string()),
        command: command.to_string(),
        args: args.iter().map(|s| s.to_string()).collect(),
        suffix: suffix.map(|s| s.to_string()),
    }
}

#[test]
fn ircmessage_to_protocol() {
    let message = IRCMessage {
        prefix: Some("kitty".to_string()),
        command: "FOO".to_string(),
        args: vec!["bar".to_string(), "baz".to_string()],
        suffix: Some("I am a cake.".to_string()),
    };
    assert_eq!(message.to_protocol().as_str(), ":kitty FOO bar baz :I am a cake.");
}

#[test]
fn ircmessage_from_string() {
    let message = parse(":bl:ih BLAH blo_uh bl:uh bleh :I love cakes !! ::").unwrap();
    let expected = IRCMessage {
        prefix: Some("bl:ih".to_string()),
        command: "BLAH".to_string(),
        args: vec!["blo_uh".to_string(), "bl:uh".to_string(), "bleh".to_string()],
        suffix: Some("I love cakes !! ::".to_string()),
    };
    assert_eq!(message, expected);
}

#[test]
fn parse_of_serialised_message_gives_it_back() {
    let cases = vec![
        msg(Some("nick!user@host"), "PRIVMSG", &["#chan"], Some("hello :) there")),
        msg(None, "PING", &["token"], None),
        msg(None, "MODE", &["#a", "+o", "bob"], Some("")),
        msg(Some("srv"), "001", &["alice"], Some("Welcome")),
    ];
    for m in cases {
        let line = m.to_protocol();
        assert_eq!(parse(&line).unwrap(), m);
    }
}

#[test]
fn parse_fifteenth_argument_becomes_trailing() {
    let line = "CMD a1 a2 a3 a4 a5 a6 a7 a8 a9 a10 a11 a12 a13 a14 a15";
    let m = parse(line).unwrap();
    assert_eq!(m.command, "CMD");
    assert_eq!(m.args.len(), 14);
    assert_eq!(m.args[13], "a14");
    assert_eq!(m.suffix, Some("a15".to_string()));
    let m2 = parse("CMD a1 a2 a3 a4 a5 a6 a7 a8 a9 a10 a11 a12 a13 a14 a15 :end here").unwrap();
    assert_eq!(m2.args.len(), 14);
    assert_eq!(m2.suffix, Some("a15 end here".to_string()));
}

#[test]
fn parse_fourteen_arguments_stay_middle() {
    let m = parse("CMD a1 a2 a3 a4 a5 a6 a7 a8 a9 a10 a11 a12 a13 a14").unwrap();
    assert_eq!(m.args.len(), 14);
    assert_eq!(m.suffix, None);
}

#[test]
fn parse_errors() {
    assert_eq!(parse(""), Err(ParseError::Empty));
    assert_eq!(parse("PRIVMSG a\rb"), Err(ParseError::ForbiddenChar));
    assert_eq!(parse("PRIVMSG a\nb"), Err(ParseError::ForbiddenChar));
    assert_eq!(parse("PRIVMSG a\0b"), Err(ParseError::ForbiddenChar));
    assert_eq!(parse(": CMD"), Err(ParseError::BadPrefix));
    assert_eq!(parse(":prefix"), Err(ParseError::NoCommand));
    assert_eq!(parse(":prefix :text"), Err(ParseError::NoCommand));
    assert_eq!(parse(" :text"), Err(ParseError::NoCommand));
    let long = "A".repeat(511);
    assert_eq!(parse(&long), Err(ParseError::TooLong));
    let ok = "A".repeat(510);
    assert!(parse(&ok).is_ok());
}

#[test]
fn parse_collapses_repeated_spaces() {
    let m = parse("JOIN   #a    #b").unwrap();
    assert_eq!(m.command, "JOIN");
    assert_eq!(m.args, vec!["#a".to_string(), "#b".to_string()]);
}

#[test]
fn protocol_len_is_wire_length() {
    let m = msg(Some("kitty"), "FOO", &["bar", "baz"], Some("I am a cake."));
    assert_eq!(m.protocol_len(), ":kitty FOO bar baz :I am a cake.".len());
    let m2 = msg(None, "PING", &[], None);
    assert_eq!(m2.protocol_len(), 4);
}

#[test]
fn write_message_appends_crlf() {
    let m = msg(None, "PING", &["x"], None);
    assert_eq!(write_message(&m), "PING x\r\n");
}

#[test]
fn as_nparams_fuses_the_rest() {
    let m = msg(None, "USER", &["alice", "0", "*"], Some("Alice Liddell"));
    let p = m.as_nparams(4, 0).unwrap();
    assert_eq!(p, vec!["alice", "0", "*", "Alice Liddell"]);
    let p2 = m.as_nparams(2, 0).unwrap();
    assert_eq!(p2, vec!["alice".to_string(), "0 * Alice Liddell".to_string()]);
    assert_eq!(m.as_nparams(5, 0), None);
    assert_eq!(m.as_nparams(0, 0), Some(vec![]));
}

#[test]
fn numeric_reply_codes() {
    assert_eq!(NumericReply::RPL_WELCOME.to_text(), "001");
    assert_eq!(NumericReply::ERR_NICKNAMEINUSE.to_text(), "433");
    assert_eq!(NumericReply::ERR_UNKNOWNMODE.to_text(), "472");
    assert_eq!(NumericReply::ERR_CHANNELISFULL.to_text(), "471");
    let m = NumericReply::RPL_TOPIC.into_prefixed_message("bob", "srv", &vec!["#a".to_string()], Some("hi".to_string()));
    assert_eq!(m.to_protocol(), ":srv 332 bob #a :hi");
    let m2 = NumericReply::ERR_NOTEXTTOSEND.into_ircmessage("bob", &vec![], None);
    assert_eq!(m2.to_protocol(), "412 bob");
}

#[test]
fn decimal_counts() {
    use_decimal();
}

fn use_decimal() {
    assert_eq!(metallirc::commands::usize_to_string(0), "0");
    assert_eq!(metallirc::commands::usize_to_string(7), "7");
    assert_eq!(metallirc::commands::usize_to_string(123), "123");
    assert_eq!(metallirc::commands::usize_to_string(10), "10");
}

#[test]
fn parse_limit_counts_utf8_bytes() {
    let line = format!("PRIVMSG #a :{}", "é".repeat(250));
    assert_eq!(parse(&line), Err(ParseError::TooLong));
    let short = format!("PRIVMSG #a :{}", "é".repeat(200));
    assert!(parse(&short).is_ok());
}

#[test]
fn protocol_len_counts_bytes() {
    let m = IRCMessage {
        prefix: None,
        command: "PRIVMSG".to_string(),
        args: vec!["#a".to_string()],
        suffix: Some("é".to_string()),
    };
    assert_eq!(m.protocol_len(), m.to_protocol().len());
    assert_eq!(m.protocol_len(), "PRIVMSG #a :é".len());
}
