use metallirc::commands::{batch_names, Actor};
use metallirc::messages::{parse, IRCMessage};
use metallirc::modules::ModulesHandler;
use metallirc::server::{RecyclingAction, ServerData, ServerSettings};
use metallirc::users::NewUser;

fn server() -> ServerData {
    let settings = ServerSettings { name: "irc.test".to_string(), address: "127.0.0.1".to_string(), port: 6667, workers: 2 };
    ServerData::new(settings, vec![("root".to_string(), "secret".to_string())])
}

fn connect(srv: &mut ServerData, nick: &str, user: &str) -> Result<u128, NewUser> {
    let mut nu = NewUser::new("host.test".to_string());
    let r1 = nu.handle_message(&parse(&format!("NICK {}", nick)).unwrap(), "irc.test");
    assert!(r1.is_empty());
    let r2 = nu.handle_message(&parse(&format!("USER {} 0 * :{}", user, user)).unwrap(), "irc.test");
    assert!(r2.is_empty());
    assert!(nu.is_ready());
    srv.register(nu).map_err(|(u, _)| u)
}

fn run(srv: &mut ServerData, h: &ModulesHandler, id: u128, line: &str) -> RecyclingAction {
    let action = h.handle_command(srv, id, &parse(line).unwrap());
    if action != RecyclingAction::Nothing && action != RecyclingAction::Zombify {
        srv.recycle_user(id, action);
        return RecyclingAction::Nothing;
    }
    action
}

fn drain(srv: &mut ServerData, id: u128) -> Vec<String> {
    let i = srv.users.index_of_uuid(id).unwrap();
    let mut out = Vec::new();
    while let Some(m) = srv.users.users[i].next_queued_message() {
        out.push(m.to_protocol());
    }
    out
}

fn has_line(lines: &[String], part: &str) -> bool {
    lines.iter().any(|l| l.contains(part))
}

#[test]
fn registration_welcomes_and_indexes_the_user() {
    let mut srv = server();
    let id = connect(&mut srv, "alice", "alice").unwrap();
    let lines = drain(&mut srv, id);
    assert!(has_line(&lines, "001 alice :Welcome"));
    assert_eq!(srv.users.get_uuid_of_nickname("alice"), Some(id));
    assert_eq!(srv.users.get_uuid_of_nickname("ALICE"), Some(id));
    assert_eq!(srv.users.get_user_by_nickname("alice").unwrap().id, id);
}

#[test]
fn registration_with_a_taken_nick_is_refused() {
    let mut srv = server();
    let _alice = connect(&mut srv, "alice", "alice").unwrap();
    let mut nu = connect(&mut srv, "ALICE", "bob").err().unwrap();
    let reply = nu.report_unavailable_nick("irc.test");
    assert_eq!(reply.to_protocol(), ":irc.test 433 * ALICE :Nickname is already in use");
    assert!(!nu.is_ready());
    assert_eq!(srv.users.users.len(), 1);
}

#[test]
fn bad_nick_during_registration_is_answered() {
    let mut nu = NewUser::new("h".to_string());
    let r = nu.handle_message(&parse("NICK 9lives").unwrap(), "irc.test");
    assert_eq!(r.len(), 1);
    assert_eq!(r[0].command, "432");
    assert!(nu.nickname.is_none());
    let r2 = nu.handle_message(&parse("USER x").unwrap(), "irc.test");
    assert_eq!(r2[0].command, "461");
}

#[test]
fn secret_channel_is_hidden_from_list_and_names() {
    let mut srv = server();
    let h = ModulesHandler::init();
    let alice = connect(&mut srv, "alice", "alice").unwrap();
    let bob = connect(&mut srv, "bob", "bob").unwrap();
    run(&mut srv, &h, alice, "JOIN #hidden");
    run(&mut srv, &h, alice, "JOIN #open");
    run(&mut srv, &h, alice, "OPER root secret");
    run(&mut srv, &h, alice, "MODE #hidden +s");
    drain(&mut srv, bob);
    run(&mut srv, &h, bob, "LIST");
    let lines = drain(&mut srv, bob);
    assert!(has_line(&lines, " 323 "));
    assert!(!lines.iter().any(|l| l.contains(" 322 ") && l.contains("#hidden")));
    assert!(lines.iter().any(|l| l.contains(" 322 ") && l.contains("#open")));
    run(&mut srv, &h, bob, "NAMES #hidden");
    let lines = drain(&mut srv, bob);
    assert_eq!(lines.len(), 1);
    assert!(has_line(&lines, " 366 "));
    drain(&mut srv, alice);
    run(&mut srv, &h, alice, "LIST");
    let lines = drain(&mut srv, alice);
    assert!(lines.iter().any(|l| l.contains(" 322 ") && l.contains("#hidden")));
    run(&mut srv, &h, alice, "NAMES #hidden");
    let lines = drain(&mut srv, alice);
    assert!(lines.iter().any(|l| l.contains(" 353 ") && l.contains("alice")));
}

#[test]
fn away_user_triggers_reply_before_delivery() {
    let mut srv = server();
    let h = ModulesHandler::init();
    let alice = connect(&mut srv, "alice", "alice").unwrap();
    let bob = connect(&mut srv, "bob", "bob").unwrap();
    run(&mut srv, &h, alice, "AWAY :lunch");
    let lines = drain(&mut srv, alice);
    assert!(has_line(&lines, " 306 alice"));
    drain(&mut srv, bob);
    run(&mut srv, &h, bob, "PRIVMSG alice :hi");
    let bl = drain(&mut srv, bob);
    assert_eq!(bl, vec![":irc.test 301 bob alice :lunch".to_string()]);
    let al = drain(&mut srv, alice);
    assert_eq!(al, vec![":bob!bob@host.test PRIVMSG alice :hi".to_string()]);
    run(&mut srv, &h, alice, "AWAY");
    assert!(has_line(&drain(&mut srv, alice), " 305 alice"));
    run(&mut srv, &h, bob, "PRIVMSG alice :back?");
    assert!(drain(&mut srv, bob).is_empty());
}

#[test]
fn last_part_destroys_the_channel() {
    let mut srv = server();
    let h = ModulesHandler::init();
    let alice = connect(&mut srv, "alice", "alice").unwrap();
    let bob = connect(&mut srv, "bob", "bob").unwrap();
    assert_eq!(srv.channels.chans.len(), 0);
    run(&mut srv, &h, alice, "JOIN #tmp");
    assert!(srv.channels.has_chan("#tmp"));
    assert!(srv.channels.is_in_chan(alice, "#TMP"));
    run(&mut srv, &h, alice, "PART #tmp");
    assert!(!srv.channels.has_chan("#tmp"));
    assert_eq!(srv.channels.chans.len(), 0);
    run(&mut srv, &h, bob, "JOIN #tmp");
    let c = srv.channels.chan_handle("#tmp").unwrap();
    assert_eq!(c.member_count(), 1);
    assert!(c.has_member(bob));
    assert!(!c.members[0].mode.op);
}

#[test]
fn join_then_part_of_fresh_channel_restores_channels() {
    let mut srv = server();
    let h = ModulesHandler::init();
    let alice = connect(&mut srv, "alice", "alice").unwrap();
    run(&mut srv, &h, alice, "JOIN #keep");
    let before: Vec<String> = srv.channels.chans.iter().map(|c| c.name.clone()).collect();
    run(&mut srv, &h, alice, "JOIN #fresh");
    run(&mut srv, &h, alice, "PART #fresh");
    let after: Vec<String> = srv.channels.chans.iter().map(|c| c.name.clone()).collect();
    assert_eq!(before, after);
    assert!(srv.channels.is_in_chan(alice, "#keep"));
}

#[test]
fn part_of_a_channel_not_joined_is_refused() {
    let mut srv = server();
    let h = ModulesHandler::init();
    let alice = connect(&mut srv, "alice", "alice").unwrap();
    let bob = connect(&mut srv, "bob", "bob").unwrap();
    run(&mut srv, &h, alice, "JOIN #a");
    drain(&mut srv, bob);
    run(&mut srv, &h, bob, "PART #a");
    assert!(has_line(&drain(&mut srv, bob), " 442 bob #a"));
    run(&mut srv, &h, bob, "PART #nope");
    assert!(has_line(&drain(&mut srv, bob), " 403 bob #nope"));
    run(&mut srv, &h, bob, "JOIN nochan");
    assert!(has_line(&drain(&mut srv, bob), " 476 bob nochan"));
}

#[test]
fn nick_change_is_told_to_shared_channels_only() {
    let mut srv = server();
    let h = ModulesHandler::init();
    let alice = connect(&mut srv, "alice", "alice").unwrap();
    let bob = connect(&mut srv, "bob", "bob").unwrap();
    let carol = connect(&mut srv, "carol", "carol").unwrap();
    let dave = connect(&mut srv, "dave", "dave").unwrap();
    run(&mut srv, &h, alice, "JOIN #a,#b");
    run(&mut srv, &h, bob, "JOIN #a");
    run(&mut srv, &h, carol, "JOIN #b");
    for id in [alice, bob, carol, dave] {
        drain(&mut srv, id);
    }
    run(&mut srv, &h, alice, "NICK alyce");
    let expected = ":alice!alice@host.test NICK alyce".to_string();
    assert_eq!(drain(&mut srv, bob), vec![expected.clone()]);
    assert_eq!(drain(&mut srv, carol), vec![expected.clone()]);
    assert_eq!(drain(&mut srv, alice), vec![expected]);
    assert!(drain(&mut srv, dave).is_empty());
    assert_eq!(srv.users.get_uuid_of_nickname("alyce"), Some(alice));
    assert_eq!(srv.users.get_uuid_of_nickname("alice"), None);
}

#[test]
fn nick_change_to_a_taken_nick_is_refused() {
    let mut srv = server();
    let h = ModulesHandler::init();
    let alice = connect(&mut srv, "alice", "alice").unwrap();
    let _bob = connect(&mut srv, "bob", "bob").unwrap();
    drain(&mut srv, alice);
    run(&mut srv, &h, alice, "NICK BOB");
    let lines = drain(&mut srv, alice);
    assert_eq!(lines, vec![":irc.test 433 alice BOB :Nickname is already in use.".to_string()]);
    assert_eq!(srv.users.get_uuid_of_nickname("alice"), Some(alice));
    run(&mut srv, &h, alice, "NICK 1bad");
    assert!(has_line(&drain(&mut srv, alice), " 432 alice 1bad"));
}

#[test]
fn moderated_channel_refuses_unvoiced_members() {
    let mut srv = server();
    let h = ModulesHandler::init();
    let alice = connect(&mut srv, "alice", "alice").unwrap();
    let bob = connect(&mut srv, "bob", "bob").unwrap();
    run(&mut srv, &h, alice, "JOIN #m");
    run(&mut srv, &h, bob, "JOIN #m");
    run(&mut srv, &h, alice, "OPER root secret");
    assert!(has_line(&drain(&mut srv, alice), " 381 alice"));
    run(&mut srv, &h, alice, "MODE #m +m");
    drain(&mut srv, alice);
    drain(&mut srv, bob);
    run(&mut srv, &h, bob, "PRIVMSG #m :hello");
    assert_eq!(drain(&mut srv, bob), vec![":irc.test 404 bob #m :Cannot send to channel.".to_string()]);
    assert!(drain(&mut srv, alice).is_empty());
    run(&mut srv, &h, alice, "MODE #m +v bob");
    drain(&mut srv, alice);
    drain(&mut srv, bob);
    run(&mut srv, &h, bob, "PRIVMSG #m :hello");
    assert!(drain(&mut srv, bob).is_empty());
    assert_eq!(drain(&mut srv, alice), vec![":bob!bob@host.test PRIVMSG #m :hello".to_string()]);
}

#[test]
fn no_external_messages_refuses_non_members() {
    let mut srv = server();
    let h = ModulesHandler::init();
    let alice = connect(&mut srv, "alice", "alice").unwrap();
    let bob = connect(&mut srv, "bob", "bob").unwrap();
    run(&mut srv, &h, alice, "JOIN #n");
    run(&mut srv, &h, bob, "PRIVMSG #n :outside");
    assert!(has_line(&drain(&mut srv, alice), "PRIVMSG #n :outside"));
    run(&mut srv, &h, alice, "OPER root secret");
    run(&mut srv, &h, alice, "MODE #n +n");
    drain(&mut srv, alice);
    drain(&mut srv, bob);
    run(&mut srv, &h, bob, "PRIVMSG #n :outside");
    assert_eq!(drain(&mut srv, bob), vec![":irc.test 404 bob #n :Cannot send to channel.".to_string()]);
    assert!(drain(&mut srv, alice).is_empty());
}

#[test]
fn non_operator_cannot_change_channel_modes() {
    let mut srv = server();
    let h = ModulesHandler::init();
    let alice = connect(&mut srv, "alice", "alice").unwrap();
    run(&mut srv, &h, alice, "JOIN #c");
    drain(&mut srv, alice);
    run(&mut srv, &h, alice, "MODE #c +s");
    assert!(has_line(&drain(&mut srv, alice), " 482 alice #c"));
    assert!(!srv.channels.chan_handle("#c").unwrap().modes.get('s'));
    run(&mut srv, &h, alice, "MODE alice +o");
    assert!(!srv.users.get_user_by_nickname("alice").unwrap().modes.get('o'));
    run(&mut srv, &h, alice, "MODE alice +i");
    assert!(srv.users.get_user_by_nickname("alice").unwrap().modes.get('i'));
    drain(&mut srv, alice);
    run(&mut srv, &h, alice, "MODE alice");
    assert_eq!(drain(&mut srv, alice), vec![":irc.test 221 alice :+i".to_string()]);
}

#[test]
fn names_lines_fit_the_line_limit() {
    let names: Vec<String> = (0..200).map(|i| format!("user{}", i)).collect();
    let lines = batch_names(&names, 100);
    assert!(lines.len() > 1);
    for l in &lines {
        assert!(l.len() <= 100);
    }
    assert_eq!(lines.join(" "), names.join(" "));
    let mut srv = server();
    let h = ModulesHandler::init();
    let mut ids = Vec::new();
    for i in 0..60 {
        let id = connect(&mut srv, &format!("someone_with_a_long_nick_{}", i), "u").unwrap();
        run(&mut srv, &h, id, "JOIN #big");
        ids.push(id);
    }
    drain(&mut srv, ids[0]);
    run(&mut srv, &h, ids[0], "NAMES #big");
    let lines = drain(&mut srv, ids[0]);
    let names_lines: Vec<&String> = lines.iter().filter(|l| l.contains(" 353 ")).collect();
    assert!(names_lines.len() > 1);
    for l in &lines {
        assert!(l.len() <= 510);
    }
    assert!(lines.last().unwrap().contains(" 366 "));
}

#[test]
fn quit_tells_shared_channels_and_destroy_cleans_up() {
    let mut srv = server();
    let h = ModulesHandler::init();
    let alice = connect(&mut srv, "alice", "alice").unwrap();
    let bob = connect(&mut srv, "bob", "bob").unwrap();
    run(&mut srv, &h, alice, "JOIN #q,#solo");
    run(&mut srv, &h, bob, "JOIN #q");
    drain(&mut srv, bob);
    let action = run(&mut srv, &h, alice, "QUIT :bye");
    assert_eq!(action, RecyclingAction::Zombify);
    assert_eq!(drain(&mut srv, bob), vec![":alice!alice@host.test QUIT :bye".to_string()]);
    srv.destroy_user(alice);
    assert!(srv.users.get_user_by_uuid(alice).is_none());
    assert!(!srv.channels.has_chan("#solo"));
    assert_eq!(srv.channels.chan_handle("#q").unwrap().member_count(), 1);
    for c in &srv.channels.chans {
        assert!(c.member_count() > 0);
    }
}

#[test]
fn registry_invariants_hold_after_steps() {
    let mut srv = server();
    let h = ModulesHandler::init();
    let a = connect(&mut srv, "Ann", "a").unwrap();
    let b = connect(&mut srv, "bea", "b").unwrap();
    run(&mut srv, &h, a, "JOIN #x,#y");
    run(&mut srv, &h, b, "JOIN #y");
    run(&mut srv, &h, a, "NICK [ann]");
    for u in &srv.users.users {
        let found = srv.users.get_uuid_of_nickname(&u.nickname).unwrap();
        assert_eq!(found, u.id);
    }
    assert_eq!(srv.users.get_uuid_of_nickname("{ANN}"), Some(a));
    for c in &srv.channels.chans {
        assert!(c.member_count() > 0);
        for m in &c.members {
            assert!(srv.users.get_user_by_uuid(m.id).is_some());
            assert!(srv.channels.is_in_chan(m.id, &c.name));
        }
    }
}

#[test]
fn misc_commands() {
    let mut srv = server();
    let h = ModulesHandler::init();
    let a = connect(&mut srv, "ann", "a").unwrap();
    drain(&mut srv, a);
    run(&mut srv, &h, a, "PING tok");
    assert_eq!(drain(&mut srv, a), vec!["PONG irc.test tok".to_string()]);
    run(&mut srv, &h, a, "FROB");
    assert_eq!(drain(&mut srv, a), vec![":irc.test 421 ann FROB :Unknown command.".to_string()]);
    run(&mut srv, &h, a, "USER x 0 * :y");
    assert!(has_line(&drain(&mut srv, a), " 462 ann"));
    run(&mut srv, &h, a, "PRIVMSG");
    assert!(has_line(&drain(&mut srv, a), " 411 ann"));
    run(&mut srv, &h, a, "PRIVMSG ann");
    assert!(has_line(&drain(&mut srv, a), " 412 ann"));
    run(&mut srv, &h, a, "PRIVMSG nobody :x");
    assert!(has_line(&drain(&mut srv, a), " 401 ann nobody"));
    run(&mut srv, &h, a, "DIE");
    assert!(has_line(&drain(&mut srv, a), " 481 ann"));
    assert!(!srv.signal_shutdown);
    run(&mut srv, &h, a, "OPER root wrong");
    assert!(has_line(&drain(&mut srv, a), " 464 ann"));
    run(&mut srv, &h, a, "OPER root secret");
    run(&mut srv, &h, a, "DIE");
    assert!(srv.signal_shutdown);
    run(&mut srv, &h, a, "TIME");
    assert!(has_line(&drain(&mut srv, a), " 391 ann irc.test :"));
    run(&mut srv, &h, a, "JOIN #t");
    drain(&mut srv, a);
    run(&mut srv, &h, a, "TOPIC #t :new topic");
    assert_eq!(drain(&mut srv, a), vec![":ann!a@host.test TOPIC #t :new topic".to_string()]);
    run(&mut srv, &h, a, "TOPIC #t");
    assert_eq!(drain(&mut srv, a), vec![":irc.test 332 ann #t :new topic".to_string()]);
}

#[test]
fn text_message_pieces() {
    assert_eq!(Actor::Channel("#a".to_string()).into_text(), "#a");
    assert_eq!(Actor::User(1, "bob".to_string()).into_text(), "bob");
    let m: IRCMessage = parse("NOTICE bob :hi").unwrap();
    assert_eq!(m.command, "NOTICE");
}

#[test]
fn membership_is_seen_from_both_sides() {
    let mut srv = server();
    let h = ModulesHandler::init();
    let a = connect(&mut srv, "ann", "a").unwrap();
    let b = connect(&mut srv, "bea", "b").unwrap();
    run(&mut srv, &h, a, "JOIN #One,#two");
    run(&mut srv, &h, b, "JOIN #two");
    let mut of_a = srv.channels_of(a);
    of_a.sort();
    assert_eq!(of_a, vec!["#one".to_string(), "#two".to_string()]);
    assert_eq!(srv.channels_of(b), vec!["#two".to_string()]);
    for c in &srv.channels.chans {
        let key = metallirc::util::label_to_lower(&c.name);
        assert_eq!(srv.channels_of(a).contains(&key), c.has_member(a));
        assert_eq!(srv.channels_of(b).contains(&key), c.has_member(b));
    }
}

#[test]
fn who_and_whois_replies() {
    let mut srv = server();
    let h = ModulesHandler::init();
    let a = connect(&mut srv, "ann", "a").unwrap();
    let b = connect(&mut srv, "bea", "b").unwrap();
    run(&mut srv, &h, b, "JOIN #w");
    run(&mut srv, &h, b, "MODE bea +i");
    drain(&mut srv, a);
    run(&mut srv, &h, a, "WHOIS bea");
    let lines = drain(&mut srv, a);
    assert!(has_line(&lines, " 311 ann bea b host.test * :b"));
    assert!(has_line(&lines, " 319 ann bea :#w"));
    assert!(lines.last().unwrap().contains(" 318 ann bea "));
    run(&mut srv, &h, a, "WHOIS nobody");
    let lines = drain(&mut srv, a);
    assert!(has_line(&lines, " 401 ann nobody"));
    run(&mut srv, &h, a, "WHO *");
    let lines = drain(&mut srv, a);
    assert!(lines.iter().any(|l| l.contains(" 352 ") && l.contains(" ann ")));
    assert!(!lines.iter().any(|l| l.contains(" 352 ") && l.contains(" bea ")));
    assert!(lines.last().unwrap().contains(" 315 ann * "));
    run(&mut srv, &h, a, "JOIN #w");
    drain(&mut srv, a);
    run(&mut srv, &h, a, "WHO *");
    let lines = drain(&mut srv, a);
    assert!(lines.iter().any(|l| l.contains(" 352 ") && l.contains(" bea ")));
}

#[test]
fn locked_topic_needs_an_operator() {
    let mut srv = server();
    let h = ModulesHandler::init();
    let a = connect(&mut srv, "ann", "a").unwrap();
    let b = connect(&mut srv, "bea", "b").unwrap();
    run(&mut srv, &h, a, "JOIN #t");
    run(&mut srv, &h, b, "JOIN #t");
    run(&mut srv, &h, a, "OPER root secret");
    run(&mut srv, &h, a, "MODE #t +t");
    run(&mut srv, &h, a, "MODE #t +o ann");
    drain(&mut srv, b);
    run(&mut srv, &h, b, "TOPIC #t :mine");
    assert!(has_line(&drain(&mut srv, b), " 482 bea #t"));
    assert_eq!(srv.channels.chan_handle("#t").unwrap().get_topic(), "");
    run(&mut srv, &h, a, "TOPIC #t :ours");
    assert_eq!(srv.channels.chan_handle("#t").unwrap().get_topic(), "ours");
    assert!(has_line(&drain(&mut srv, b), "TOPIC #t :ours"));
    run(&mut srv, &h, b, "TOPIC #none :x");
    assert!(has_line(&drain(&mut srv, b), " 403 bea #none"));
    drain(&mut srv, a);
    run(&mut srv, &h, a, "MODE #t");
    let lines = drain(&mut srv, a);
    assert!(has_line(&lines, " 324 ann #t +t"));
    assert!(has_line(&lines, " 329 ann #t "));
}

#[test]
fn log_keeps_order() {
    let mut l = metallirc::logging::Logger::new(metallirc::logging::LogLevel::Error);
    l.log(metallirc::logging::LogLevel::Error, "first");
    l.log(metallirc::logging::LogLevel::Error, "second");
    assert!(l.pop().unwrap().ends_with("first"));
    assert!(l.pop().unwrap().ends_with("second"));
    assert!(l.pop().is_none());
}

#[test]
fn nick_without_argument_and_same_nick() {
    let mut srv = server();
    let h = ModulesHandler::init();
    let a = connect(&mut srv, "ann", "a").unwrap();
    drain(&mut srv, a);
    assert_eq!(h.handle_command(&mut srv, a, &parse("NICK").unwrap()), RecyclingAction::Nothing);
    assert!(has_line(&drain(&mut srv, a), " 431 ann"));
    assert_eq!(h.handle_command(&mut srv, a, &parse("NICK ann").unwrap()), RecyclingAction::Nothing);
    assert_eq!(h.handle_command(&mut srv, a, &parse("NICK :bob").unwrap()), RecyclingAction::ChangeNick("bob".to_string()));
    run(&mut srv, &h, a, "JOIN #x");
    let before: Vec<String> = srv.channels.chans.iter().map(|c| c.name.clone()).collect();
    run(&mut srv, &h, a, "JOIN #X");
    let after: Vec<String> = srv.channels.chans.iter().map(|c| c.name.clone()).collect();
    assert_eq!(before, after);
    assert_eq!(srv.channels.chan_handle("#x").unwrap().member_count(), 1);
}

#[test]
fn trailing_only_privmsg_has_no_recipient() {
    let mut srv = server();
    let h = ModulesHandler::init();
    let a = connect(&mut srv, "ann", "a").unwrap();
    drain(&mut srv, a);
    run(&mut srv, &h, a, "PRIVMSG :hello");
    assert!(has_line(&drain(&mut srv, a), " 411 ann PRIVMSG"));
}

#[test]
fn names_reply_header_and_byte_bound() {
    let mut srv = server();
    let h = ModulesHandler::init();
    let a = connect(&mut srv, "ann", "a").unwrap();
    run(&mut srv, &h, a, "JOIN #n");
    drain(&mut srv, a);
    run(&mut srv, &h, a, "NAMES #n");
    let lines = drain(&mut srv, a);
    assert_eq!(lines, vec![
        ":irc.test 353 ann = #n :ann".to_string(),
        ":irc.test 366 ann #n :End of NAMES list.".to_string(),
    ]);
    for l in &lines {
        assert!(l.as_bytes().len() <= 510);
    }
}
