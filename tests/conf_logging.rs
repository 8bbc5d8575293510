use metallirc::conf::{ConfError, ServerConf};
use metallirc::logging::{format_line, LogLevel, Logger};

#[test]
fn config_values_are_checked() {
    let s = |x: &str| Some(x.to_string());
    let c = ServerConf::from_values(s("irc.test"), s("127.0.0.1"), Some(6667), s("Debug"), None, Some(4)).unwrap();
    assert_eq!(c.name, "irc.test");
    assert_eq!(c.port, 6667);
    assert_eq!(c.loglevel, LogLevel::Debug);
    assert_eq!(c.logfile, "./metallirc.log");
    assert_eq!(c.thread_handler_count, 4);
    let d = ServerConf::from_values(s("n"), s("a"), Some(1), None, s("/tmp/x.log"), None).unwrap();
    assert_eq!(d.loglevel, LogLevel::Warning);
    assert_eq!(d.thread_handler_count, 2);
    assert_eq!(ServerConf::from_values(None, s("a"), Some(1), None, None, None).err(), Some(ConfError::MissingServerName));
    assert_eq!(ServerConf::from_values(s("n"), None, Some(1), None, None, None).err(), Some(ConfError::MissingAddress));
    assert_eq!(ServerConf::from_values(s("n"), s("a"), Some(70000), None, None, None).err(), Some(ConfError::BadPort));
    assert_eq!(ServerConf::from_values(s("n"), s("a"), None, None, None, None).err(), Some(ConfError::BadPort));
    assert_eq!(ServerConf::from_values(s("n"), s("a"), Some(1), s("Loud"), None, None).err(), Some(ConfError::BadLogLevel));
    assert_eq!(ServerConf::from_values(s("n"), s("a"), Some(1), None, None, Some(0)).err(), Some(ConfError::BadWorkers));
}

#[test]
fn log_lines_are_formatted_and_filtered() {
    assert_eq!(format_line("01/Jan/2020:00:00:00 +0000", LogLevel::Info, "hello"), "[01/Jan/2020:00:00:00 +0000] Info: hello");
    let mut l = Logger::new(LogLevel::Warning);
    assert_eq!(l.pop(), None);
    l.log(LogLevel::Debug, "hidden");
    assert_eq!(l.pop(), None);
    l.log(LogLevel::Error, "shown");
    let line = l.pop().unwrap();
    assert!(line.starts_with('['));
    assert!(line.ends_with("] Error: shown"));
    let mut l2 = Logger::new(LogLevel::Debug);
    assert!(l2.pop().unwrap().ends_with("Info: Initialised logging with level Debug"));
}
