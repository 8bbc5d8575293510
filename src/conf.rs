//! Server configuration: the recognised options, their defaults and their validation.
use vstd::prelude::*;
use crate::logging::LogLevel;

verus! {

/// Number of worker tasks when the configuration gives none.
pub const DEFAULT_WORKERS: usize = 2;

/// Why a configuration is refused.
#[derive(PartialEq, Eq, Structural, Clone, Copy, Debug)]
pub enum ConfError {
    MissingServerName,
    MissingAddress,
    BadPort,
    BadLogLevel,
    BadWorkers,
}

/// The configuration of the server.
pub struct ServerConf {
    pub name: String,
    pub address: String,
    pub port: u16,
    pub loglevel: LogLevel,
    pub logfile: String,
    pub thread_handler_count: usize,
}

/// The level named by a configuration value, if any.
pub open spec fn level_named(s: Seq<char>) -> Option<LogLevel> {
    if s == "Debug"@ {
        Some(LogLevel::Debug)
    } else if s == "Info"@ {
        Some(LogLevel::Info)
    } else if s == "Warning"@ {
        Some(LogLevel::Warning)
    } else if s == "Error"@ {
        Some(LogLevel::Error)
    } else {
        None
    }
}

/// Reads a log level name.
pub fn parse_level(s: &String) -> (r: Option<LogLevel>)
    ensures
        r == level_named(s@),
{
    if *s == "Debug".to_owned() {
        Some(LogLevel::Debug)
    } else if *s == "Info".to_owned() {
        Some(LogLevel::Info)
    } else if *s == "Warning".to_owned() {
        Some(LogLevel::Warning)
    } else if *s == "Error".to_owned() {
        Some(LogLevel::Error)
    } else {
        None
    }
}

impl ServerConf {
    /// The defaults: no name, address or port; level `Warning`; log file
    /// `./metallirc.log`; two workers.
    pub fn default_conf() -> (r: ServerConf)
        ensures
            r.name@.len() == 0,
            r.address@.len() == 0,
            r.port == 0,
            r.loglevel == LogLevel::Warning,
            r.logfile@ == "./metallirc.log"@,
            r.thread_handler_count == DEFAULT_WORKERS,
    {
        ServerConf {
            name: String::new(),
            address: String::new(),
            port: 0,
            loglevel: LogLevel::Warning,
            logfile: "./metallirc.log".to_owned(),
            thread_handler_count: DEFAULT_WORKERS,
        }
    }

    /// Builds the configuration from the values found for each option: the server
    /// name, address and port are required, the port must fit 0..=65535, the level must
    /// name a level, and the number of workers must be at least one; absent optional
    /// values take their defaults.
    pub fn from_values(
        name: Option<String>,
        address: Option<String>,
        port: Option<i64>,
        loglevel: Option<String>,
        logfile: Option<String>,
        workers: Option<i64>,
    ) -> (r: Result<ServerConf, ConfError>)
        ensures
            name is None ==> r == Err::<ServerConf, ConfError>(ConfError::MissingServerName),
            name is Some && address is None ==> r == Err::<ServerConf, ConfError>(ConfError::MissingAddress),
            name is Some && address is Some && !(port matches Some(p) && 0 <= p <= 65535) ==> r == Err::<ServerConf, ConfError>(ConfError::BadPort),
            name is Some && address is Some && (port matches Some(p) && 0 <= p <= 65535)
                && (loglevel matches Some(l) && level_named(l@) is None) ==> r == Err::<ServerConf, ConfError>(ConfError::BadLogLevel),
            name is Some && address is Some && (port matches Some(p) && 0 <= p <= 65535)
                && !(loglevel matches Some(l) && level_named(l@) is None)
                && (workers matches Some(w) && !(1 <= w <= usize::MAX)) ==> r == Err::<ServerConf, ConfError>(ConfError::BadWorkers),
            r matches Ok(c) ==> {
                &&& name == Some(c.name)
                &&& address == Some(c.address)
                &&& port == Some(c.port as i64)
                &&& c.loglevel == match loglevel {
                    Some(l) => level_named(l@)->0,
                    None => LogLevel::Warning,
                }
                &&& c.logfile@ == match logfile {
                    Some(f) => f@,
                    None => "./metallirc.log"@,
                }
                &&& c.thread_handler_count as int == match workers {
                    Some(w) => w as int,
                    None => DEFAULT_WORKERS as int,
                }
            },
            (name is Some && address is Some && (port matches Some(p) && 0 <= p <= 65535)
                && !(loglevel matches Some(l) && level_named(l@) is None)
                && !(workers matches Some(w) && !(1 <= w <= usize::MAX))) ==> r is Ok,
    {
        let mut conf = ServerConf::default_conf();
        match name {
            Some(n) => conf.name = n,
            None => return Err(ConfError::MissingServerName),
        }
        match address {
            Some(a) => conf.address = a,
            None => return Err(ConfError::MissingAddress),
        }
        match port {
            Some(p) => {
                if p < 0 || p > 65535 {
                    return Err(ConfError::BadPort);
                }
                conf.port = p as u16;
            },
            None => return Err(ConfError::BadPort),
        }
        match loglevel {
            Some(l) => match parse_level(&l) {
                Some(level) => conf.loglevel = level,
                None => return Err(ConfError::BadLogLevel),
            },
            None => {},
        }
        match logfile {
            Some(f) => conf.logfile = f,
            None => {},
        }
        match workers {
            Some(w) => {
                if w < 1 || w as u64 > usize::MAX as u64 {
                    return Err(ConfError::BadWorkers);
                }
                conf.thread_handler_count = w as usize;
            },
            None => {},
        }
        Ok(conf)
    }
}

} // verus!
