//! The settings file: the IRC connection, the log directory and the web
//! front end.
use vstd::prelude::*;

verus! {

/// All settings.
pub struct Setting {
    pub irc: Irc,
    pub log: Log,
    pub webs: Webs,
}

/// The IRC connection: server address, password, nick, channel, whether
/// the party roster answers, and how many log lines are kept.
pub struct Irc {
    pub server: String,
    pub password: String,
    pub nick: String,
    pub channel: String,
    pub mesi: bool,
    pub logsize: usize,
}

/// Where the daily log files are written.
pub struct Log {
    pub dir: String,
}

/// The web front end: address, login, and the certificate file (empty for
/// plain HTTP).
pub struct Webs {
    pub host: String,
    pub username: String,
    pub password: String,
    pub pem: String,
}

} // verus!
