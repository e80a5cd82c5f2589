//! An IRC channel companion: it keeps the recent log of a channel, answers
//! the server, runs the party roster commands, and decides what the web
//! front end answers.
pub mod text;
pub mod codec;
pub mod pattern;
pub mod irc;
pub mod mesi;
pub mod webs;
pub mod setting;
pub mod laws;
pub mod search;
