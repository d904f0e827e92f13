//! NULL BBS: the logic of a dial-up style bulletin board host — telnet
//! negotiation, line editing, command parsing, the shared line table and
//! chat rooms — as plain data with verified contracts.

pub mod auth;
pub mod cli;
pub mod config;
pub mod db;
pub mod hub;
pub mod line;
pub mod logbuf;
pub mod session;
pub mod term;
pub mod text;
