//! Localpost: share files between machines of one local network.
//!
//! The verified core of the tool: the table of served files, the daemon's
//! answers to local and network requests, subnet enumeration, discovery
//! bookkeeping and the interpretation of replies by the command-line front end.
pub mod lex;
pub mod table;
pub mod config;
pub mod keys;
pub mod ipc;
pub mod tcp;
pub mod udp;
pub mod daemon;
pub mod explore;
pub mod commands;
