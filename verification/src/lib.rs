//! A verified core for a proof-assistant editor daemon.
//!
//! The library contains the pure logic of a daemon that sits between a text
//! editor and a batch proof assistant: a statement tokenizer, the XML value
//! codec of the backend protocol, a proof-state store with rewind
//! semantics, the command classifier, the response processor and the UI
//! command renderer.  All I/O (sockets, the backend child process, files)
//! lives outside the library and exchanges plain values with it.

pub mod bridge;
pub mod codespan;
pub mod command_parse;
pub mod commands;
pub mod range;
pub mod coqproject;
pub mod decode;
pub mod encode;
pub mod files;
pub mod processor;
pub mod protocol;
pub mod roundtrip;
pub mod session;
pub mod state;
pub mod strutil;
pub mod tokenizer;
pub mod ui;
pub mod xml;
