//! A library for viewing and logging a live chat stream.
//!
//! A single inbound stream of decoded chat events is duplicated losslessly to
//! two independently paced consumers: a colorized pretty-printer and a raw
//! protocol-text logger. A replay parser can stand in for the live source by
//! decoding previously captured protocol text line by line.
//!
//! The stream plumbing itself (network transport, async channels, process
//! startup) lives outside this crate; here are the parts whose behaviour is
//! specified and proved: badge decoding, line rendering, raw logging, the
//! fan-out discipline, the replay decoding loop, and the orchestration
//! decisions.

pub mod args;
pub mod badges;
pub mod event;
pub mod logging;
pub mod pretty_print;
pub mod replay;
pub mod setup;
pub mod sink;
pub mod splitter;
pub mod tags;
