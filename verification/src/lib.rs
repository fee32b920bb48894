//! Core of a terminal text editor and its surrounding judge tooling:
//! a merging set of dirty line intervals, a wrap-aware visual layout
//! cache, cursor and word navigation, a command engine, and the pure
//! decision logic of the judge / generator / runner utilities.

pub mod bridge;
pub mod cases;
pub mod chartype;
pub mod command;
pub mod completer;
pub mod dirty;
pub mod editor;
pub mod genconf;
pub mod measure;
pub mod ojconf;
pub mod ojreader;
pub mod runnercfg;
pub mod strutil;
pub mod suite;
pub mod textbuf;
pub mod textutil;
pub mod verdict;
pub mod width;
