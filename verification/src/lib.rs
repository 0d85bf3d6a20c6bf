//! Decision logic of a local backup daemon: where each backup goes, which dated
//! folders a retention pass removes, how a directory tree is mirrored, when a
//! monthly snapshot is due, and the control loop that ties these together.
//!
//! Nothing here touches the file system. The functions take plain values
//! (listings, trees, dates) and return plain values (destinations, steps,
//! actions); the program around the library performs them.

pub mod calendar;
pub mod config;
pub mod control;
pub mod labels;
pub mod layout;
pub mod mirror;
pub mod monitor;
pub mod names;
pub mod retention;
