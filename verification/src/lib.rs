//! A task tracker's core, verified: each task lives in one text file with
//! a structured header and a free-form body. The library parses and
//! renders that format, resolves tasks by id or prefix, drives the status
//! lifecycle with its journal, and plans archive placement and the
//! reconciliation pass that keeps every file's directory in step with its
//! status. All reading and writing of the machine itself stays outside;
//! callers hand in file texts and carry out the planned moves.

use vstd::prelude::*;

pub mod cli;
pub mod codec;
pub mod config;
pub mod errors;
pub mod host;
pub mod lifecycle;
pub mod listing;
pub mod model;
pub mod numtext;
pub mod paths;
pub mod resolve;
pub mod store;
pub mod template;
pub mod textutil;

pub use model::Status;
