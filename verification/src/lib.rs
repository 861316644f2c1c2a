//! Planning and bookkeeping for a parallel URL fetcher: which URLs become
//! jobs, where downloads land, how many jobs may run at once, and which
//! links a scanned page reports.

pub mod args;
pub mod count;
pub mod download;
pub mod error;
pub mod executor;
pub mod html;
pub mod list;
pub mod naming;
pub mod pattern;
pub mod scan;
pub mod sink;
pub mod transfer;
pub mod utils;
pub mod web;

use vstd::prelude::*;

verus! {

/// The `User-Agent` header that is sent where none is given.
pub const DEFAULT_USER_AGENT: &'static str = "fire-dl";

} // verus!
