//! The decision core of a recursive file finder.
//!
//! A search looks through directory trees for files whose base names match
//! any of a list of regular expressions. This library holds every decision
//! of that search: which patterns are acceptable, in which order paths are
//! visited, which paths are reported, and when the whole search fails. It
//! never touches the file system itself: the caller inspects one path at a
//! time and hands back what it saw.

pub mod pattern;
pub mod model;
pub mod search;
pub mod laws;
pub mod trace;
pub mod reach;
