//! Discovery of listening sockets and the processes that own them.
//!
//! The operating-system queries live outside this library; what stands here is
//! the logic that turns their raw observations into an ordered, filtered and
//! named report, each step with a contract proved by Verus.

pub mod text;
pub mod model;
pub mod index;
pub mod report;
pub mod scanner;
pub mod lsof;
