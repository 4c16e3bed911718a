//! Share duplicate loose objects of Git repositories through hardlinks.
//!
//! The library covers the logic of the tool: recognising loose-object
//! files in an object store, grouping byte-identical copies per device,
//! choosing which copy survives, the crash-safe hardlink replacement
//! protocol, and the bookkeeping around it.  All filesystem access is
//! left to the caller, which feeds plain values in and carries actions
//! out.

pub mod cli;
pub mod fsck;
pub mod hardlink;
pub mod i18n;
pub mod lock;
pub mod scanner;
pub mod stats;
pub mod text;
