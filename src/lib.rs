//! A self-update client: the decisions of one update check, the version
//! record and its date format, and the reading of a downloaded archive.

pub mod date;
pub mod version;
pub mod archive;
pub mod update;
