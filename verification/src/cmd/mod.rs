//! The `textcase lexicon` subcommands: the two that only report (each returns
//! the text it prints), and the decisions of `fetch`.

pub mod fetch;
pub mod list_sources;
pub mod show_license;
