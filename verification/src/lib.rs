//! Lexicon-plugin tooling for the textcase recaser: source catalogue, source
//! payload parsers, and the builders that turn parsed records into prepared
//! lexicons.

pub mod text;
pub mod collections;
pub mod lexicon;
pub mod prepare;
pub mod sources;
pub mod cmd;
pub mod json;
pub mod xml;
pub mod lines;
pub mod archive;
pub mod paths;
pub mod manifest;
pub mod cli;
