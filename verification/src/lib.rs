use vstd::prelude::*;

pub mod author;
pub mod config;
pub mod datetime;
pub mod doc;
pub mod home;
pub mod human;
pub mod json;
pub mod outline;
pub mod print_format;
pub mod query_tool;
pub mod resolve;
pub mod session_reader;
pub mod tables;
pub mod target_content;
pub mod text;
pub mod text_resolve;
pub mod uuid;

verus! {

} // verus!
