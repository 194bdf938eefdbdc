//! Row-level logic of the session, entry and message tables: what each
//! table derives from the parsed lines of a session file.
pub mod entry;
pub mod message;
pub mod session;
