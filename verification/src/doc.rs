//! Document model for the session viewer.
//!
//! `Document` owns the session content. `Session` and `Entry` both wrap a
//! parsed JSON value, the source of truth for rendering, and expose
//! accessors over it.
use vstd::prelude::*;

use crate::json::{member, opt_str, text_of, Json};
use crate::text::char_slice;

verus! {

/// A session and its entries, in line order.
pub struct Document {
    pub session: Session,
    pub entries: Vec<Entry>,
}

/// The session row of a session, as a JSON object.
pub struct Session {
    pub id: String,
    pub value: Json,
}

/// One entry of a session.
pub struct Entry {
    pub value: Json,
}

/// The `type` of an entry value; empty when missing or not a string.
pub open spec fn entry_type_of(v: Json) -> Seq<char> {
    match text_of(member(v, "type"@)) {
        Some(t) => t,
        None => Seq::empty(),
    }
}

/// The outline label of an entry whose classified subtype is `subtype`:
/// the subtype when it is meaningful, otherwise the raw type.
pub open spec fn label_of(v: Json, subtype: Option<Seq<char>>) -> Seq<char> {
    match subtype {
        Some(sub) => if sub == "text"@ {
            entry_type_of(v)
        } else {
            sub
        },
        None => entry_type_of(v),
    }
}

impl Entry {
    /// The entry's `type`; empty when missing or not a string.
    pub fn entry_type(&self) -> (r: &str)
        ensures
            r@ == entry_type_of(self.value),
    {
        match opt_str(self.value.get("type")) {
            Some(t) => t,
            None => char_slice("", 0, 0),
        }
    }

    /// Outline label: `subtype` (the entry's classified subtype, such as
    /// `tool_use`, `thinking`, `tool_result` or `meta`) when it is
    /// meaningful, otherwise the raw type. A `text` subtype is not.
    pub fn label<'a>(&'a self, subtype: Option<&'a str>) -> (r: &'a str)
        ensures
            r@ == label_of(
                self.value,
                match subtype {
                    Some(s) => Some(s@),
                    None => None,
                },
            ),
    {
        match subtype {
            Some(sub) => if sub.eq("text") {
                self.entry_type()
            } else {
                sub
            },
            None => self.entry_type(),
        }
    }

    /// The entry's `message` member.
    pub fn message(&self) -> (r: Option<&Json>)
        ensures
            match r {
                Some(m) => member(self.value, "message"@) == Some(*m),
                None => member(self.value, "message"@) is None,
            },
    {
        self.value.get("message")
    }
}

} // verus!
