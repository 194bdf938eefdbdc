//! Authorship labels for notes written from the command line.
use vstd::prelude::*;

use crate::text::push_str;

verus! {

/// `user:<name>`, where the name is the explicit flag if given, else the
/// `$USER` value, else `unknown`.
pub open spec fn author_label(user_flag: Option<Seq<char>>, env_user: Option<Seq<char>>) -> Seq<
    char,
> {
    "user:"@ + match user_flag {
        Some(u) => u,
        None => match env_user {
            Some(u) => u,
            None => "unknown"@,
        },
    }
}

/// The author label for a note. `env_user` is the value of `$USER`, which
/// is consulted only when no user flag is given.
pub fn resolve_author(user_flag: Option<String>, env_user: Option<String>) -> (a: String)
    ensures
        a@ == author_label(
            match user_flag {
                Some(u) => Some(u@),
                None => None,
            },
            match env_user {
                Some(u) => Some(u@),
                None => None,
            },
        ),
{
    let mut a = String::new();
    push_str(&mut a, "user:");
    match user_flag {
        Some(u) => push_str(&mut a, u.as_str()),
        None => match env_user {
            Some(u) => push_str(&mut a, u.as_str()),
            None => push_str(&mut a, "unknown"),
        },
    }
    a
}

} // verus!
