//! Resolution of text values that may carry a URI scheme prefix
//! (`scheme:rest`): plain text passes through unchanged, prefixed text is
//! handed to the scheme registered under that name.
use vstd::prelude::*;

use crate::text::{chars_of, char_slice, push_str, string_views};

verus! {

broadcast use vstd::seq_lib::group_seq_properties;

/// Why a text value could not be resolved.
#[derive(Debug)]
pub enum TextResolveError {
    /// The text names a scheme that no resolver is registered for.
    UnsupportedScheme(String),
    /// The registered scheme failed; the message says why.
    SchemeResolve(String),
}

/// The human-readable message of an error.
pub open spec fn error_message(e: TextResolveError) -> Seq<char> {
    match e {
        TextResolveError::UnsupportedScheme(scheme) => "unsupported URI scheme '"@ + scheme@ + ":'"@,
        TextResolveError::SchemeResolve(msg) => msg@,
    }
}

impl TextResolveError {
    /// The error's message: `unsupported URI scheme '<scheme>:'`, or the
    /// scheme's own message.
    pub fn message(&self) -> (m: String)
        ensures
            m@ == error_message(*self),
    {
        match self {
            TextResolveError::UnsupportedScheme(scheme) => {
                let mut m = String::new();
                push_str(&mut m, "unsupported URI scheme '");
                push_str(&mut m, scheme.as_str());
                push_str(&mut m, ":'");
                m
            },
            TextResolveError::SchemeResolve(msg) => msg.clone(),
        }
    }
}

/// A resolver for one URI scheme.
pub trait TextResolverScheme {
    /// Whether `r` is a result this scheme may give for the full URI
    /// `input`. An implementation states its behaviour by defining this;
    /// the default claims nothing (every result is possible).
    open spec fn resolves(&self, input: Seq<char>, r: Result<String, TextResolveError>) -> bool {
        true
    }

    /// Resolve `input` (the full URI, including scheme prefix) to its
    /// final body. The scheme is dispatched by registered name but may
    /// be reused for multiple scheme prefixes.
    fn resolve(&self, input: &str) -> (r: Result<String, TextResolveError>)
        ensures
            self.resolves(input@, r),
    ;
}

/// May `c` start a scheme name (`[a-z]`)?
pub open spec fn is_scheme_start(c: char) -> bool {
    'a' <= c <= 'z'
}

/// May `c` continue a scheme name (`[a-z0-9+.-]`)?
pub open spec fn is_scheme_char(c: char) -> bool {
    ('a' <= c <= 'z') || ('0' <= c <= '9') || c == '+' || c == '.' || c == '-'
}

/// `s` begins with a scheme prefix `[a-z][a-z0-9+.-]*:` whose colon is at
/// position `k`.
pub open spec fn has_scheme_prefix(s: Seq<char>, k: int) -> bool {
    &&& 1 <= k < s.len()
    &&& s[k] == ':'
    &&& is_scheme_start(s[0])
    &&& forall|j: int| 1 <= j < k ==> is_scheme_char(#[trigger] s[j])
}

/// The scheme name that `s` starts with, if `s` starts with a
/// syntactically valid scheme prefix `[a-z][a-z0-9+.-]*:`.
pub open spec fn scheme_name_of(s: Seq<char>) -> Option<Seq<char>> {
    if exists|k: int| has_scheme_prefix(s, k) {
        Some(s.take(choose|k: int| has_scheme_prefix(s, k)))
    } else {
        None
    }
}

/// A scheme prefix ends at the first colon, so there is at most one.
proof fn lemma_scheme_prefix_unique(s: Seq<char>, k1: int, k2: int)
    requires
        has_scheme_prefix(s, k1),
        has_scheme_prefix(s, k2),
    ensures
        k1 == k2,
{
    if k1 < k2 {
        assert(is_scheme_char(s[k1]));
    } else if k2 < k1 {
        assert(is_scheme_char(s[k2]));
    }
}

/// Returns the URI scheme name from `s` if `s` starts with a
/// syntactically valid scheme prefix (`[a-z][a-z0-9+.-]*:`), otherwise
/// `None`.
pub fn scheme_name(s: &str) -> (r: Option<&str>)
    ensures
        match r {
            Some(name) => scheme_name_of(s@) == Some(name@),
            None => scheme_name_of(s@) is None,
        },
{
    let cs = chars_of(s);
    let mut i: usize = 0;
    while i < cs.len()
        invariant
            i <= cs@.len(),
            cs@ == s@,
            forall|j: int| 0 <= j < i ==> #[trigger] cs@[j] != ':',
            i > 0 ==> is_scheme_start(cs@[0]),
            forall|j: int| 1 <= j < i ==> is_scheme_char(#[trigger] cs@[j]),
        decreases cs.len() - i,
    {
        let c = cs[i];
        if c == ':' {
            if i == 0 {
                proof {
                    assert forall|k: int| !has_scheme_prefix(s@, k) by {
                        if has_scheme_prefix(s@, k) {
                            assert(cs@[0] != ':');
                        }
                    }
                }
                return None;
            }
            proof {
                assert(has_scheme_prefix(s@, i as int));
                let k = choose|k: int| has_scheme_prefix(s@, k);
                lemma_scheme_prefix_unique(s@, i as int, k);
            }
            return Some(char_slice(s, 0, i));
        }
        let ok = if i == 0 {
            'a' <= c && c <= 'z'
        } else {
            ('a' <= c && c <= 'z') || ('0' <= c && c <= '9') || c == '+' || c == '.' || c == '-'
        };
        if !ok {
            proof {
                assert forall|k: int| !has_scheme_prefix(s@, k) by {
                    if has_scheme_prefix(s@, k) {
                        if k < i {
                            assert(cs@[k] != ':');
                        } else if k == i {
                        } else {
                            if i > 0 {
                                assert(is_scheme_char(s@[i as int]));
                            }
                        }
                    }
                }
            }
            return None;
        }
        i = i + 1;
    }
    proof {
        assert forall|k: int| !has_scheme_prefix(s@, k) by {
            if has_scheme_prefix(s@, k) {
                assert(cs@[k] != ':');
            }
        }
    }
    None
}

/// Boxes `scheme` as a trait object and appends it to the list of
/// registered schemes.
///
/// Trusted: calls `Vec::push` with `Box::new(scheme)`. The length grows by
/// one and earlier elements stay; the new last element is the boxed
/// `scheme`, whose method calls dispatch to `S`'s implementation, so it
/// resolves exactly as `scheme` does.
#[verifier::external_body]
fn push_scheme<S: TextResolverScheme + 'static>(v: &mut Vec<Box<dyn TextResolverScheme>>, scheme: S)
    ensures
        final(v)@.len() == old(v)@.len() + 1,
        forall|j: int| 0 <= j < old(v)@.len() ==> #[trigger] final(v)@[j] == old(v)@[j],
        forall|input: Seq<char>, r: Result<String, TextResolveError>|
            #[trigger] final(v)@[old(v)@.len() as int].resolves(input, r) == scheme.resolves(
                input,
                r,
            ),
{
    v.push(Box::new(scheme));
}

/// Boxes `scheme` as a trait object and stores it at position `i`.
///
/// Trusted: assigns `Box::new(scheme)` through `Vec`'s `IndexMut`, which
/// panics only when `i` is out of bounds (excluded by `requires`). The
/// length stays, every other position keeps its element, and position `i`
/// resolves exactly as `scheme` does (calls dispatch to `S`'s
/// implementation).
#[verifier::external_body]
fn replace_scheme<S: TextResolverScheme + 'static>(
    v: &mut Vec<Box<dyn TextResolverScheme>>,
    i: usize,
    scheme: S,
)
    requires
        i < old(v)@.len(),
    ensures
        final(v)@.len() == old(v)@.len(),
        forall|j: int| 0 <= j < old(v)@.len() && j != i ==> #[trigger] final(v)@[j] == old(v)@[j],
        forall|input: Seq<char>, r: Result<String, TextResolveError>|
            #[trigger] final(v)@[i as int].resolves(input, r) == scheme.resolves(input, r),
{
    v[i] = Box::new(scheme);
}

/// The position of `n` among `names` (meaningful when `n` occurs there).
pub open spec fn position_of(names: Seq<Seq<char>>, n: Seq<char>) -> int {
    choose|i: int| 0 <= i < names.len() && names[i] == n
}

/// In a list without duplicates, a name's position is where it occurs.
proof fn lemma_position_of(names: Seq<Seq<char>>, n: Seq<char>, i: int)
    requires
        names.no_duplicates(),
        0 <= i < names.len(),
        names[i] == n,
    ensures
        position_of(names, n) == i,
{
    let j = position_of(names, n);
    assert(0 <= j < names.len() && names[j] == n);
    if j != i {
        assert(names[j] == names[i]);
    }
}

/// Resolves text values through a set of named URI schemes.
///
/// The registry is two parallel lists (names, and the scheme for each)
/// whose invariant says no name occurs twice. A `HashMap` with `String`
/// keys and trait-object values offers no specification to reason with,
/// not even its length after one insert.
pub struct TextResolver {
    names: Vec<String>,
    schemes: Vec<Box<dyn TextResolverScheme>>,
}

impl TextResolver {
    /// The names of the registered schemes, in registration order.
    pub closed spec fn names(&self) -> Seq<Seq<char>> {
        string_views(self.names@)
    }

    /// The set of registered scheme names.
    pub closed spec fn scheme_names(&self) -> Set<Seq<char>> {
        self.names().to_set()
    }

    /// Whether the scheme registered under `n` gives `r` for the full URI
    /// `input` (meaningful when `n` is one of `scheme_names()`).
    pub closed spec fn dispatches(
        &self,
        n: Seq<char>,
        input: Seq<char>,
        r: Result<String, TextResolveError>,
    ) -> bool {
        self.schemes@[position_of(self.names(), n)].resolves(input, r)
    }

    /// One scheme per name, and no name registered twice.
    #[verifier::type_invariant]
    closed spec fn well_formed(&self) -> bool {
        &&& self.names@.len() == self.schemes@.len()
        &&& self.names().no_duplicates()
    }

    /// A resolver with no schemes registered.
    pub fn new() -> (r: Self)
        ensures
            r.scheme_names() == Set::<Seq<char>>::empty(),
    {
        let r = TextResolver { names: Vec::new(), schemes: Vec::new() };
        assert(r.names() =~= Seq::<Seq<char>>::empty());
        r
    }

    /// Registers `scheme` under `name`, replacing any scheme registered
    /// under that name before; every other name keeps its scheme.
    pub fn with_scheme(self, name: &str, scheme: impl TextResolverScheme + 'static) -> (r: Self)
        ensures
            r.scheme_names() == self.scheme_names().insert(name@),
            forall|input: Seq<char>, res: Result<String, TextResolveError>|
                #[trigger] r.dispatches(name@, input, res) == scheme.resolves(input, res),
            forall|n: Seq<char>, input: Seq<char>, res: Result<String, TextResolveError>|
                self.scheme_names().contains(n) && n != name@ ==> #[trigger] r.dispatches(
                    n,
                    input,
                    res,
                ) == self.dispatches(n, input, res),
    {
        proof {
            use_type_invariant(&self);
        }
        let ghost old_names = self.names();
        let ghost old_schemes = self.schemes@;
        assert forall|n: Seq<char>, input: Seq<char>, res: Result<String, TextResolveError>|
            #[trigger] self.dispatches(n, input, res) == old_schemes[position_of(
                old_names,
                n,
            )].resolves(input, res) by {}
        let TextResolver { mut names, mut schemes } = self;
        let mut i: usize = 0;
        while i < names.len()
            invariant
                i <= names@.len(),
                names@.len() == schemes@.len(),
                string_views(names@) == old_names,
                schemes@ == old_schemes,
                old_names == self.names(),
                forall|n: Seq<char>, input: Seq<char>, res: Result<String, TextResolveError>|
                    #[trigger] self.dispatches(n, input, res) == old_schemes[position_of(
                        old_names,
                        n,
                    )].resolves(input, res),
                old_names.no_duplicates(),
                forall|j: int| 0 <= j < i ==> #[trigger] old_names[j] != name@,
            decreases names.len() - i,
        {
            if names[i].as_str().eq(name) {
                replace_scheme(&mut schemes, i, scheme);
                let r = TextResolver { names, schemes };
                proof {
                    assert(old_names[i as int] == name@);
                    assert(r.names() == old_names);
                    assert(r.scheme_names() =~= old_names.to_set().insert(name@));
                    assert forall|n: Seq<char>, input: Seq<char>, res: Result<String, TextResolveError>|
                        old_names.to_set().contains(n) && n != name@ implies #[trigger] r.dispatches(
                        n,
                        input,
                        res,
                    ) == old_schemes[position_of(old_names, n)].resolves(input, res) by {
                        let j = choose|j: int| 0 <= j < old_names.len() && old_names[j] == n;
                        lemma_position_of(old_names, n, j);
                        assert(r.schemes@[j] == old_schemes[j]);
                    }
                }
                return r;
            }
            i = i + 1;
        }
        let ghost before = names@;
        names.push(name.to_owned());
        push_scheme(&mut schemes, scheme);
        proof {
            assert forall|j: int| 0 <= j < names@.len() implies #[trigger] string_views(names@)[j]
                == old_names.push(name@)[j] by {
                if j < before.len() {
                    assert(names@[j] == before[j]);
                }
            }
            assert(string_views(names@) =~= old_names.push(name@));
            assert(!old_names.contains(name@));
        }
        let r = TextResolver { names, schemes };
        proof {
            let new_names = old_names.push(name@);
            assert(r.names() == new_names);
            assert(r.scheme_names() =~= old_names.to_set().insert(name@));
            assert forall|n: Seq<char>, input: Seq<char>, res: Result<String, TextResolveError>|
                old_names.to_set().contains(n) && n != name@ implies #[trigger] r.dispatches(
                n,
                input,
                res,
            ) == old_schemes[position_of(old_names, n)].resolves(input, res) by {
                let j = choose|j: int| 0 <= j < old_names.len() && old_names[j] == n;
                lemma_position_of(old_names, n, j);
                assert(new_names[j] == n);
                lemma_position_of(new_names, n, j);
                assert(r.schemes@[j] == old_schemes[j]);
            }
            lemma_position_of(new_names, name@, old_names.len() as int);
            assert forall|input: Seq<char>, res: Result<String, TextResolveError>|
                #[trigger] r.dispatches(name@, input, res) == scheme.resolves(input, res) by {
                assert(r.schemes@[old_names.len() as int].resolves(input, res) == scheme.resolves(
                    input,
                    res,
                ));
            }
        }
        r
    }

    /// Resolve `input`. If `input` has no recognized URI scheme prefix it
    /// is returned verbatim. If the scheme is registered, the full input is
    /// handed to that scheme and its result returned as it is; otherwise
    /// the result is `UnsupportedScheme` with the scheme's name.
    pub fn resolve(&self, input: String) -> (r: Result<String, TextResolveError>)
        ensures
            match scheme_name_of(input@) {
                None => r matches Ok(text) && text@ == input@,
                Some(n) => if self.scheme_names().contains(n) {
                    self.dispatches(n, input@, r)
                } else {
                    r matches Err(TextResolveError::UnsupportedScheme(s)) && s@ == n
                },
            },
    {
        proof {
            use_type_invariant(self);
        }
        let text = input.as_str();
        let scheme = match scheme_name(text) {
            Some(s) => s,
            None => {
                return Ok(input);
            },
        };
        let mut i: usize = 0;
        while i < self.names.len()
            invariant
                i <= self.names@.len(),
                self.names@.len() == self.schemes@.len(),
                self.names().no_duplicates(),
                text@ == input@,
                scheme_name_of(input@) == Some(scheme@),
                forall|j: int| 0 <= j < i ==> #[trigger] self.names()[j] != scheme@,
            decreases self.names.len() - i,
        {
            if self.names[i].as_str().eq(scheme) {
                proof {
                    assert(self.names()[i as int] == scheme@);
                    assert(self.scheme_names().contains(scheme@));
                    lemma_position_of(self.names(), scheme@, i as int);
                }
                return self.schemes[i].resolve(text);
            }
            i = i + 1;
        }
        proof {
            assert(!self.names().contains(scheme@));
        }
        Err(TextResolveError::UnsupportedScheme(scheme.to_owned()))
    }
}

} // verus!
