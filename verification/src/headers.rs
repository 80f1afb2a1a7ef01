//! Normalisation of the response headers that a script hands over.

use vstd::prelude::*;

verus! {

/// What `str::to_lowercase` yields for a text.
pub uninterp spec fn lowercase_of(text: Seq<char>) -> Seq<char>;

/// The prefix of header names that scripts may not set.
pub open spec fn reserved_prefix() -> Seq<char> {
    "x-blueboat-"@
}

/// A header name that is reserved for the platform.
pub open spec fn is_reserved(name: Seq<char>) -> bool {
    reserved_prefix().is_prefix_of(name)
}

/// The name under which a header of a script is passed on: in lower case,
/// unless that is a reserved name, in which case the header is dropped.
pub open spec fn unified_name(name: Seq<char>) -> Option<Seq<char>> {
    if is_reserved(lowercase_of(name)) {
        None
    } else {
        Some(lowercase_of(name))
    }
}

/// `str::to_lowercase` of std: the lower-case text named above.
#[verifier::external_body]
fn to_lowercase(text: &str) -> (lower: String)
    ensures
        lower@ == lowercase_of(text@),
{
    text.to_lowercase()
}

/// `str::starts_with` of std, for a text pattern: whether `prefix` is a
/// prefix of `text`.
#[verifier::external_body]
fn starts_with(text: &str, prefix: &str) -> (r: bool)
    ensures
        r == prefix@.is_prefix_of(text@),
{
    text.starts_with(prefix)
}

/// The name under which the header `name` of a script is passed on, or `None`
/// where the header is dropped.
pub fn unify_header_name(name: &str) -> (unified: Option<String>)
    ensures
        match unified_name(name@) {
            Some(lower) => unified matches Some(text) && text@ == lower,
            None => unified is None,
        },
{
    let lower = to_lowercase(name);
    if starts_with(lower.as_str(), "x-blueboat-") {
        None
    } else {
        Some(lower)
    }
}

/// The names under which the headers `names` are passed on, one for one.
pub fn unify_header_names(names: &Vec<String>) -> (unified: Vec<Option<String>>)
    ensures
        unified@.len() == names@.len(),
        forall|i: int|
            0 <= i < names@.len() ==> match unified_name(#[trigger] names@[i]@) {
                Some(lower) => unified@[i] matches Some(text) && text@ == lower,
                None => unified@[i] is None,
            },
{
    let mut unified: Vec<Option<String>> = Vec::new();
    let mut i: usize = 0;
    while i < names.len()
        invariant
            i <= names@.len(),
            unified@.len() == i,
            forall|j: int|
                0 <= j < i ==> match unified_name(#[trigger] names@[j]@) {
                    Some(lower) => unified@[j] matches Some(text) && text@ == lower,
                    None => unified@[j] is None,
                },
        decreases names@.len() - i,
    {
        unified.push(unify_header_name(names[i].as_str()));
        i = i + 1;
    }
    unified
}

} // verus!
