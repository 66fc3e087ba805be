use vstd::prelude::*;
use std::str::FromStr;
use uuid::Uuid;

verus! {

/// The UUID that the text `s` denotes, when it denotes one.
pub uninterp spec fn parsed_uuid(s: Seq<char>) -> Option<u128>;

/// The lower-case hyphenated text of the UUID `u`.
pub uninterp spec fn hyphenated(u: u128) -> Seq<char>;

/// Relies on `Uuid::from_str` and `Uuid::as_u128`: the UUID written in `s`.
#[verifier::external_body]
fn uuid_parse(s: &str) -> (r: Option<u128>)
    ensures
        r == parsed_uuid(s@),
{
    match Uuid::from_str(s) {
        Ok(u) => Some(u.as_u128()),
        Err(_) => None,
    }
}

/// Relies on `Uuid::from_u128` and the `Display` of `Uuid`: the hyphenated
/// lower-case form, 36 characters long.
#[verifier::external_body]
fn uuid_text(u: u128) -> (r: String)
    ensures
        r@ == hyphenated(u),
        r@.len() == 36,
{
    Uuid::from_u128(u).to_string()
}

/// Relies on `str::split_once`: the text before the first `_` and the text after it.
#[verifier::external_body]
fn split_at_underscore(s: &str) -> (r: Option<(String, String)>)
    ensures
        r is None <==> !s@.contains('_'),
        r matches Some(p) ==> s@ == p.0@ + seq!['_'] + p.1@ && !p.0@.contains('_'),
{
    s.split_once('_').map(|(a, b)| (a.to_string(), b.to_string()))
}

/// Position of the first `_` in `s`.
pub open spec fn first_underscore(s: Seq<char>) -> int {
    choose|i: int| 0 <= i < s.len() && s[i] == '_' && forall|j: int| 0 <= j < i ==> s[j] != '_'
}

/// The text of `s` before its first `_`, or all of it.
pub open spec fn first_piece(s: Seq<char>) -> Seq<char> {
    if s.contains('_') {
        s.take(first_underscore(s))
    } else {
        s
    }
}

/// The text of `s` after its first `_`.
pub open spec fn after_first(s: Seq<char>) -> Seq<char> {
    s.skip(first_underscore(s) + 1)
}

/// Why a composite id was refused.
#[derive(Debug, Clone, Copy, PartialEq, Eq, Structural)]
pub enum IdError {
    /// The id holds no `_`.
    MissingSeparator,
    /// A part is no UUID.
    InvalidUuid,
}

proof fn lemma_split(s: Seq<char>, a: Seq<char>, b: Seq<char>)
    requires
        s == a + seq!['_'] + b,
        !a.contains('_'),
    ensures
        s.contains('_'),
        first_underscore(s) == a.len(),
        first_piece(s) == a,
        after_first(s) == b,
{
    let i = a.len() as int;
    assert(s[i] == '_');
    assert forall|j: int| 0 <= j < i implies s[j] != '_' by {
        assert(s[j] == a[j]);
    }
    let f = first_underscore(s);
    if f < i {
        assert(s[f] == a[f]);
    }
    assert(s.take(i) =~= a);
    assert(s.skip(i + 1) =~= b);
}

/// What `ids_from_str` returns on `s`.
pub open spec fn ids_from_str_spec(s: Seq<char>) -> Result<(u128, u128), IdError> {
    if !s.contains('_') {
        Err(IdError::MissingSeparator)
    } else {
        match (parsed_uuid(first_piece(s)), parsed_uuid(first_piece(after_first(s)))) {
            (Some(p), Some(q)) => Ok((p, q)),
            _ => Err(IdError::InvalidUuid),
        }
    }
}

/// Splits a composite id `<process>_<product>` into its two UUIDs: the text
/// before the first `_`, and the text after it up to the next `_`.
pub fn ids_from_str(ids: &str) -> (r: Result<(u128, u128), IdError>)
    ensures
        r == ids_from_str_spec(ids@),
{
    let (first, rest) = match split_at_underscore(ids) {
        Some(parts) => parts,
        None => {
            return Err(IdError::MissingSeparator);
        },
    };
    proof {
        lemma_split(ids@, first@, rest@);
    }
    let second = match split_at_underscore(rest.as_str()) {
        Some(parts) => {
            proof {
                lemma_split(rest@, parts.0@, parts.1@);
            }
            parts.0
        },
        None => rest,
    };
    match (uuid_parse(first.as_str()), uuid_parse(second.as_str())) {
        (Some(p), Some(q)) => Ok((p, q)),
        _ => Err(IdError::InvalidUuid),
    }
}

/// The text of the product UUID of a composite id, in hyphenated form.
pub fn product_text(ids: &str) -> (r: Result<String, IdError>)
    ensures
        r is Ok <==> ids_from_str_spec(ids@) is Ok,
        r matches Ok(t) ==> ids_from_str_spec(ids@) matches Ok(pq) && t@ == hyphenated(pq.1),
        r matches Err(e) ==> ids_from_str_spec(ids@) == Err::<(u128, u128), IdError>(e),
{
    match ids_from_str(ids) {
        Ok((_, q)) => Ok(uuid_text(q)),
        Err(e) => Err(e),
    }
}

} // verus!
