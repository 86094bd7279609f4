//! Names that become path components.
use crate::errors::{failure, EngineError, ErrorView};
use crate::text::{
    all_name_chars, contains_text, is_name_char, law_holding_a_text, own, starts_with_text,
};
use vstd::prelude::*;
use vstd::string::*;

verus! {

/// Letters, digits and hyphens, at least one.
pub open spec fn valid_name(name: Seq<char>) -> bool {
    name.len() > 0 && forall|i: int| 0 <= i < name.len() ==> is_name_char(#[trigger] name[i])
}

/// The error for a name that cannot be a path component.
pub open spec fn invalid_name(name: Seq<char>, kind: Seq<char>) -> ErrorView {
    failure(
        kind + " name '"@ + name
            + "' is invalid. Use letters, digits, and hyphens only (e.g. 'my-name')."@,
    )
}

/// Accepts a name that is safe as a component of a path. `kind` is the noun of
/// the error message.
pub fn validate_name_segment(name: &str, kind: &str) -> (r: Result<(), EngineError>)
    ensures
        r is Ok <==> valid_name(name@),
        r matches Err(e) ==> e@ == invalid_name(name@, kind@),
{
    if name.is_empty() || !all_name_chars(name) {
        let mut s = own(kind);
        s.append(" name '");
        s.append(name);
        s.append("' is invalid. Use letters, digits, and hyphens only (e.g. 'my-name').");
        return Err(EngineError::Failed(s));
    }
    Ok(())
}

/// A name is valid exactly where it is not empty and each part of it is: nothing but its
/// characters counts, wherever they stand.
pub proof fn law_parts_of_a_valid_name(a: Seq<char>, b: Seq<char>)
    ensures
        !valid_name(Seq::empty()),
        a.len() > 0 && b.len() > 0 ==> (valid_name(a + b) <==> valid_name(a) && valid_name(b)),
        a.contains('_') || a.contains('/') || a.contains('.') || a.contains(' ') ==> !valid_name(a),
{
    if a.len() > 0 && b.len() > 0 {
        let ab = a + b;
        if valid_name(ab) {
            assert forall|i: int| 0 <= i < a.len() implies is_name_char(#[trigger] a[i]) by {
                assert(ab[i] == a[i]);
            }
            assert forall|i: int| 0 <= i < b.len() implies is_name_char(#[trigger] b[i]) by {
                assert(ab[a.len() + i] == b[i]);
            }
        }
    }
}

/// The refusal of a name says which name it is, and of what kind of thing, and is no "does
/// not exist".
pub proof fn law_refusal_names_the_name(name: Seq<char>, kind: Seq<char>)
    ensures
        !invalid_name(name, kind).not_found,
        starts_with_text(invalid_name(name, kind).text, kind),
        contains_text(invalid_name(name, kind).text, name),
{
    let text = invalid_name(name, kind).text;
    let before = kind + " name '"@;
    let after =
        "' is invalid. Use letters, digits, and hyphens only (e.g. 'my-name')."@;
    assert(text =~= before + name + after);
    law_holding_a_text(text, name, before, after);
    assert(text =~= kind + (" name '"@ + name + after));
    law_holding_a_text(text, kind, kind, " name '"@ + name + after);
}

} // verus!
