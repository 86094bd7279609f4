//! Errors of the engine: a typed "does not exist", and everything else as a
//! message.
use crate::text::own;
use crate::text::{contains_text, law_holding_a_text, starts_with_text};
use vstd::prelude::*;
use vstd::string::*;

verus! {

/// Something named in a request does not exist.
#[derive(Debug, Clone, PartialEq, Eq)]
pub struct NotFound(pub String);

/// An error of the engine.
#[derive(Debug, Clone, PartialEq, Eq)]
pub enum EngineError {
    NotFound(NotFound),
    Failed(String),
}

/// What an error says.
#[verifier::ext_equal]
pub struct ErrorView {
    pub not_found: bool,
    pub text: Seq<char>,
}

impl View for EngineError {
    type V = ErrorView;

    open spec fn view(&self) -> ErrorView {
        match self {
            EngineError::NotFound(n) => ErrorView { not_found: true, text: n.0@ },
            EngineError::Failed(s) => ErrorView { not_found: false, text: s@ },
        }
    }
}

/// An error that is no "does not exist".
pub open spec fn failure(text: Seq<char>) -> ErrorView {
    ErrorView { not_found: false, text }
}

/// The text for a missing collection.
pub open spec fn missing_collection_text(name: Seq<char>) -> Seq<char> {
    "Collection '"@ + name + "' not found"@
}

/// The error for a missing collection.
pub open spec fn missing_collection(name: Seq<char>) -> ErrorView {
    ErrorView { not_found: true, text: missing_collection_text(name) }
}

/// The error for a missing vector space.
pub open spec fn missing_space(name: Seq<char>) -> ErrorView {
    ErrorView { not_found: true, text: "Vector space '"@ + name + "' not found"@ }
}

impl EngineError {
    /// The message of the error.
    pub fn message(&self) -> (r: String)
        ensures
            r@ == self@.text,
    {
        match self {
            EngineError::NotFound(n) => n.0.clone(),
            EngineError::Failed(s) => s.clone(),
        }
    }

    /// Whether this is a "does not exist".
    pub fn is_not_found(&self) -> (r: bool)
        ensures
            r == self@.not_found,
    {
        match self {
            EngineError::NotFound(_) => true,
            EngineError::Failed(_) => false,
        }
    }
}

/// A typed "does not exist".
pub fn not_found(what: String) -> (r: EngineError)
    ensures
        r@ == (ErrorView { not_found: true, text: what@ }),
{
    EngineError::NotFound(NotFound(what))
}

/// An error with a fixed message.
pub fn failed(what: &str) -> (r: EngineError)
    ensures
        r@ == failure(what@),
{
    EngineError::Failed(own(what))
}

/// The error for a missing collection.
pub fn collection_not_found(name: &str) -> (r: EngineError)
    ensures
        r@ == missing_collection(name@),
{
    let mut s = own("Collection '");
    s.append(name);
    s.append("' not found");
    not_found(s)
}

/// The error for a missing vector space.
pub fn space_not_found(name: &str) -> (r: EngineError)
    ensures
        r@ == missing_space(name@),
{
    let mut s = own("Vector space '");
    s.append(name);
    s.append("' not found");
    not_found(s)
}

/// A missing collection and a missing vector space are each told as a "does not exist"
/// that names what is missing; a failure is none, and says what it was given to say.
pub proof fn law_errors_say_what_is_missing(name: Seq<char>)
    ensures
        missing_collection(name).not_found && missing_space(name).not_found,
        contains_text(missing_collection(name).text, name),
        contains_text(missing_space(name).text, name),
        starts_with_text(missing_collection(name).text, "Collection '"@),
        starts_with_text(missing_space(name).text, "Vector space '"@),
        !failure(name).not_found && failure(name).text == name,
{
    let c = missing_collection(name).text;
    let v = missing_space(name).text;
    law_holding_a_text(c, name, "Collection '"@, "' not found"@);
    law_holding_a_text(v, name, "Vector space '"@, "' not found"@);
    assert(c =~= "Collection '"@ + (name + "' not found"@));
    assert(v =~= "Vector space '"@ + (name + "' not found"@));
    law_holding_a_text(c, name, "Collection '"@, name + "' not found"@);
    law_holding_a_text(v, name, "Vector space '"@, name + "' not found"@);
}

} // verus!
