use vstd::prelude::*;

verus! {

/// The failures a query can surface. None of them is retried or swallowed
/// by this library; every one is returned to the caller.
#[derive(Debug, PartialEq, Eq)]
pub enum QueryError {
    /// Network or connection failure reported by the transport collaborator,
    /// carrying its description.
    Transport(String),
    /// The response body is not valid structured data.
    ResponseParse,
    /// The response's continuation field is present but is not a flat
    /// string-valued object.
    MalformedContinuation,
    /// A login reported success but lacked the expected identity fields.
    AuthParse,
    /// A page's top-level shape is not an object, so it cannot be merged
    /// into the accumulator.
    TopLevelShape,
}

} // verus!
