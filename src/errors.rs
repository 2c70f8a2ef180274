use vstd::prelude::*;

verus! {

/// Everything that can go wrong in compiling a query, storing data or
/// running a pipeline.
#[derive(Debug)]
pub enum Error {
    /// The query text was rejected; the string says why.
    MalformedQuery(String),
    CannotPushToUnregisteredSource,
    CannotReadFromUnregisteredSource,
    FilterCannotProcessDataType,
    /// The query text holds a character that starts no token.
    UnexpectedCharacter(char),
}

/// `e` rejects a query for the reason `reason`.
pub open spec fn is_malformed(e: Error, reason: Seq<char>) -> bool {
    e matches Error::MalformedQuery(m) && m@ == reason
}

} // verus!
