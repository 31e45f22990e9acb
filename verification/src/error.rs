use vstd::prelude::*;

verus! {

/// Why a request on a claim path or on a presentation was turned down.
#[derive(Clone, Copy, Debug, PartialEq, Eq, Structural)]
pub enum Error {
    /// The path string does not follow the path grammar.
    MalformedPath,
    /// The path is well formed but addresses nothing in the claim tree.
    PathNotFound,
    /// The policy does not let the holder hide what the path addresses.
    DisclosureForbidden,
    /// The presentation has been finalized and takes no further change.
    AlreadyFinalized,
    /// No verifier challenge has been bound to the presentation.
    MissingChallenge,
}

} // verus!
