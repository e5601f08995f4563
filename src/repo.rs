//! Kinds of repositories and the revision hash reported for them.
use vstd::prelude::*;

verus! {

/// What a repository holds.
#[derive(Copy, Clone, Debug, PartialEq, Eq, Structural)]
pub enum RepoKind {
    Model,
    Dataset,
}

/// How much metadata a repository description carries.
#[derive(Copy, Clone, Debug, PartialEq, Eq, Structural)]
pub enum RepoJsonFlavor {
    Minimal,
    Rich,
}

/// The commit hash reported for `revision`: `fakesha-<revision>`, or
/// `fakesha1234567890` when none is given.
pub fn fake_sha(revision: Option<&str>) -> (r: String)
    ensures
        r@ == match revision {
            Some(x) => "fakesha-"@ + x@,
            None => "fakesha1234567890"@,
        },
{
    match revision {
        Some(x) => {
            let mut s = String::from_str("fakesha-");
            s.append(x);
            s
        },
        None => String::from_str("fakesha1234567890"),
    }
}

} // verus!
