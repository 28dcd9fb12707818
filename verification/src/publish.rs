//! Handing the finished artifact over.

use vstd::prelude::*;

verus! {

/// An artifact that was not taken.
#[derive(Debug, Clone, PartialEq, Eq)]
pub struct UploadError {
    /// What the receiving side said.
    pub reason: String,
}

/// Hands the compressed table at `zst_path` over to whoever publishes it.
///
/// Nobody is on the receiving side yet: the artifact stays where it is, and
/// the call succeeds whatever the path.
pub fn upload(zst_path: &str) -> (sent: Result<(), UploadError>)
    ensures
        sent is Ok,
{
    Ok(())
}

} // verus!
