//! Error kinds surfaced by the pipeline. Lane-capacity exhaustion is not an
//! error: it degrades to forced placement and is recorded on the assignment.

use vstd::prelude::*;

verus! {

#[derive(Debug, PartialEq, Eq)]
pub enum DanmakuError {
    /// The wire bytes violate the structural expectations of the declared
    /// format; `index` names the offending record (or 0 for whole-input
    /// failures).
    MalformedInput { index: usize },
    /// A scripted comment's parameter string is malformed; carries the raw
    /// string.
    SpecialCommentSyntax { raw: Vec<u8> },
    /// A decoded motion-class code lies outside the known enumeration.
    UnsupportedMotionClass { code: u64 },
}

} // verus!
