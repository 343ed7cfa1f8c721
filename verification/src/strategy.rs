//! Selection strategy for matching reads against cut sites.

use vstd::prelude::*;

verus! {

/// How a site match at the start and/or end of a read is turned into an
/// outcome.
#[derive(Debug, Clone, Copy, PartialEq, Eq, Structural)]
pub enum Strategy {
    Start,
    Both,
    Either,
    Xor,
}

} // verus!
