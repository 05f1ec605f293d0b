//! Where a feed would resume from.

use vstd::prelude::*;

verus! {

/// Where a feed would resume from, for one that can say
///
/// A segment and a byte offset into it. A live subscription has no such thing,
/// which is what answering [`None`] in place of one means: not "unknown", but
/// "there is nowhere to resume from".
#[derive(Debug, PartialEq, Eq)]
pub struct Position {
    pub segment: String,
    pub offset: u64,
}

impl View for Position {
    type V = (Seq<char>, u64);

    open spec fn view(&self) -> (Seq<char>, u64) {
        (self.segment@, self.offset)
    }
}

impl Clone for Position {
    fn clone(&self) -> (copy: Self)
        ensures
            copy == *self,
    {
        Position { segment: self.segment.clone(), offset: self.offset }
    }
}

/// A position that may not be known yet, as texts and numbers.
pub open spec fn place(at: Option<Position>) -> Option<(Seq<char>, u64)> {
    match at {
        Some(at) => Some(at@),
        None => None,
    }
}

} // verus!
