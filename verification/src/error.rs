//! Why a render was refused.

use vstd::prelude::*;

verus! {

/// A request that is refused before anything is drawn.
#[derive(Debug, Clone, Copy, PartialEq, Eq, Structural)]
pub enum NovaError {
    /// The configuration asks for no spokes at all.
    NoSpokes,
    /// The buffer does not hold exactly four bytes for each pixel.
    BufferLength,
    /// Rows laid out at the given stride would overlap or leave the buffer.
    RowStride,
}

impl NovaError {
    /// The refusal in words.
    pub open spec fn description(self) -> Seq<char> {
        match self {
            NovaError::NoSpokes => "a nova needs at least one spoke"@,
            NovaError::BufferLength => "the buffer does not hold four bytes for each pixel"@,
            NovaError::RowStride => "the rows do not fit the buffer at this stride"@,
        }
    }

    /// Says in words why the request was refused.
    pub fn describe(&self) -> (text: &'static str)
        ensures
            text@ == self.description(),
    {
        match self {
            NovaError::NoSpokes => "a nova needs at least one spoke",
            NovaError::BufferLength => "the buffer does not hold four bytes for each pixel",
            NovaError::RowStride => "the rows do not fit the buffer at this stride",
        }
    }
}

} // verus!
