use vstd::prelude::*;

verus! {

/// The ways in which building or addressing a grid can fail.
#[derive(Debug, Clone, Copy, PartialEq, Eq, Structural)]
pub enum GridError {
    IndexOutOfBounds,
    RowSizeMismatch,
    InvalidSize,
    ExcessiveSize,
    InvalidDivisionSize,
}

impl GridError {
    /// The human-readable description of each error.
    pub open spec fn message_spec(self) -> Seq<char> {
        match self {
            GridError::IndexOutOfBounds => "Index out of bounds"@,
            GridError::RowSizeMismatch => "Row size must match other rows"@,
            GridError::InvalidSize => "Invalid grid size"@,
            GridError::ExcessiveSize => "Resulting grid is too large"@,
            GridError::InvalidDivisionSize => "Divisor is either less than 1 or larger than the grid"@,
        }
    }

    /// Describes the error in words.
    pub fn message(&self) -> (r: String)
        ensures
            r@ == self.message_spec(),
    {
        match self {
            GridError::IndexOutOfBounds => "Index out of bounds".to_string(),
            GridError::RowSizeMismatch => "Row size must match other rows".to_string(),
            GridError::InvalidSize => "Invalid grid size".to_string(),
            GridError::ExcessiveSize => "Resulting grid is too large".to_string(),
            GridError::InvalidDivisionSize => {
                "Divisor is either less than 1 or larger than the grid".to_string()
            },
        }
    }
}

} // verus!
