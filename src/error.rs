use vstd::prelude::*;

verus! {

/// Why an operation on one of the containers could not be carried out.
#[derive(Debug, Clone, Copy, PartialEq, Eq, Structural)]
pub enum DsError {
    /// A list operation needs at least one element and the list has none.
    EmptyList,
    /// `pop` or `peek` on a stack with no elements.
    EmptyStack,
    /// `dequeue` or `peek` on a queue with no elements.
    EmptyQueue,
    /// An array index is not within the bounds that the operation allows.
    IndexOutOfBounds,
    /// No element matches the value searched for.
    ValueNotFound,
}

impl DsError {
    /// The human-readable text reported for this error.
    pub fn message(&self) -> (r: &'static str) {
        match self {
            DsError::EmptyList => "List is empty",
            DsError::EmptyStack => "Stack is empty",
            DsError::EmptyQueue => "Queue is empty",
            DsError::IndexOutOfBounds => "Index out of bounds",
            DsError::ValueNotFound => "Value not found",
        }
    }
}

} // verus!
