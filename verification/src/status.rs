//! The two categories of items.

use vstd::prelude::*;

verus! {

/// Whether an item is still to be done or done.
#[derive(Clone, Copy, Debug, PartialEq, Eq, Structural)]
pub enum Status {
    Todo,
    Done,
}

impl Status {
    /// The other category.
    pub open spec fn toggled(self) -> Status {
        match self {
            Status::Done => Status::Todo,
            Status::Todo => Status::Done,
        }
    }

    /// The other category.
    pub fn toggle(self) -> (other: Status)
        ensures
            other == self.toggled(),
    {
        match self {
            Status::Done => Status::Todo,
            Status::Todo => Status::Done,
        }
    }

    /// The category shown on the right.
    pub fn right(self) -> (status: Status)
        ensures
            status == Status::Done,
    {
        Status::Done
    }

    /// The category shown on the left.
    pub fn left(self) -> (status: Status)
        ensures
            status == Status::Todo,
    {
        Status::Todo
    }
}

} // verus!
