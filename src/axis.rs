use vstd::prelude::*;

verus! {

/// A principal axis, named at the type level and read back as an index
/// into a three-component vector.
pub trait Dimension {
    spec fn spec_index() -> nat;

    /// The index of this axis: 0 for X, 1 for Y, 2 for Z.
    fn index() -> (r: usize)
        ensures
            r == Self::spec_index(),
            r < 3,
    ;
}

pub struct X;

pub struct Y;

pub struct Z;

impl Dimension for X {
    open spec fn spec_index() -> nat {
        0
    }

    fn index() -> (r: usize) {
        0
    }
}

impl Dimension for Y {
    open spec fn spec_index() -> nat {
        1
    }

    fn index() -> (r: usize) {
        1
    }
}

impl Dimension for Z {
    open spec fn spec_index() -> nat {
        2
    }

    fn index() -> (r: usize) {
        2
    }
}

} // verus!
