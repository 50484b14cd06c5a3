use vstd::prelude::*;

verus! {

/// How a parking lot is built.
#[derive(Clone, Copy, Debug, PartialEq, Eq, Structural)]
pub enum Feature {
    Uncovered,
    Covered,
    Underground,
}

/// The kinds of parking spot a lot offers.
#[derive(Clone, Copy, Debug, PartialEq, Eq, Hash, Structural)]
pub enum SpotType {
    Car,
    CarHandicap,
    CarElectric,
    Motorcycle,
}

} // verus!
