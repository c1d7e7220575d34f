use vstd::prelude::*;

verus! {

/// The phase benders that an oscillator can apply before its wavetable.
#[derive(Debug, Clone, Copy, PartialEq, Eq, Structural)]
pub enum Bender {
    Identity,
    Quadratic,
    Cubic,
    Sin,
    Cos,
}

} // verus!
