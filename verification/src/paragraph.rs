use vstd::prelude::*;

verus! {

/// Align or justify.
#[derive(Debug, Eq, PartialEq, Structural, Clone, Copy)]
pub enum Alignment {
    Left,
    Right,
    Center,
    Justified,
}

} // verus!
