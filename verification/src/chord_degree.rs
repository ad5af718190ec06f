use vstd::prelude::*;

verus! {

/// A scale-relative harmonic label. The harmony table maps each degree to a
/// fixed three-note triad.
#[allow(clippy::upper_case_acronyms)]
#[derive(PartialEq, Eq, Structural, Debug, Copy, Clone, Hash)]
pub enum ChordDegree {
    I,
    II,
    III,
    IV,
    V,
    VI,
    VII,
}

} // verus!
