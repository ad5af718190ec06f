use vstd::prelude::*;

use crate::chord_degree::ChordDegree;
use crate::tatum::{Tatum, TATUM_SUBDIVDISONS_PER_BAR};

verus! {

/// One bar of the step sequence: one slot per subdivision, each either silent
/// or holding one chord degree. A well-formed sequence always has exactly
/// `TATUM_SUBDIVDISONS_PER_BAR` slots.
#[derive(Clone, PartialEq, Debug)]
pub struct ChordSequence {
    pub chords: Vec<Option<ChordDegree>>,
}

impl ChordSequence {
    /// The slot count is pinned to the subdivision grid.
    pub open spec fn wf(&self) -> bool {
        self.chords@.len() == TATUM_SUBDIVDISONS_PER_BAR
    }

    /// Build a sequence from an externally supplied slot list. A list longer
    /// than the grid is rejected; a shorter one is right-padded with silence.
    pub fn new(chords: Vec<Option<ChordDegree>>) -> (r: Result<ChordSequence, &'static str>)
        ensures
            chords@.len() <= TATUM_SUBDIVDISONS_PER_BAR <==> r is Ok,
            r is Ok ==> {
                &&& r->Ok_0.wf()
                &&& forall|i: int|
                    0 <= i < chords@.len() ==> r->Ok_0.chords@[i] == chords@[i]
                &&& forall|i: int|
                    chords@.len() <= i < TATUM_SUBDIVDISONS_PER_BAR ==> r->Ok_0.chords@[i] is None
            },
    {
        if chords.len() > TATUM_SUBDIVDISONS_PER_BAR {
            return Err("Invalid chord sequence");
        }
        if chords.len() == TATUM_SUBDIVDISONS_PER_BAR {
            return Ok(ChordSequence { chords });
        }
        let mut padded = chords;
        while padded.len() < TATUM_SUBDIVDISONS_PER_BAR
            invariant
                padded@.len() <= TATUM_SUBDIVDISONS_PER_BAR,
                chords@.len() <= padded@.len(),
                forall|i: int| 0 <= i < chords@.len() ==> padded@[i] == chords@[i],
                forall|i: int| chords@.len() <= i < padded@.len() ==> padded@[i] is None,
            decreases TATUM_SUBDIVDISONS_PER_BAR - padded@.len(),
        {
            padded.push(None);
        }
        Ok(ChordSequence { chords: padded })
    }

    /// The slots in grid order.
    pub fn iter(&self) -> (r: &Vec<Option<ChordDegree>>)
        ensures
            r@ == self.chords@,
    {
        &self.chords
    }

    /// Read one slot.
    pub fn get(&self, index: Tatum) -> (r: Option<ChordDegree>)
        requires
            index.0 < self.chords@.len(),
        ensures
            r == self.chords@[index.0 as int],
    {
        self.chords[index.0]
    }

    /// Overwrite one slot.
    pub fn set(&mut self, index: Tatum, chord: Option<ChordDegree>)
        requires
            index.0 < old(self).chords@.len(),
        ensures
            final(self).chords@ == old(self).chords@.update(index.0 as int, chord),
    {
        self.chords.set(index.0, chord);
    }
}

impl Default for ChordSequence {
    /// A bar of silence.
    fn default() -> (r: ChordSequence)
        ensures
            r.wf(),
            forall|i: int| 0 <= i < TATUM_SUBDIVDISONS_PER_BAR ==> r.chords@[i] is None,
    {
        let mut chords: Vec<Option<ChordDegree>> = Vec::new();
        while chords.len() < TATUM_SUBDIVDISONS_PER_BAR
            invariant
                chords@.len() <= TATUM_SUBDIVDISONS_PER_BAR,
                forall|i: int| 0 <= i < chords@.len() ==> chords@[i] is None,
            decreases TATUM_SUBDIVDISONS_PER_BAR - chords@.len(),
        {
            chords.push(None);
        }
        ChordSequence { chords }
    }
}

} // verus!
