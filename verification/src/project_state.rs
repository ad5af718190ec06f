use vstd::prelude::*;

use crate::chord_degree::ChordDegree;
use crate::chord_sequence::ChordSequence;
use crate::project_time_info::{BeatsPerMinute, ProjectTimeInfo};
use crate::tatum::Tatum;

verus! {

/// The shared, editable project: the looping chord sequence and the time
/// signature. The edit context mutates it under a write lock; each callback
/// snapshots it under a short read lock.
#[derive(Clone, Debug)]
pub struct ProjectState {
    pub chord_sequence: ChordSequence,
    pub time: ProjectTimeInfo,
}

impl ProjectState {
    /// Replace the chord held by one slot of the sequence.
    pub fn update_chord_sequence(
        &mut self,
        chord_position: Tatum,
        new_chord: Option<ChordDegree>,
    )
        requires
            chord_position.0 < old(self).chord_sequence.chords@.len(),
        ensures
            final(self).chord_sequence.chords@ == old(self).chord_sequence.chords@.update(
                chord_position.0 as int,
                new_chord,
            ),
            final(self).time == old(self).time,
    {
        self.chord_sequence.set(chord_position, new_chord);
    }
}

impl Default for ProjectState {
    /// A silent bar in common time at 120 beats per minute.
    fn default() -> (r: ProjectState)
        ensures
            r.chord_sequence.wf(),
            forall|i: int| 0 <= i < r.chord_sequence.chords@.len() ==> r.chord_sequence.chords@[i] is None,
            r.time == (ProjectTimeInfo { bpm: BeatsPerMinute(120), beats_per_bar: 4u32 }),
    {
        ProjectState { chord_sequence: ChordSequence::default(), time: ProjectTimeInfo::default() }
    }
}

/// What the editing surface remembers between key presses: the slot the
/// cursor stands on.
#[derive(Clone, Debug)]
pub struct GuiState {
    pub selected_chord: Tatum,
}

impl Default for GuiState {
    /// The cursor starts on the first slot.
    fn default() -> (r: GuiState)
        ensures
            r.selected_chord == Tatum(0usize),
    {
        GuiState { selected_chord: Tatum(0) }
    }
}

/// Fresh shared state for a new session.
pub fn make_application_state() -> (r: (ProjectState, GuiState))
    ensures
        r.0.chord_sequence.wf(),
        forall|i: int|
            0 <= i < r.0.chord_sequence.chords@.len() ==> r.0.chord_sequence.chords@[i] is None,
        r.0.time == (ProjectTimeInfo { bpm: BeatsPerMinute(120), beats_per_bar: 4u32 }),
        r.1.selected_chord == Tatum(0usize),
{
    (ProjectState::default(), GuiState::default())
}

} // verus!
