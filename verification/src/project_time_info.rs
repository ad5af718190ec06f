use vstd::prelude::*;

verus! {

/// A tempo in beats per minute. Tempi are whole numbers of beats here; a
/// playable tempo is at least one beat per minute.
#[derive(PartialEq, Eq, Structural, Debug, Copy, Clone)]
pub struct BeatsPerMinute(pub u32);

impl BeatsPerMinute {
    /// Build a tempo from its raw beats-per-minute count.
    pub fn from(value: u32) -> (r: BeatsPerMinute)
        ensures
            r == BeatsPerMinute(value),
    {
        BeatsPerMinute(value)
    }
}

/// The musical time signature of the project: tempo and beats per bar. Read
/// only while a callback runs; edited under the project's write lock.
#[derive(PartialEq, Eq, Structural, Debug, Copy, Clone)]
pub struct ProjectTimeInfo {
    pub bpm: BeatsPerMinute,
    pub beats_per_bar: u32,
}

impl Default for ProjectTimeInfo {
    /// Four beats to a bar at 120 beats per minute.
    fn default() -> (r: ProjectTimeInfo)
        ensures
            r == (ProjectTimeInfo { bpm: BeatsPerMinute(120), beats_per_bar: 4u32 }),
    {
        ProjectTimeInfo { bpm: BeatsPerMinute(120), beats_per_bar: 4 }
    }
}

} // verus!
