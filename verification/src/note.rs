use vstd::prelude::*;

verus! {

/// An absolute pitch, MIDI-style: the values 0 through 127 are addressable on
/// the wire. Equality and hashing go by the raw value.
#[derive(PartialEq, Eq, Structural, Debug, Copy, Clone, Hash)]
pub struct Note(pub u8);

impl Note {
    /// Build a note from its raw pitch number.
    pub fn from(value: u8) -> (r: Note)
        ensures
            r == Note(value),
    {
        Note(value)
    }

    /// The raw pitch number of this note.
    pub fn pitch(&self) -> (r: u8)
        ensures
            r == self.0,
    {
        self.0
    }

    /// Transpose upward by `rhs` semitones.
    pub fn add(self, rhs: u8) -> (r: Note)
        requires
            self.0 + rhs <= u8::MAX,
        ensures
            r == Note((self.0 + rhs) as u8),
    {
        Note(self.0 + rhs)
    }
}

} // verus!
