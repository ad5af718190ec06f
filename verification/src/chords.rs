use vstd::prelude::*;

use crate::chord_degree::ChordDegree;
use crate::note::Note;

verus! {

/// A major triad: root, major third, perfect fifth.
pub open spec fn spec_major_triad(root: Note) -> Seq<Note> {
    seq![root, Note((root.0 + 4) as u8), Note((root.0 + 7) as u8)]
}

/// A minor triad: root, minor third, perfect fifth.
pub open spec fn spec_minor_triad(root: Note) -> Seq<Note> {
    seq![root, Note((root.0 + 3) as u8), Note((root.0 + 7) as u8)]
}

/// A diminished triad: root, minor third, diminished fifth.
pub open spec fn spec_diminished_triad(root: Note) -> Seq<Note> {
    seq![root, Note((root.0 + 3) as u8), Note((root.0 + 6) as u8)]
}

/// The harmony table: a fixed diatonic harmonisation over the root pitch 60.
pub open spec fn spec_chord_degreee_to_notes(chord_degree: ChordDegree) -> Seq<Note> {
    match chord_degree {
        ChordDegree::I => spec_major_triad(Note(60)),
        ChordDegree::II => spec_minor_triad(Note(62)),
        ChordDegree::III => spec_minor_triad(Note(64)),
        ChordDegree::IV => spec_major_triad(Note(65)),
        ChordDegree::V => spec_major_triad(Note(67)),
        ChordDegree::VI => spec_minor_triad(Note(69)),
        ChordDegree::VII => spec_diminished_triad(Note(71)),
    }
}

/// Every pitch the harmony table produces is addressable on the MIDI wire.
pub proof fn lemma_chord_notes_in_midi_range(chord_degree: ChordDegree)
    ensures
        spec_chord_degreee_to_notes(chord_degree).len() == 3,
        forall|i: int|
            0 <= i < 3 ==> #[trigger] spec_chord_degreee_to_notes(chord_degree)[i].0 <= 127,
{
}

pub fn major_triad(root_note: Note) -> (r: [Note; 3])
    requires
        root_note.0 + 7 <= u8::MAX,
    ensures
        r@ == spec_major_triad(root_note),
{
    let r = [root_note, root_note.add(4), root_note.add(7)];
    proof {
        assert(r@ =~= spec_major_triad(root_note));
    }
    r
}

pub fn minor_triad(root_note: Note) -> (r: [Note; 3])
    requires
        root_note.0 + 7 <= u8::MAX,
    ensures
        r@ == spec_minor_triad(root_note),
{
    let r = [root_note, root_note.add(3), root_note.add(7)];
    proof {
        assert(r@ =~= spec_minor_triad(root_note));
    }
    r
}

pub fn diminished_triad(root_note: Note) -> (r: [Note; 3])
    requires
        root_note.0 + 6 <= u8::MAX,
    ensures
        r@ == spec_diminished_triad(root_note),
{
    let r = [root_note, root_note.add(3), root_note.add(6)];
    proof {
        assert(r@ =~= spec_diminished_triad(root_note));
    }
    r
}

/// Look one chord degree up in the harmony table.
pub fn chord_degreee_to_notes(chord_degree: &ChordDegree) -> (r: [Note; 3])
    ensures
        r@ == spec_chord_degreee_to_notes(*chord_degree),
{
    let root_note = Note::from(60);
    match chord_degree {
        ChordDegree::I => major_triad(root_note),
        ChordDegree::II => minor_triad(root_note.add(2)),
        ChordDegree::III => minor_triad(root_note.add(4)),
        ChordDegree::IV => major_triad(root_note.add(5)),
        ChordDegree::V => major_triad(root_note.add(7)),
        ChordDegree::VI => minor_triad(root_note.add(9)),
        ChordDegree::VII => diminished_triad(root_note.add(11)),
    }
}

} // verus!
