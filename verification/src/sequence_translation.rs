use vstd::prelude::*;

use crate::chord_degree::ChordDegree;
use crate::chord_sequence::ChordSequence;
use crate::chords::{chord_degreee_to_notes, lemma_chord_notes_in_midi_range, spec_chord_degreee_to_notes};
use crate::note::Note;
use crate::project_time_info::ProjectTimeInfo;
use crate::tatum::{Tatum, TATUM_SUBDIVDISONS_PER_BAR};
use crate::timing_info::{
    lemma_tatum_offsets_within_bar, spec_frames_per_bar, spec_frames_per_tatum, timing_wf,
    TimingInfo,
};

verus! {

/// A position measured in audio frames relative to the start of a bar.
#[derive(PartialEq, Eq, Structural, Debug, Copy, Clone)]
pub struct FrameOffset(pub u32);

impl FrameOffset {
    /// Build an offset from its raw frame count.
    pub fn from(value: u32) -> (r: FrameOffset)
        ensures
            r == FrameOffset(value),
    {
        FrameOffset(value)
    }
}

/// One abstract note message: a pitch starting or stopping.
#[derive(PartialEq, Eq, Structural, Debug, Copy, Clone)]
pub enum MidiEvent {
    NoteOn(Note),
    NoteOff(Note),
}

/// The pitch a message acts on.
pub open spec fn spec_event_pitch(e: MidiEvent) -> u8 {
    match e {
        MidiEvent::NoteOn(n) => n.0,
        MidiEvent::NoteOff(n) => n.0,
    }
}

/// A bar-relative scheduling unit: one note message stamped with the frame
/// offset inside the bar at which it is due.
#[derive(PartialEq, Eq, Structural, Debug, Copy, Clone)]
pub struct Event {
    pub bar_offset_frames: FrameOffset,
    pub event: MidiEvent,
}

/// Frame offset of a subdivision slot inside the bar.
pub fn get_time_of_event_relative_to_bar(
    tatums_into_bar: Tatum,
    project_time_info: &ProjectTimeInfo,
    timing_info: &TimingInfo,
) -> (r: FrameOffset)
    requires
        tatums_into_bar.wf(),
        timing_wf(*timing_info, *project_time_info),
    ensures
        r.0 == tatums_into_bar.0 * spec_frames_per_tatum(
            timing_info.frames_per_second.0 as int,
            *project_time_info,
        ),
{
    let frames_per_tatum = timing_info.frames_per_tatum(project_time_info);
    proof {
        lemma_tatum_offsets_within_bar(timing_info.frames_per_second.0 as int, *project_time_info);
        vstd::arithmetic::mul::lemma_mul_inequality(
            tatums_into_bar.0 as int,
            (TATUM_SUBDIVDISONS_PER_BAR - 1) as int,
            frames_per_tatum.0 as int,
        );
    }
    FrameOffset((tatums_into_bar.0 as u32) * frames_per_tatum.0)
}

/// A note message for one pitch, on or off.
pub open spec fn spec_midi_event(n: Note, note_on: bool) -> MidiEvent {
    if note_on {
        MidiEvent::NoteOn(n)
    } else {
        MidiEvent::NoteOff(n)
    }
}

/// The three messages a chord contributes at one offset: its triad's pitches,
/// all starting or all stopping.
pub open spec fn spec_events_for_chord(chord: ChordDegree, time: FrameOffset, note_on: bool)
    -> Seq<Event> {
    let notes = spec_chord_degreee_to_notes(chord);
    seq![
        Event { bar_offset_frames: time, event: spec_midi_event(notes[0], note_on) },
        Event { bar_offset_frames: time, event: spec_midi_event(notes[1], note_on) },
        Event { bar_offset_frames: time, event: spec_midi_event(notes[2], note_on) },
    ]
}

/// Build the three messages a chord contributes at one offset.
pub fn event_for_chord(chord: &ChordDegree, time: FrameOffset, note_on: bool) -> (r: [Event; 3])
    ensures
        r@ == spec_events_for_chord(*chord, time, note_on),
{
    let notes = chord_degreee_to_notes(chord);
    let r = [
        Event { bar_offset_frames: time, event: make_midi_event(notes[0], note_on) },
        Event { bar_offset_frames: time, event: make_midi_event(notes[1], note_on) },
        Event { bar_offset_frames: time, event: make_midi_event(notes[2], note_on) },
    ];
    proof {
        assert(r@ =~= spec_events_for_chord(*chord, time, note_on));
    }
    r
}

/// Wrap one pitch as a starting or stopping message.
fn make_midi_event(n: Note, note_on: bool) -> (r: MidiEvent)
    ensures
        r == spec_midi_event(n, note_on),
{
    if note_on {
        MidiEvent::NoteOn(n)
    } else {
        MidiEvent::NoteOff(n)
    }
}

/// What one slot adds to the timeline: the close of the chord sustained into
/// it, then the start of the chord it holds.
pub open spec fn spec_slot_events(
    prev: Option<ChordDegree>,
    cur: Option<ChordDegree>,
    time: FrameOffset,
) -> Seq<Event> {
    (match prev {
        Some(c) => spec_events_for_chord(c, time, false),
        None => Seq::empty(),
    }) + (match cur {
        Some(c) => spec_events_for_chord(c, time, true),
        None => Seq::empty(),
    })
}

/// The timeline contributed by the first `k` slots. The chord sustained into
/// slot `i` is exactly the chord of slot `i - 1`, since a slot's own chord
/// always starts sounding there and sounds for one slot.
pub open spec fn spec_translate_prefix(
    chords: Seq<Option<ChordDegree>>,
    frames_per_tatum: u32,
    k: int,
) -> Seq<Event>
    decreases k,
{
    if k <= 0 {
        Seq::empty()
    } else {
        spec_translate_prefix(chords, frames_per_tatum, k - 1) + spec_slot_events(
            if k == 1 {
                None
            } else {
                chords[k - 2]
            },
            chords[k - 1],
            FrameOffset(((k - 1) * frames_per_tatum) as u32),
        )
    }
}

/// The full one-bar timeline of a chord sequence: every slot's contribution in
/// grid order, and, if the final slot holds a chord, its close at the last
/// addressable offset of the bar so that no note runs into the bar's repeat.
pub open spec fn spec_translate(
    chords: Seq<Option<ChordDegree>>,
    frames_per_tatum: u32,
    end_of_bar: FrameOffset,
) -> Seq<Event>
    recommends
        chords.len() == TATUM_SUBDIVDISONS_PER_BAR,
{
    spec_translate_prefix(chords, frames_per_tatum, TATUM_SUBDIVDISONS_PER_BAR as int) + (match chords[
        TATUM_SUBDIVDISONS_PER_BAR - 1
    ] {
        Some(c) => spec_events_for_chord(c, end_of_bar, false),
        None => Seq::empty(),
    })
}

/// Expand one bar of the chord sequence into its ordered, bar-relative event
/// timeline. Pure: safe to call on every callback.
pub fn chord_sequence_to_frame_offset(
    sequence: &ChordSequence,
    timing_info: &TimingInfo,
    project_time_info: &ProjectTimeInfo,
) -> (r: Vec<Event>)
    requires
        sequence.wf(),
        timing_wf(*timing_info, *project_time_info),
    ensures
        r@ == spec_translate(
            sequence.chords@,
            spec_frames_per_tatum(timing_info.frames_per_second.0 as int, *project_time_info) as u32,
            FrameOffset(
                (spec_frames_per_bar(timing_info.frames_per_second.0 as int, *project_time_info)
                    - 1) as u32,
            ),
        ),
        forall|i: int|
            0 <= i < r@.len() ==> #[trigger] r@[i].bar_offset_frames.0 < spec_frames_per_bar(
                timing_info.frames_per_second.0 as int,
                *project_time_info,
            ),
        forall|i: int| 0 <= i < r@.len() ==> #[trigger] spec_event_pitch(r@[i].event) <= 127,
{
    let ghost fps: int = timing_info.frames_per_second.0 as int;
    let ghost frames_per_tatum: int = spec_frames_per_tatum(fps, *project_time_info);
    let ghost frames_per_bar: int = spec_frames_per_bar(fps, *project_time_info);
    proof {
        lemma_tatum_offsets_within_bar(fps, *project_time_info);
        vstd::arithmetic::mul::lemma_mul_inequality(1, (TATUM_SUBDIVDISONS_PER_BAR - 1) as int, frames_per_tatum);
    }
    let mut last_chord: Option<ChordDegree> = None;
    let mut events: Vec<Event> = Vec::new();
    let mut index: usize = 0;
    while index < TATUM_SUBDIVDISONS_PER_BAR
        invariant
            sequence.wf(),
            timing_wf(*timing_info, *project_time_info),
            index <= TATUM_SUBDIVDISONS_PER_BAR,
            frames_per_tatum == spec_frames_per_tatum(fps, *project_time_info),
            frames_per_bar == spec_frames_per_bar(fps, *project_time_info),
            fps == timing_info.frames_per_second.0 as int,
            0 <= frames_per_tatum <= u32::MAX,
            (TATUM_SUBDIVDISONS_PER_BAR - 1) * frames_per_tatum < frames_per_bar,
            frames_per_bar <= u32::MAX,
            last_chord == (if index == 0 {
                Option::<ChordDegree>::None
            } else {
                sequence.chords@[index - 1]
            }),
            events@ == spec_translate_prefix(sequence.chords@, frames_per_tatum as u32, index as int),
            forall|i: int|
                0 <= i < events@.len() ==> #[trigger] events@[i].bar_offset_frames.0
                    < frames_per_bar,
            forall|i: int| 0 <= i < events@.len() ==> #[trigger] spec_event_pitch(events@[i].event) <= 127,
        decreases TATUM_SUBDIVDISONS_PER_BAR - index,
    {
        let event_time = get_time_of_event_relative_to_bar(
            Tatum(index),
            project_time_info,
            timing_info,
        );
        proof {
            vstd::arithmetic::mul::lemma_mul_inequality(
                index as int,
                (TATUM_SUBDIVDISONS_PER_BAR - 1) as int,
                frames_per_tatum,
            );
        }
        
        if let Some(last_chord_played) = last_chord {
            push_chord_events(&mut events, &last_chord_played, event_time, false);
            last_chord = None;
        }
        let slot = sequence.get(Tatum(index));
        if let Some(chord_played) = slot {
            last_chord = Some(chord_played);
            push_chord_events(&mut events, &chord_played, event_time, true);
        }
        proof {
            assert(events@ =~= spec_translate_prefix(
                sequence.chords@,
                frames_per_tatum as u32,
                index as int + 1,
            ));
        }
        index += 1;
    }
    if let Some(last_chord_played) = last_chord {
        let end_of_bar = timing_info.frames_end_of_bar(project_time_info);
        push_chord_events(&mut events, &last_chord_played, end_of_bar, false);
    }
    proof {
        assert(events@ =~= spec_translate(
            sequence.chords@,
            frames_per_tatum as u32,
            FrameOffset((frames_per_bar - 1) as u32),
        ));
    }
    events
}

/// Append a chord's three messages at one offset.
fn push_chord_events(events: &mut Vec<Event>, chord: &ChordDegree, time: FrameOffset, note_on: bool)
    ensures
        final(events)@ == old(events)@ + spec_events_for_chord(*chord, time, note_on),
        forall|i: int|
            0 <= i < final(events)@.len() ==> #[trigger] final(events)@[i].bar_offset_frames.0
                == if i < old(events)@.len() {
                old(events)@[i].bar_offset_frames.0
            } else {
                time.0
            },
        forall|i: int|
            old(events)@.len() <= i < final(events)@.len() ==> #[trigger] spec_event_pitch(
                final(events)@[i].event,
            ) <= 127,
        forall|i: int|
            0 <= i < old(events)@.len() ==> #[trigger] final(events)@[i] == old(events)@[i],
{
    proof {
        lemma_chord_notes_in_midi_range(*chord);
    }
    let midi_events = event_for_chord(chord, time, note_on);
    events.push(midi_events[0]);
    events.push(midi_events[1]);
    events.push(midi_events[2]);
    proof {
        assert(events@ =~= old(events)@ + spec_events_for_chord(*chord, time, note_on));
    }
}

} // verus!
