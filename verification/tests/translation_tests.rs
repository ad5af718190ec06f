use tubular::chord_degree::ChordDegree;
use tubular::chord_sequence::ChordSequence;
use tubular::note::Note;
use tubular::project_time_info::{BeatsPerMinute, ProjectTimeInfo};
use tubular::sequence_translation::{
    chord_sequence_to_frame_offset, Event, FrameOffset, MidiEvent,
};
use tubular::tatum::Tatum;
use tubular::timing_info::{FramesPerSecond, TimingInfo};

#[test]
fn test_chord_sequence_to_frame_offset() {
    let sequence = ChordSequence::new(vec![Some(ChordDegree::I)]).unwrap();
    let project_time_info = ProjectTimeInfo {
        bpm: BeatsPerMinute::from(120),
        beats_per_bar: 4,
    };
    let jack_timing_info = TimingInfo {
        frames_per_second: FramesPerSecond::from(40),
    };
    let events = chord_sequence_to_frame_offset(&sequence, &jack_timing_info, &project_time_info);

    assert_eq!(
        events,
        vec![
            Event {
                bar_offset_frames: FrameOffset::from(0),
                event: MidiEvent::NoteOn(Note::from(60))
            },
            Event {
                bar_offset_frames: FrameOffset::from(0),
                event: MidiEvent::NoteOn(Note::from(64))
            },
            Event {
                bar_offset_frames: FrameOffset::from(0),
                event: MidiEvent::NoteOn(Note::from(67))
            },
            Event {
                bar_offset_frames: FrameOffset::from(5),
                event: MidiEvent::NoteOff(Note::from(60))
            },
            Event {
                bar_offset_frames: FrameOffset::from(5),
                event: MidiEvent::NoteOff(Note::from(64))
            },
            Event {
                bar_offset_frames: FrameOffset::from(5),
                event: MidiEvent::NoteOff(Note::from(67))
            },
        ]
    )
}

#[test]
fn test_chord_sequence_chords_in_adjacent_tatums_turn_off_old_chord() {
    let sequence = ChordSequence::new(vec![Some(ChordDegree::I), Some(ChordDegree::II)]).unwrap();
    let project_time_info = ProjectTimeInfo {
        bpm: BeatsPerMinute::from(120),
        beats_per_bar: 4,
    };
    let jack_timing_info = TimingInfo {
        frames_per_second: FramesPerSecond::from(40),
    };
    let events = chord_sequence_to_frame_offset(&sequence, &jack_timing_info, &project_time_info);

    assert_eq!(
        events,
        vec![
            Event {
                bar_offset_frames: FrameOffset::from(0),
                event: MidiEvent::NoteOn(Note::from(60))
            },
            Event {
                bar_offset_frames: FrameOffset::from(0),
                event: MidiEvent::NoteOn(Note::from(64))
            },
            Event {
                bar_offset_frames: FrameOffset::from(0),
                event: MidiEvent::NoteOn(Note::from(67))
            },
            Event {
                bar_offset_frames: FrameOffset::from(5),
                event: MidiEvent::NoteOff(Note::from(60))
            },
            Event {
                bar_offset_frames: FrameOffset::from(5),
                event: MidiEvent::NoteOff(Note::from(64))
            },
            Event {
                bar_offset_frames: FrameOffset::from(5),
                event: MidiEvent::NoteOff(Note::from(67))
            },
            Event {
                bar_offset_frames: FrameOffset::from(5),
                event: MidiEvent::NoteOn(Note::from(62))
            },
            Event {
                bar_offset_frames: FrameOffset::from(5),
                event: MidiEvent::NoteOn(Note::from(65))
            },
            Event {
                bar_offset_frames: FrameOffset::from(5),
                event: MidiEvent::NoteOn(Note::from(69))
            },
            Event {
                bar_offset_frames: FrameOffset::from(10),
                event: MidiEvent::NoteOff(Note::from(62))
            },
            Event {
                bar_offset_frames: FrameOffset::from(10),
                event: MidiEvent::NoteOff(Note::from(65))
            },
            Event {
                bar_offset_frames: FrameOffset::from(10),
                event: MidiEvent::NoteOff(Note::from(69))
            },
        ]
    )
}

#[test]
fn test_chord_sequence_with_chord_at_end_on() {
    let mut sequence = ChordSequence::default();
    sequence.set(Tatum::try_from(15).unwrap(), Some(ChordDegree::II));

    let project_time_info = ProjectTimeInfo {
        bpm: BeatsPerMinute::from(120),
        beats_per_bar: 4,
    };
    let jack_timing_info = TimingInfo {
        frames_per_second: FramesPerSecond::from(40),
    };
    let events = chord_sequence_to_frame_offset(&sequence, &jack_timing_info, &project_time_info);

    assert_eq!(
        events,
        vec![
            Event {
                bar_offset_frames: FrameOffset::from(75),
                event: MidiEvent::NoteOn(Note::from(62))
            },
            Event {
                bar_offset_frames: FrameOffset::from(75),
                event: MidiEvent::NoteOn(Note::from(65))
            },
            Event {
                bar_offset_frames: FrameOffset::from(75),
                event: MidiEvent::NoteOn(Note::from(69))
            },
            Event {
                bar_offset_frames: FrameOffset::from(79),
                event: MidiEvent::NoteOff(Note::from(62))
            },
            Event {
                bar_offset_frames: FrameOffset::from(79),
                event: MidiEvent::NoteOff(Note::from(65))
            },
            Event {
                bar_offset_frames: FrameOffset::from(79),
                event: MidiEvent::NoteOff(Note::from(69))
            },
        ]
    )
}

#[test]
fn silent_sequence_translates_to_no_events() {
    let sequence = ChordSequence::default();
    let project_time_info = ProjectTimeInfo {
        bpm: BeatsPerMinute::from(120),
        beats_per_bar: 4,
    };
    let jack_timing_info = TimingInfo {
        frames_per_second: FramesPerSecond::from(40),
    };
    let events = chord_sequence_to_frame_offset(&sequence, &jack_timing_info, &project_time_info);
    assert_eq!(events, Vec::<Event>::new());
}
