use tubular::note::Note;
use tubular::project_time_info::{BeatsPerMinute, ProjectTimeInfo};
use tubular::scheduler::{
    frames_of_next_offset, get_midi_events_for_next_n_frames, ghost_notes, is_upcoming_event,
    lingering_notes, notes_on_at_point,
};
use tubular::sequence_translation::{Event, FrameOffset, MidiEvent};
use tubular::timing_info::{FramesPerSecond, TimingInfo};

#[test]
fn test_frame_offset() {
    // timing is 80 frames a bar

    let project_time_info = ProjectTimeInfo {
        bpm: BeatsPerMinute::from(120),
        beats_per_bar: 4,
    };
    let jack_timing_info = TimingInfo {
        frames_per_second: FramesPerSecond::from(40),
    };

    assert_eq!(
        frames_of_next_offset(
            90,
            FrameOffset::from(5),
            &jack_timing_info,
            &project_time_info
        ),
        165
    );

    assert_eq!(
        frames_of_next_offset(
            90,
            FrameOffset::from(15),
            &jack_timing_info,
            &project_time_info
        ),
        95
    );

    assert_eq!(
        frames_of_next_offset(
            79,
            FrameOffset::from(0),
            &jack_timing_info,
            &project_time_info
        ),
        80
    );

    assert_eq!(
        frames_of_next_offset(
            80,
            FrameOffset::from(0),
            &jack_timing_info,
            &project_time_info
        ),
        80
    );
    assert_eq!(
        frames_of_next_offset(
            80,
            FrameOffset::from(1),
            &jack_timing_info,
            &project_time_info
        ),
        81
    );
}

#[test]
fn test_is_upcoming_event() {
    // timing is 80 frames a bar

    let project_time_info = ProjectTimeInfo {
        bpm: BeatsPerMinute::from(120),
        beats_per_bar: 4,
    };
    let jack_timing_info = TimingInfo {
        frames_per_second: FramesPerSecond::from(40),
    };

    assert!(is_upcoming_event(
        FrameOffset::from(0),
        80,
        10,
        &jack_timing_info,
        &project_time_info
    ));
    assert!(is_upcoming_event(
        FrameOffset::from(0),
        71,
        10,
        &jack_timing_info,
        &project_time_info
    ));
    assert!(!is_upcoming_event(
        FrameOffset::from(10),
        80,
        10,
        &jack_timing_info,
        &project_time_info
    ));
}

#[test]
fn test_get_midi_events_for_next_n_frames() {
    // timing is 80 frames a bar, 20 frames a beat, 5 frames a tatum
    let project_time_info = ProjectTimeInfo {
        bpm: BeatsPerMinute::from(120),
        beats_per_bar: 4,
    };
    let jack_timing_info = TimingInfo {
        frames_per_second: FramesPerSecond::from(40),
    };

    let event_for_bar = vec![
        Event {
            event: MidiEvent::NoteOn(Note::from(60)),
            bar_offset_frames: FrameOffset::from(0),
        },
        Event {
            event: MidiEvent::NoteOff(Note::from(60)),
            bar_offset_frames: FrameOffset::from(5),
        },
    ];

    let events = get_midi_events_for_next_n_frames(
        80,
        10, // processing two tatums
        &event_for_bar,
        &vec![],
        &jack_timing_info,
        &project_time_info,
    );

    assert_eq!(
        events,
        vec![
            (0, MidiEvent::NoteOn(Note::from(60))),
            (5, MidiEvent::NoteOff(Note::from(60))),
        ]
    );
}

#[test]
fn test_get_midi_events_for_next_n_frames_event_from_start_of_next_bar() {
    // timing is 80 frames a bar, 20 frames a beat, 5 frames a tatum
    let project_time_info = ProjectTimeInfo {
        bpm: BeatsPerMinute::from(120),
        beats_per_bar: 4,
    };
    let jack_timing_info = TimingInfo {
        frames_per_second: FramesPerSecond::from(40),
    };

    let event_for_bar = vec![
        Event {
            event: MidiEvent::NoteOn(Note::from(60)),
            bar_offset_frames: FrameOffset::from(0),
        },
        Event {
            event: MidiEvent::NoteOff(Note::from(60)),
            bar_offset_frames: FrameOffset::from(5),
        },
        Event {
            event: MidiEvent::NoteOn(Note::from(62)),
            bar_offset_frames: FrameOffset::from(10),
        },
        Event {
            event: MidiEvent::NoteOff(Note::from(62)),
            bar_offset_frames: FrameOffset::from(15),
        },
    ];

    let events = get_midi_events_for_next_n_frames(
        86,
        79, // just shy of a whole bar
        &event_for_bar,
        &vec![],
        &jack_timing_info,
        &project_time_info,
    );

    let start_of_next_frame = 160 - 86;
    assert_eq!(
        events,
        vec![
            (4, MidiEvent::NoteOn(Note::from(62))),  // Turn on 62
            (9, MidiEvent::NoteOff(Note::from(62))), // Turn off 62
            (start_of_next_frame, MidiEvent::NoteOn(Note::from(60))), // Turn on 60 at start of next bar
        ]
    );
}

#[test]
fn test_get_midi_events_for_next_n_frames_turns_off_old_note() {
    // timing is 80 frames a bar, 20 frames a beat, 5 frames a tatum
    let project_time_info = ProjectTimeInfo {
        bpm: BeatsPerMinute::from(120),
        beats_per_bar: 4,
    };
    let jack_timing_info = TimingInfo {
        frames_per_second: FramesPerSecond::from(40),
    };

    let old_events = vec![
        Event {
            event: MidiEvent::NoteOn(Note::from(70)),
            bar_offset_frames: FrameOffset::from(0),
        },
        Event {
            event: MidiEvent::NoteOff(Note::from(70)),
            bar_offset_frames: FrameOffset::from(5),
        },
    ];

    let event_for_bar = vec![
        Event {
            event: MidiEvent::NoteOn(Note::from(60)),
            bar_offset_frames: FrameOffset::from(0),
        },
        Event {
            event: MidiEvent::NoteOff(Note::from(60)),
            bar_offset_frames: FrameOffset::from(5),
        },
    ];

    let events = get_midi_events_for_next_n_frames(
        83,
        5,
        &event_for_bar,
        &old_events,
        &jack_timing_info,
        &project_time_info,
    );

    assert_eq!(events, vec![(0, MidiEvent::NoteOff(Note::from(70)))]);
}

#[test]
fn test_notes_on_at_point_before_first_event() {
    let notes_on = notes_on_at_point(
        &vec![Event {
            bar_offset_frames: FrameOffset::from(0),
            event: MidiEvent::NoteOn(Note::from(60)),
        }],
        FrameOffset::from(0),
    );
    assert_eq!(notes_on, Vec::<Note>::new());
}

#[test]
fn test_notes_on_at_point_after_first_event() {
    let notes_on = notes_on_at_point(
        &vec![Event {
            bar_offset_frames: FrameOffset::from(0),
            event: MidiEvent::NoteOn(Note::from(60)),
        }],
        FrameOffset::from(1),
    );
    assert_eq!(notes_on, vec![Note::from(60)]);
}

#[test]
fn test_notes_on_after_point_after_first_on_and_off() {
    let sequence = vec![
        Event {
            bar_offset_frames: FrameOffset::from(0),
            event: MidiEvent::NoteOn(Note::from(60)),
        },
        Event {
            bar_offset_frames: FrameOffset::from(1),
            event: MidiEvent::NoteOff(Note::from(60)),
        },
    ];
    let notes_on = notes_on_at_point(&sequence, FrameOffset::from(2));
    assert_eq!(notes_on, Vec::<Note>::new());
}

#[test]
fn test_notes_on_at_point_after_first_on_and_off() {
    let sequence = vec![
        Event {
            bar_offset_frames: FrameOffset::from(0),
            event: MidiEvent::NoteOn(Note::from(60)),
        },
        Event {
            bar_offset_frames: FrameOffset::from(1),
            event: MidiEvent::NoteOff(Note::from(60)),
        },
    ];
    let notes_on = notes_on_at_point(&sequence, FrameOffset::from(1));
    assert_eq!(notes_on, vec![Note::from(60)]);
}

#[test]
fn test_notes_on_at_point_turn_two_notes_on_one_note_off() {
    let sequence = vec![
        Event {
            bar_offset_frames: FrameOffset::from(0),
            event: MidiEvent::NoteOn(Note::from(60)),
        },
        Event {
            bar_offset_frames: FrameOffset::from(0),
            event: MidiEvent::NoteOn(Note::from(62)),
        },
        Event {
            bar_offset_frames: FrameOffset::from(1),
            event: MidiEvent::NoteOff(Note::from(60)),
        },
    ];
    let notes_on = notes_on_at_point(&sequence, FrameOffset::from(2));
    assert_eq!(notes_on, vec![Note::from(62)]);
}

#[test]
fn test_lingering_notes_turns_old_notes_off() {
    let old_sequence = vec![
        Event {
            bar_offset_frames: FrameOffset::from(0),
            event: MidiEvent::NoteOn(Note::from(60)),
        },
        Event {
            bar_offset_frames: FrameOffset::from(1),
            event: MidiEvent::NoteOff(Note::from(60)),
        },
    ];

    let new_sequence = vec![
        Event {
            bar_offset_frames: FrameOffset::from(0),
            event: MidiEvent::NoteOn(Note::from(61)),
        },
        Event {
            bar_offset_frames: FrameOffset::from(1),
            event: MidiEvent::NoteOn(Note::from(61)),
        },
    ];

    assert_eq!(
        lingering_notes(&old_sequence, &new_sequence, FrameOffset::from(1)),
        vec![Note::from(60)]
    );
}

#[test]
fn test_lingering_notes_halfway_through_note() {
    let old_sequence = vec![
        Event {
            bar_offset_frames: FrameOffset::from(0),
            event: MidiEvent::NoteOn(Note::from(60)),
        },
        Event {
            bar_offset_frames: FrameOffset::from(2),
            event: MidiEvent::NoteOff(Note::from(60)),
        },
        Event {
            bar_offset_frames: FrameOffset::from(4),
            event: MidiEvent::NoteOn(Note::from(60)),
        },
        Event {
            bar_offset_frames: FrameOffset::from(6),
            event: MidiEvent::NoteOff(Note::from(60)),
        },
    ];

    let new_sequence = vec![
        Event {
            bar_offset_frames: FrameOffset::from(4),
            event: MidiEvent::NoteOn(Note::from(60)),
        },
        Event {
            bar_offset_frames: FrameOffset::from(6),
            event: MidiEvent::NoteOff(Note::from(60)),
        },
    ];
    assert_eq!(
        lingering_notes(&old_sequence, &new_sequence, FrameOffset::from(1)),
        vec![Note::from(60)]
    );
}

#[test]
fn test_ghost_note_includes_note_playing() {
    let old_sequence = vec![
        Event {
            bar_offset_frames: FrameOffset::from(0),
            event: MidiEvent::NoteOn(Note::from(70)),
        },
        Event {
            bar_offset_frames: FrameOffset::from(5),
            event: MidiEvent::NoteOff(Note::from(70)),
        },
    ];

    let new_sequence = vec![
        Event {
            bar_offset_frames: FrameOffset::from(0),
            event: MidiEvent::NoteOn(Note::from(60)),
        },
        Event {
            bar_offset_frames: FrameOffset::from(6),
            event: MidiEvent::NoteOff(Note::from(60)),
        },
    ];
    assert_eq!(
        ghost_notes(&old_sequence, &new_sequence, FrameOffset::from(1)),
        vec![Note::from(60)]
    );
}
