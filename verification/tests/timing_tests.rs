use tubular::project_time_info::{BeatsPerMinute, ProjectTimeInfo};
use tubular::sequence_translation::FrameOffset;
use tubular::timing_info::{FramesPerBeat, FramesPerSecond, FramesPerTatum, TimingInfo};

#[test]
fn test_frames_per_beat() {
    let project_time_info = ProjectTimeInfo {
        bpm: BeatsPerMinute::from(120),
        beats_per_bar: 4,
    };
    let jack_timing_info = TimingInfo {
        frames_per_second: FramesPerSecond::from(30),
    };
    assert_eq!(
        jack_timing_info.frames_per_beat(&project_time_info),
        FramesPerBeat(15)
    )
}

#[test]
fn test_frames_per_tatum() {
    let project_time_info = ProjectTimeInfo {
        bpm: BeatsPerMinute::from(120),
        beats_per_bar: 4,
    };
    let jack_timing_info = TimingInfo {
        frames_per_second: FramesPerSecond::from(40),
    };
    assert_eq!(
        jack_timing_info.frames_per_tatum(&project_time_info),
        FramesPerTatum(5)
    )
}

#[test]
fn test_frames_at_end_of_bar() {
    let project_time_info = ProjectTimeInfo {
        bpm: BeatsPerMinute::from(120),
        beats_per_bar: 4,
    };
    let jack_timing_info = TimingInfo {
        frames_per_second: FramesPerSecond::from(40),
    };
    assert_eq!(
        jack_timing_info.frames_end_of_bar(&project_time_info),
        FrameOffset::from(79)
    );
}

#[test]
fn frames_per_beat_rounds_half_frames_up() {
    // 41 frames/sec at 120 beats/min is 20.5 frames a beat.
    let project_time_info = ProjectTimeInfo {
        bpm: BeatsPerMinute::from(120),
        beats_per_bar: 4,
    };
    let jack_timing_info = TimingInfo {
        frames_per_second: FramesPerSecond::from(41),
    };
    assert_eq!(
        jack_timing_info.frames_per_beat(&project_time_info),
        FramesPerBeat(21)
    );
}

#[test]
fn timing_at_two_beats_per_bar() {
    let project_time_info = ProjectTimeInfo {
        bpm: BeatsPerMinute::from(120),
        beats_per_bar: 2,
    };
    let jack_timing_info = TimingInfo {
        frames_per_second: FramesPerSecond::from(40),
    };
    assert_eq!(
        jack_timing_info.frames_per_beat(&project_time_info),
        FramesPerBeat(20)
    );
    assert_eq!(
        jack_timing_info.frames_per_tatum(&project_time_info),
        FramesPerTatum(2)
    );
    assert_eq!(
        jack_timing_info.frames_end_of_bar(&project_time_info),
        FrameOffset::from(39)
    );
}

#[test]
fn frames_through_bar_wraps_modulo() {
    let project_time_info = ProjectTimeInfo {
        bpm: BeatsPerMinute::from(120),
        beats_per_bar: 4,
    };
    let jack_timing_info = TimingInfo {
        frames_per_second: FramesPerSecond::from(40),
    };
    let frames_per_bar = jack_timing_info.frames_per_bar(&project_time_info);
    assert_eq!(frames_per_bar.frames_through_bar(&0), FrameOffset::from(0));
    assert_eq!(frames_per_bar.frames_through_bar(&79), FrameOffset::from(79));
    assert_eq!(frames_per_bar.frames_through_bar(&80), FrameOffset::from(0));
    assert_eq!(frames_per_bar.frames_through_bar(&165), FrameOffset::from(5));
}
