use vstd::prelude::*;

use crate::project_time_info::ProjectTimeInfo;
use crate::sequence_translation::FrameOffset;
use crate::tatum::TATUM_SUBDIVDISONS_PER_BAR;

verus! {

/// The audio session's sample rate, fixed for the session's lifetime.
#[derive(PartialEq, Eq, Structural, PartialOrd, Ord, Clone, Copy, Debug)]
pub struct FramesPerSecond(pub usize);

impl FramesPerSecond {
    /// Build a sample rate from its raw frames-per-second count.
    pub fn from(value: usize) -> (r: FramesPerSecond)
        ensures
            r == FramesPerSecond(value),
    {
        FramesPerSecond(value)
    }
}

/// The length of one bar, in audio frames.
#[derive(PartialEq, Eq, Structural, PartialOrd, Ord, Clone, Copy, Debug)]
pub struct FramesPerBar(pub u32);

/// The length of one beat, in audio frames.
#[derive(PartialEq, Eq, Structural, PartialOrd, Ord, Clone, Copy, Debug)]
pub struct FramesPerBeat(pub u32);

/// The length of one subdivision slot, in audio frames.
#[derive(PartialEq, Eq, Structural, PartialOrd, Ord, Clone, Copy, Debug)]
pub struct FramesPerTatum(pub u32);

/// Frames per beat as the nearest whole frame to
/// `frames_per_second / (beats_per_minute / 60)`, halves rounded up.
pub open spec fn spec_frames_per_beat(fps: int, bpm: int) -> int
    recommends
        bpm >= 1,
{
    (120 * fps + bpm) / (2 * bpm)
}

/// Subdivision slots per beat: the fixed grid divided over the bar's beats.
pub open spec fn spec_tatums_per_beat(beats_per_bar: int) -> int
    recommends
        1 <= beats_per_bar <= TATUM_SUBDIVDISONS_PER_BAR,
{
    TATUM_SUBDIVDISONS_PER_BAR as int / beats_per_bar
}

/// Frames per subdivision slot.
pub open spec fn spec_frames_per_tatum(fps: int, time: ProjectTimeInfo) -> int {
    spec_frames_per_beat(fps, time.bpm.0 as int) / spec_tatums_per_beat(
        time.beats_per_bar as int,
    )
}

/// Frames per bar.
pub open spec fn spec_frames_per_bar(fps: int, time: ProjectTimeInfo) -> int {
    spec_frames_per_beat(fps, time.bpm.0 as int) * time.beats_per_bar
}

/// When a sample rate and a time signature describe a playable session: the
/// tempo and metre are positive, the beats divide the subdivision grid evenly,
/// a beat is at least one frame long, and a whole bar still fits the frame
/// counter.
pub open spec fn timing_wf(timing: TimingInfo, time: ProjectTimeInfo) -> bool {
    &&& 1 <= time.bpm.0
    &&& 1 <= time.beats_per_bar <= TATUM_SUBDIVDISONS_PER_BAR
    &&& TATUM_SUBDIVDISONS_PER_BAR as int % (time.beats_per_bar as int) == 0
    &&& timing.frames_per_second.0 <= u32::MAX
    &&& 1 <= spec_frames_per_beat(timing.frames_per_second.0 as int, time.bpm.0 as int)
    &&& spec_frames_per_bar(timing.frames_per_second.0 as int, time) <= u32::MAX
}

/// No slot's frame offset reaches the end of the bar: the last slot starts
/// strictly inside it.
pub proof fn lemma_tatum_offsets_within_bar(fps: int, time: ProjectTimeInfo)
    requires
        1 <= time.bpm.0,
        1 <= time.beats_per_bar <= TATUM_SUBDIVDISONS_PER_BAR,
        TATUM_SUBDIVDISONS_PER_BAR as int % (time.beats_per_bar as int) == 0,
        1 <= spec_frames_per_beat(fps, time.bpm.0 as int),
    ensures
        (TATUM_SUBDIVDISONS_PER_BAR - 1) * spec_frames_per_tatum(fps, time)
            < spec_frames_per_bar(fps, time),
        spec_frames_per_tatum(fps, time) >= 0,
{
    let frames_per_beat = spec_frames_per_beat(fps, time.bpm.0 as int);
    let beats = time.beats_per_bar as int;
    let slots_per_beat = spec_tatums_per_beat(beats);
    let frames_per_tatum = spec_frames_per_tatum(fps, time);
    vstd::arithmetic::div_mod::lemma_fundamental_div_mod(TATUM_SUBDIVDISONS_PER_BAR as int, beats);
    assert(slots_per_beat * beats == 16);
    assert(1 <= slots_per_beat) by (nonlinear_arith)
        requires
            slots_per_beat * beats == 16,
            1 <= beats <= 16,
    ;
    vstd::arithmetic::div_mod::lemma_fundamental_div_mod(frames_per_beat, slots_per_beat);
    assert(frames_per_tatum * slots_per_beat <= frames_per_beat);
    assert(frames_per_tatum >= 0) by (nonlinear_arith)
        requires
            frames_per_tatum * slots_per_beat <= frames_per_beat,
            frames_per_beat == slots_per_beat * frames_per_tatum + frames_per_beat % slots_per_beat,
            slots_per_beat >= 1,
            frames_per_beat >= 1,
            frames_per_beat % slots_per_beat >= 0,
    ;
    assert(16 * frames_per_tatum <= frames_per_beat * beats) by (nonlinear_arith)
        requires
            frames_per_tatum * slots_per_beat <= frames_per_beat,
            slots_per_beat * beats == 16,
            beats >= 1,
            frames_per_tatum >= 0,
    ;
    if frames_per_tatum == 0 {
        assert(frames_per_beat * beats >= 1) by (nonlinear_arith)
            requires
                frames_per_beat >= 1,
                beats >= 1,
        ;
    }
}

/// The frame-domain view of the session: everything the scheduler needs to
/// know about musical time, derived from the sample rate and the project's
/// time signature.
#[derive(PartialEq, Eq, Structural, Clone, Copy, Debug)]
pub struct TimingInfo {
    pub frames_per_second: FramesPerSecond,
}

impl TimingInfo {
    /// Frames in one beat, rounded to the nearest whole frame.
    pub fn frames_per_beat(&self, time_info: &ProjectTimeInfo) -> (r: FramesPerBeat)
        requires
            timing_wf(*self, *time_info),
        ensures
            r.0 == spec_frames_per_beat(self.frames_per_second.0 as int, time_info.bpm.0 as int),
    {
        let fps: u64 = self.frames_per_second.0 as u64;
        let bpm: u64 = time_info.bpm.0 as u64;
        let frames: u64 = (120 * fps + bpm) / (2 * bpm);
        proof {
            assert(spec_frames_per_bar(self.frames_per_second.0 as int, *time_info)
                >= spec_frames_per_beat(self.frames_per_second.0 as int, time_info.bpm.0 as int))
                by (nonlinear_arith)
                requires
                    spec_frames_per_bar(self.frames_per_second.0 as int, *time_info)
                        == spec_frames_per_beat(
                        self.frames_per_second.0 as int,
                        time_info.bpm.0 as int,
                    ) * time_info.beats_per_bar,
                    time_info.beats_per_bar >= 1,
                    spec_frames_per_beat(self.frames_per_second.0 as int, time_info.bpm.0 as int)
                        >= 1,
            ;
        }
        FramesPerBeat(frames as u32)
    }

    /// Frames in one subdivision slot.
    pub fn frames_per_tatum(&self, time_info: &ProjectTimeInfo) -> (r: FramesPerTatum)
        requires
            timing_wf(*self, *time_info),
        ensures
            r.0 == spec_frames_per_tatum(self.frames_per_second.0 as int, *time_info),
    {
        let frames_per_beat = self.frames_per_beat(time_info);
        let tatums_per_beat: u32 = (TATUM_SUBDIVDISONS_PER_BAR as u32) / time_info.beats_per_bar;
        proof {
            assert(16 as int / (time_info.beats_per_bar as int) >= 1) by (nonlinear_arith)
                requires
                    1 <= time_info.beats_per_bar <= 16,
            ;
        }
        FramesPerTatum(frames_per_beat.0 / tatums_per_beat)
    }

    /// Frames in one bar.
    pub fn frames_per_bar(&self, time_info: &ProjectTimeInfo) -> (r: FramesPerBar)
        requires
            timing_wf(*self, *time_info),
        ensures
            r.0 == spec_frames_per_bar(self.frames_per_second.0 as int, *time_info),
            r.0 >= 1,
    {
        let frames_per_beat = self.frames_per_beat(time_info);
        proof {
            assert(frames_per_beat.0 * time_info.beats_per_bar >= 1) by (nonlinear_arith)
                requires
                    frames_per_beat.0 >= 1,
                    time_info.beats_per_bar >= 1,
            ;
        }
        FramesPerBar(frames_per_beat.0 * time_info.beats_per_bar)
    }

    /// The last addressable frame offset inside a bar.
    pub fn frames_end_of_bar(&self, time_info: &ProjectTimeInfo) -> (r: FrameOffset)
        requires
            timing_wf(*self, *time_info),
        ensures
            r.0 == spec_frames_per_bar(self.frames_per_second.0 as int, *time_info) - 1,
    {
        let frames_per_bar = self.frames_per_bar(time_info);
        FrameOffset::from(frames_per_bar.0 - 1)
    }
}

impl FramesPerBar {
    /// The bar-relative position of an absolute frame count.
    pub fn frames_through_bar(&self, total_frames: &u32) -> (r: FrameOffset)
        requires
            self.0 >= 1,
        ensures
            r.0 == *total_frames as int % self.0 as int,
            r.0 < self.0,
    {
        let frames_through_bar = *total_frames % self.0;
        FrameOffset::from(frames_through_bar)
    }

    /// Frames left from a bar-relative position to the end of the bar.
    pub fn sub(self, rhs: FrameOffset) -> (r: FrameOffset)
        requires
            rhs.0 <= self.0,
        ensures
            r.0 == self.0 - rhs.0,
    {
        FrameOffset::from(self.0 - rhs.0)
    }
}

} // verus!
