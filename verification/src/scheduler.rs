use vstd::prelude::*;

use crate::chord_sequence::ChordSequence;
use crate::note::Note;
use crate::project_time_info::ProjectTimeInfo;
use crate::sequence_translation::{
    chord_sequence_to_frame_offset, spec_event_pitch, spec_translate, Event, FrameOffset,
    MidiEvent,
};
use crate::timing_info::{spec_frames_per_bar, spec_frames_per_tatum, timing_wf, TimingInfo};

verus! {

// ------------------------------------------------------------------
// Projecting a bar-relative offset onto the absolute frame counter.
// ------------------------------------------------------------------

/// The first absolute frame at or after `last_frame_time` whose bar-relative
/// position is `offset`: either the occurrence inside the current bar, or,
/// when that has already passed, the one in the next bar.
pub open spec fn spec_next_occurrence(last_frame_time: int, offset: int, frames_per_bar: int) -> int
    recommends
        frames_per_bar >= 1,
        0 <= offset < frames_per_bar,
        last_frame_time >= 0,
{
    let since_bar_start = last_frame_time % frames_per_bar;
    let in_current_bar = last_frame_time - since_bar_start + offset;
    if in_current_bar >= last_frame_time {
        in_current_bar
    } else {
        in_current_bar + frames_per_bar
    }
}

/// The absolute frame at which a bar-relative offset next comes due, never
/// earlier than `last_frame_time` and always within one bar of it.
pub fn frames_of_next_offset(
    last_frame_time: u32,
    frames_through_bar: FrameOffset,
    jack_timing_info: &TimingInfo,
    project_timing_info: &ProjectTimeInfo,
) -> (r: u32)
    requires
        timing_wf(*jack_timing_info, *project_timing_info),
        frames_through_bar.0 < spec_frames_per_bar(
            jack_timing_info.frames_per_second.0 as int,
            *project_timing_info,
        ),
        last_frame_time + spec_frames_per_bar(
            jack_timing_info.frames_per_second.0 as int,
            *project_timing_info,
        ) <= u32::MAX,
    ensures
        r == spec_next_occurrence(
            last_frame_time as int,
            frames_through_bar.0 as int,
            spec_frames_per_bar(jack_timing_info.frames_per_second.0 as int, *project_timing_info),
        ),
        r >= last_frame_time,
        r - last_frame_time < spec_frames_per_bar(
            jack_timing_info.frames_per_second.0 as int,
            *project_timing_info,
        ),
        r as int % spec_frames_per_bar(
            jack_timing_info.frames_per_second.0 as int,
            *project_timing_info,
        ) == frames_through_bar.0,
{
    let frames_per_bar = jack_timing_info.frames_per_bar(project_timing_info);
    let frames_since_start_of_last_bar = frames_per_bar.frames_through_bar(&last_frame_time);
    proof {
        vstd::arithmetic::div_mod::lemma_mod_decreases(
            last_frame_time as nat,
            frames_per_bar.0 as nat,
        );
        lemma_bar_aligned_offset_mod(
            last_frame_time as int,
            frames_through_bar.0 as int,
            frames_per_bar.0 as int,
        );
    }
    let frames_til_next_bar = frames_per_bar.sub(frames_since_start_of_last_bar);
    let start_frame_of_current_bar = last_frame_time - frames_since_start_of_last_bar.0;
    let time_in_current_bar = start_frame_of_current_bar + frames_through_bar.0;
    if time_in_current_bar >= last_frame_time {
        return time_in_current_bar;
    }
    let start_frame_of_next_bar = last_frame_time + frames_til_next_bar.0;
    let time_in_next_bar = start_frame_of_next_bar + frames_through_bar.0;
    time_in_next_bar
}

/// The next occurrence really lands at the requested bar-relative position:
/// stepping from the start of a bar by `offset` frames, in this bar or the
/// next, is congruent to `offset` modulo the bar length.
proof fn lemma_bar_aligned_offset_mod(last_frame_time: int, offset: int, frames_per_bar: int)
    requires
        frames_per_bar >= 1,
        0 <= offset < frames_per_bar,
        last_frame_time >= 0,
    ensures
        spec_next_occurrence(last_frame_time, offset, frames_per_bar) % frames_per_bar == offset,
{
    let since_bar_start = last_frame_time % frames_per_bar;
    let bars = last_frame_time / frames_per_bar;
    vstd::arithmetic::div_mod::lemma_fundamental_div_mod(last_frame_time, frames_per_bar);
    vstd::arithmetic::div_mod::lemma_small_mod(offset as nat, frames_per_bar as nat);
    let in_current_bar = last_frame_time - since_bar_start + offset;
    assert(in_current_bar == frames_per_bar * bars + offset);
    vstd::arithmetic::div_mod::lemma_mod_multiples_vanish(bars, offset, frames_per_bar);
    if in_current_bar < last_frame_time {
        vstd::arithmetic::div_mod::lemma_mod_multiples_vanish(
            bars + 1,
            offset,
            frames_per_bar,
        );
        assert(in_current_bar + frames_per_bar == frames_per_bar * (bars + 1) + offset)
            by (nonlinear_arith)
            requires
                in_current_bar == frames_per_bar * bars + offset,
        ;
    }
}

/// Whether the next occurrence of a bar-relative offset falls inside the
/// window of `n_frames` frames starting at `last_frame_time`.
pub fn is_upcoming_event(
    event_time_through_bar: FrameOffset,
    last_frame_time: u32,
    n_frames: u32,
    jack_timing_info: &TimingInfo,
    project_timing_info: &ProjectTimeInfo,
) -> (r: bool)
    requires
        timing_wf(*jack_timing_info, *project_timing_info),
        event_time_through_bar.0 < spec_frames_per_bar(
            jack_timing_info.frames_per_second.0 as int,
            *project_timing_info,
        ),
        last_frame_time + spec_frames_per_bar(
            jack_timing_info.frames_per_second.0 as int,
            *project_timing_info,
        ) <= u32::MAX,
    ensures
        r == (spec_next_occurrence(
            last_frame_time as int,
            event_time_through_bar.0 as int,
            spec_frames_per_bar(jack_timing_info.frames_per_second.0 as int, *project_timing_info),
        ) - last_frame_time < n_frames),
{
    let event_frame_time = frames_of_next_offset(
        last_frame_time,
        event_time_through_bar,
        jack_timing_info,
        project_timing_info,
    );
    event_frame_time - last_frame_time < n_frames
}

// ------------------------------------------------------------------
// Replaying a timeline: which pitches sound at a bar position.
// ------------------------------------------------------------------

/// Remove the first occurrence of a note from a replay list; a list that the
/// replay built never holds a note twice, so this is set removal.
pub open spec fn spec_remove_note(live: Seq<Note>, n: Note) -> Seq<Note>
    decreases live.len(),
{
    if live.len() == 0 {
        live
    } else if live[0] == n {
        live.drop_first()
    } else {
        seq![live[0]] + spec_remove_note(live.drop_first(), n)
    }
}

/// One replay step: an event strictly before the point turns its pitch on or
/// off; an event at or after the point is ignored.
pub open spec fn spec_apply_event(live: Seq<Note>, e: Event, point: int) -> Seq<Note> {
    if e.bar_offset_frames.0 < point {
        match e.event {
            MidiEvent::NoteOn(n) => if live.contains(n) {
                live
            } else {
                live.push(n)
            },
            MidiEvent::NoteOff(n) => spec_remove_note(live, n),
        }
    } else {
        live
    }
}

/// The pitches sounding at a bar position under a timeline: replay, in order,
/// every event whose offset is strictly before the position.
pub open spec fn spec_notes_on(events: Seq<Event>, point: int) -> Seq<Note>
    decreases events.len(),
{
    if events.len() == 0 {
        Seq::empty()
    } else {
        spec_apply_event(spec_notes_on(events.drop_last(), point), events.last(), point)
    }
}

/// Removing a note at the index of its first occurrence is removing that index.
proof fn lemma_remove_note_at(live: Seq<Note>, n: Note, i: int)
    requires
        0 <= i < live.len(),
        live[i] == n,
        forall|j: int| 0 <= j < i ==> live[j] != n,
    ensures
        spec_remove_note(live, n) == live.remove(i),
    decreases i,
{
    if i == 0 {
        assert(spec_remove_note(live, n) =~= live.remove(0));
    } else {
        lemma_remove_note_at(live.drop_first(), n, i - 1);
        assert(seq![live[0]] + live.drop_first().remove(i - 1) =~= live.remove(i));
    }
}

/// Removing an absent note changes nothing.
proof fn lemma_remove_note_absent(live: Seq<Note>, n: Note)
    requires
        !live.contains(n),
    ensures
        spec_remove_note(live, n) == live,
    decreases live.len(),
{
    if live.len() > 0 {
        assert(live[0] != n);
        assert(!live.drop_first().contains(n)) by {
            if live.drop_first().contains(n) {
                let k = choose|k: int| 0 <= k < live.drop_first().len() && live.drop_first()[k] == n;
                assert(live[k + 1] == n);
            }
        }
        lemma_remove_note_absent(live.drop_first(), n);
        assert(seq![live[0]] + live.drop_first() =~= live);
    }
}

/// Removal never introduces a note.
proof fn lemma_remove_note_elements(live: Seq<Note>, n: Note)
    ensures
        forall|k: int|
            0 <= k < spec_remove_note(live, n).len() ==> live.contains(
                #[trigger] spec_remove_note(live, n)[k],
            ),
    decreases live.len(),
{
    if live.len() > 0 && live[0] != n {
        lemma_remove_note_elements(live.drop_first(), n);
        assert forall|k: int| 0 <= k < spec_remove_note(live, n).len() implies live.contains(
            #[trigger] spec_remove_note(live, n)[k],
        ) by {
            if k == 0 {
                assert(live[0] == spec_remove_note(live, n)[0]);
            } else {
                let x = spec_remove_note(live, n)[k];
                assert(spec_remove_note(live.drop_first(), n)[k - 1] == x);
                assert(live.drop_first().contains(x));
                let j = choose|j: int| 0 <= j < live.drop_first().len() && live.drop_first()[j] == x;
                assert(live[j + 1] == x);
            }
        }
    } else if live.len() > 0 {
        assert forall|k: int| 0 <= k < spec_remove_note(live, n).len() implies live.contains(
            #[trigger] spec_remove_note(live, n)[k],
        ) by {
            let x = spec_remove_note(live, n)[k];
            assert(live.drop_first()[k] == x);
            assert(live[k + 1] == x);
        }
    }
}

/// Replay only ever turns on pitches that some event carries; with every event
/// pitch on the wire's range, so is every sounding pitch.
pub proof fn lemma_notes_on_pitch_bound(events: Seq<Event>, point: int)
    requires
        forall|i: int| 0 <= i < events.len() ==> #[trigger] spec_event_pitch(events[i].event) <= 127,
    ensures
        forall|k: int|
            0 <= k < spec_notes_on(events, point).len() ==> #[trigger] spec_notes_on(
                events,
                point,
            )[k].0 <= 127,
    decreases events.len(),
{
    if events.len() > 0 {
        let prefix = events.drop_last();
        assert(forall|i: int|
            0 <= i < prefix.len() ==> #[trigger] spec_event_pitch(prefix[i].event) <= 127) by {
            assert(forall|i: int| 0 <= i < prefix.len() ==> prefix[i] == events[i]);
        }
        lemma_notes_on_pitch_bound(prefix, point);
        let live = spec_notes_on(prefix, point);
        let e = events.last();
        assert(spec_event_pitch(e.event) <= 127);
        match e.event {
            MidiEvent::NoteOn(n) => {}
            MidiEvent::NoteOff(n) => {
                if e.bar_offset_frames.0 < point {
                    lemma_remove_note_elements(live, n);
                    assert forall|k: int| 0 <= k < spec_notes_on(events, point).len() implies
                        #[trigger] spec_notes_on(events, point)[k].0 <= 127 by {
                        let x = spec_notes_on(events, point)[k];
                        assert(live.contains(x));
                        let j = choose|j: int| 0 <= j < live.len() && live[j] == x;
                    }
                }
            }
        }
    }
}

/// Whether a replay list holds a note.
fn note_vec_contains(live: &Vec<Note>, n: Note) -> (r: bool)
    ensures
        r == live@.contains(n),
{
    let mut i: usize = 0;
    while i < live.len()
        invariant
            i <= live@.len(),
            forall|j: int| 0 <= j < i ==> live@[j] != n,
        decreases live@.len() - i,
    {
        if live[i] == n {
            return true;
        }
        i += 1;
    }
    false
}

/// Drop a note from a replay list, first occurrence only.
fn note_vec_remove(live: &mut Vec<Note>, n: Note)
    ensures
        final(live)@ == spec_remove_note(old(live)@, n),
{
    let mut i: usize = 0;
    while i < live.len()
        invariant
            i <= live@.len(),
            live@ == old(live)@,
            forall|j: int| 0 <= j < i ==> live@[j] != n,
        decreases live@.len() - i,
    {
        if live[i] == n {
            live.remove(i);
            proof {
                lemma_remove_note_at(old(live)@, n, i as int);
            }
            return;
        }
        i += 1;
    }
    proof {
        lemma_remove_note_absent(live@, n);
    }
}

/// The pitches sounding at a bar position under a timeline. The returned list
/// never repeats a pitch; it is the replayed on-set in first-on order.
pub fn notes_on_at_point(sequence: &Vec<Event>, frames_through_bar: FrameOffset) -> (r: Vec<Note>)
    ensures
        r@ == spec_notes_on(sequence@, frames_through_bar.0 as int),
{
    let point = frames_through_bar.0;
    let mut live_notes: Vec<Note> = Vec::new();
    let mut i: usize = 0;
    while i < sequence.len()
        invariant
            i <= sequence@.len(),
            live_notes@ == spec_notes_on(sequence@.take(i as int), point as int),
        decreases sequence@.len() - i,
    {
        let e = sequence[i];
        if e.bar_offset_frames.0 < point {
            match e.event {
                MidiEvent::NoteOn(note) => {
                    if !note_vec_contains(&live_notes, note) {
                        live_notes.push(note);
                    }
                }
                MidiEvent::NoteOff(note) => {
                    note_vec_remove(&mut live_notes, note);
                }
            }
        }
        proof {
            assert(sequence@.take(i as int + 1).drop_last() =~= sequence@.take(i as int));
            assert(sequence@.take(i as int + 1).last() == sequence@[i as int]);
        }
        i += 1;
    }
    proof {
        assert(sequence@.take(sequence@.len() as int) =~= sequence@);
    }
    live_notes
}

// ------------------------------------------------------------------
// Diffing two replayed on-sets.
// ------------------------------------------------------------------

/// The notes of `a` that have no representation in `b`, in `a`'s order.
pub open spec fn spec_diff(a: Seq<Note>, b: Seq<Note>) -> Seq<Note>
    decreases a.len(),
{
    if a.len() == 0 {
        Seq::empty()
    } else {
        let rest = spec_diff(a.drop_last(), b);
        if b.contains(a.last()) {
            rest
        } else {
            rest.push(a.last())
        }
    }
}

/// The pitches sounding under the stale timeline that the fresh timeline no
/// longer accounts for; they must be silenced at once.
pub open spec fn spec_lingering(old_events: Seq<Event>, new_events: Seq<Event>, point: int)
    -> Seq<Note> {
    spec_diff(spec_notes_on(old_events, point), spec_notes_on(new_events, point))
}

/// The pitches newly sounding under the fresh timeline; their own scheduled
/// note-offs are stale cancellations and are suppressed for this window.
pub open spec fn spec_ghost_notes(old_events: Seq<Event>, new_events: Seq<Event>, point: int)
    -> Seq<Note> {
    spec_diff(spec_notes_on(new_events, point), spec_notes_on(old_events, point))
}

/// The set difference of two replay lists, in the first list's order.
fn note_vec_diff(a: &Vec<Note>, b: &Vec<Note>) -> (r: Vec<Note>)
    ensures
        r@ == spec_diff(a@, b@),
{
    let mut r: Vec<Note> = Vec::new();
    let mut i: usize = 0;
    while i < a.len()
        invariant
            i <= a@.len(),
            r@ == spec_diff(a@.take(i as int), b@),
        decreases a@.len() - i,
    {
        let n = a[i];
        if !note_vec_contains(b, n) {
            r.push(n);
        }
        proof {
            assert(a@.take(i as int + 1).drop_last() =~= a@.take(i as int));
            assert(a@.take(i as int + 1).last() == a@[i as int]);
        }
        i += 1;
    }
    proof {
        assert(a@.take(a@.len() as int) =~= a@);
    }
    r
}

/// The pitches sounding under the old timeline at a bar position that the new
/// timeline does not account for.
pub fn lingering_notes(
    old_events: &Vec<Event>,
    new_events: &Vec<Event>,
    frames_through_bar: FrameOffset,
) -> (r: Vec<Note>)
    ensures
        r@ == spec_lingering(old_events@, new_events@, frames_through_bar.0 as int),
{
    let old_notes_on = notes_on_at_point(old_events, frames_through_bar);
    let new_notes_on = notes_on_at_point(new_events, frames_through_bar);
    note_vec_diff(&old_notes_on, &new_notes_on)
}

/// The pitches newly sounding under the new timeline at a bar position that
/// were not sounding under the old one.
pub fn ghost_notes(
    old_events: &Vec<Event>,
    new_events: &Vec<Event>,
    frames_through_bar: FrameOffset,
) -> (r: Vec<Note>)
    ensures
        r@ == spec_ghost_notes(old_events@, new_events@, frames_through_bar.0 as int),
{
    let old_notes_on = notes_on_at_point(old_events, frames_through_bar);
    let new_notes_on = notes_on_at_point(new_events, frames_through_bar);
    note_vec_diff(&new_notes_on, &old_notes_on)
}

/// Differencing against a list that covers you leaves nothing.
proof fn lemma_diff_subset_empty(a: Seq<Note>, b: Seq<Note>)
    requires
        forall|i: int| 0 <= i < a.len() ==> b.contains(#[trigger] a[i]),
    ensures
        spec_diff(a, b) == Seq::<Note>::empty(),
    decreases a.len(),
{
    if a.len() > 0 {
        assert(forall|i: int|
            0 <= i < a.drop_last().len() ==> b.contains(#[trigger] a.drop_last()[i])) by {
            assert(forall|i: int| 0 <= i < a.drop_last().len() ==> a.drop_last()[i] == a[i]);
        }
        lemma_diff_subset_empty(a.drop_last(), b);
        assert(b.contains(a.last()));
    }
}

/// Calling the scheduler again with no intervening edit produces nothing to
/// silence and nothing to suppress: when the two timelines are the same, the
/// lingering set and the ghost set are both empty, at every bar position.
pub proof fn lemma_unedited_timeline_never_lingers(
    old_events: Seq<Event>,
    new_events: Seq<Event>,
    point: int,
)
    requires
        old_events == new_events,
    ensures
        spec_lingering(old_events, new_events, point) == Seq::<Note>::empty(),
        spec_ghost_notes(old_events, new_events, point) == Seq::<Note>::empty(),
{
    let on = spec_notes_on(old_events, point);
    assert(forall|i: int| 0 <= i < on.len() ==> on.contains(#[trigger] on[i]));
    lemma_diff_subset_empty(on, on);
}

/// What `a` keeps in a difference: exactly its notes that `b` lacks.
proof fn lemma_diff_contains(a: Seq<Note>, b: Seq<Note>, n: Note)
    requires
        a.contains(n),
        !b.contains(n),
    ensures
        spec_diff(a, b).contains(n),
    decreases a.len(),
{
    if a.len() > 0 {
        if a.last() == n {
            assert(spec_diff(a, b).last() == n);
        } else {
            let i = choose|i: int| 0 <= i < a.len() && a[i] == n;
            assert(a.drop_last()[i] == n);
            lemma_diff_contains(a.drop_last(), b, n);
            let j = choose|j: int|
                0 <= j < spec_diff(a.drop_last(), b).len() && spec_diff(a.drop_last(), b)[j] == n;
            assert(spec_diff(a, b)[j] == n);
        }
    }
}

/// Every note of a difference comes from the first list.
proof fn lemma_diff_elements(a: Seq<Note>, b: Seq<Note>)
    ensures
        forall|k: int|
            0 <= k < spec_diff(a, b).len() ==> a.contains(#[trigger] spec_diff(a, b)[k]),
    decreases a.len(),
{
    if a.len() > 0 {
        lemma_diff_elements(a.drop_last(), b);
        assert forall|k: int| 0 <= k < spec_diff(a, b).len() implies a.contains(
            #[trigger] spec_diff(a, b)[k],
        ) by {
            let x = spec_diff(a, b)[k];
            if k < spec_diff(a.drop_last(), b).len() {
                assert(spec_diff(a.drop_last(), b)[k] == x);
                assert(a.drop_last().contains(x));
                let j = choose|j: int| 0 <= j < a.drop_last().len() && a.drop_last()[j] == x;
                assert(a[j] == x);
            } else {
                assert(x == a.last());
            }
        }
    }
}

// ------------------------------------------------------------------
// Assembling one window's messages.
// ------------------------------------------------------------------

/// Whether an event's note-off is suppressed this window because it targets a
/// ghost note.
pub open spec fn spec_suppressed(e: Event, ghost_set: Seq<Note>) -> bool {
    match e.event {
        MidiEvent::NoteOff(n) => ghost_set.contains(n),
        MidiEvent::NoteOn(_) => false,
    }
}

/// The timeline events whose next occurrence falls inside the window, in
/// timeline order, each stamped with its window-relative offset; suppressed
/// note-offs are dropped.
pub open spec fn spec_upcoming_events(
    events: Seq<Event>,
    ghost_set: Seq<Note>,
    last_frame_time: int,
    n_frames: int,
    frames_per_bar: int,
) -> Seq<(u32, MidiEvent)>
    decreases events.len(),
{
    if events.len() == 0 {
        Seq::empty()
    } else {
        let rest = spec_upcoming_events(
            events.drop_last(),
            ghost_set,
            last_frame_time,
            n_frames,
            frames_per_bar,
        );
        let e = events.last();
        let occurrence = spec_next_occurrence(
            last_frame_time,
            e.bar_offset_frames.0 as int,
            frames_per_bar,
        );
        if occurrence - last_frame_time < n_frames && !spec_suppressed(e, ghost_set) {
            rest.push((((occurrence - last_frame_time) as u32), e.event))
        } else {
            rest
        }
    }
}

/// The forced note-offs for lingering notes, all at window-relative offset 0.
pub open spec fn spec_lingering_messages(lingering: Seq<Note>) -> Seq<(u32, MidiEvent)> {
    lingering.map_values(|n: Note| (0u32, MidiEvent::NoteOff(n)))
}

/// Nondecreasing window-relative offsets.
pub open spec fn spec_sorted_by_offset(s: Seq<(u32, MidiEvent)>) -> bool {
    forall|i: int, j: int| 0 <= i < j < s.len() ==> s[i].0 <= s[j].0
}

/// Insert a message after every message already due at or before its offset:
/// the insertion step of a stable sort.
pub open spec fn spec_insert_by_offset(s: Seq<(u32, MidiEvent)>, x: (u32, MidiEvent)) -> Seq<
    (u32, MidiEvent),
>
    decreases s.len(),
{
    if s.len() == 0 {
        seq![x]
    } else if s[0].0 <= x.0 {
        seq![s[0]] + spec_insert_by_offset(s.drop_first(), x)
    } else {
        seq![x] + s
    }
}

/// Stable sort by window-relative offset: messages with equal offsets keep
/// their construction order.
pub open spec fn spec_sort_by_offset(s: Seq<(u32, MidiEvent)>) -> Seq<(u32, MidiEvent)>
    decreases s.len(),
{
    if s.len() == 0 {
        Seq::empty()
    } else {
        spec_insert_by_offset(spec_sort_by_offset(s.drop_last()), s.last())
    }
}

/// Everything the scheduler owes to one callback window: the lingering
/// note-offs at offset 0, merged with the window's upcoming timeline events,
/// sorted ascending by offset, stable on ties.
pub open spec fn spec_midi_events_for_window(
    old_events: Seq<Event>,
    new_events: Seq<Event>,
    last_frame_time: int,
    n_frames: int,
    frames_per_bar: int,
) -> Seq<(u32, MidiEvent)>
    recommends
        frames_per_bar >= 1,
{
    let point = last_frame_time % frames_per_bar;
    spec_sort_by_offset(
        spec_lingering_messages(spec_lingering(old_events, new_events, point))
            + spec_upcoming_events(
            new_events,
            spec_ghost_notes(old_events, new_events, point),
            last_frame_time,
            n_frames,
            frames_per_bar,
        ),
    )
}

/// Inserting into a sorted list keeps it sorted, adds the new message, and
/// invents nothing else.
proof fn lemma_insert_by_offset_props(s: Seq<(u32, MidiEvent)>, x: (u32, MidiEvent))
    requires
        spec_sorted_by_offset(s),
    ensures
        spec_sorted_by_offset(spec_insert_by_offset(s, x)),
        spec_insert_by_offset(s, x).len() == s.len() + 1,
        forall|k: int|
            0 <= k < spec_insert_by_offset(s, x).len() ==> (#[trigger] spec_insert_by_offset(
                s,
                x,
            )[k] == x || s.contains(spec_insert_by_offset(s, x)[k])),
    decreases s.len(),
{
    if s.len() > 0 && s[0].0 <= x.0 {
        assert(spec_sorted_by_offset(s.drop_first())) by {
            assert(forall|i: int|
                0 <= i < s.drop_first().len() ==> #[trigger] s.drop_first()[i] == s[i + 1]);
        }
        lemma_insert_by_offset_props(s.drop_first(), x);
        let r = spec_insert_by_offset(s, x);
        let inner = spec_insert_by_offset(s.drop_first(), x);
        assert forall|k: int| 0 <= k < r.len() implies (#[trigger] r[k] == x || s.contains(r[k]))
            by {
            if k == 0 {
                assert(s.contains(s[0]));
            } else {
                assert(r[k] == inner[k - 1]);
                if inner[k - 1] != x {
                    assert(s.drop_first().contains(inner[k - 1]));
                    let j = choose|j: int|
                        0 <= j < s.drop_first().len() && s.drop_first()[j] == inner[k - 1];
                    assert(s[j + 1] == inner[k - 1]);
                }
            }
        }
        assert forall|i: int, j: int| 0 <= i < j < r.len() implies r[i].0 <= r[j].0 by {
            if i == 0 {
                if inner[j - 1] != x {
                    assert(s.drop_first().contains(inner[j - 1]));
                    let m = choose|m: int|
                        0 <= m < s.drop_first().len() && s.drop_first()[m] == inner[j - 1];
                    assert(s[m + 1] == inner[j - 1]);
                    assert(s[0].0 <= s[m + 1].0);
                }
            } else {
                assert(r[i] == inner[i - 1] && r[j] == inner[j - 1]);
            }
        }
    }
}

/// Sorting keeps the length and invents no message.
proof fn lemma_sort_by_offset_props(s: Seq<(u32, MidiEvent)>)
    ensures
        spec_sorted_by_offset(spec_sort_by_offset(s)),
        spec_sort_by_offset(s).len() == s.len(),
        forall|k: int|
            0 <= k < spec_sort_by_offset(s).len() ==> s.contains(
                #[trigger] spec_sort_by_offset(s)[k],
            ),
    decreases s.len(),
{
    if s.len() > 0 {
        lemma_sort_by_offset_props(s.drop_last());
        lemma_insert_by_offset_props(spec_sort_by_offset(s.drop_last()), s.last());
        assert forall|k: int| 0 <= k < spec_sort_by_offset(s).len() implies s.contains(
            #[trigger] spec_sort_by_offset(s)[k],
        ) by {
            let x = spec_sort_by_offset(s)[k];
            if x == s.last() {
                assert(s[s.len() - 1] == x);
            } else {
                assert(spec_sort_by_offset(s.drop_last()).contains(x));
                let j = choose|j: int|
                    0 <= j < spec_sort_by_offset(s.drop_last()).len() && spec_sort_by_offset(
                        s.drop_last(),
                    )[j] == x;
                let m = choose|m: int|
                    0 <= m < s.drop_last().len() && s.drop_last()[m] == x;
                assert(s[m] == x);
            }
        }
    }
}

/// A sorted list still holds whatever the unsorted one held.
proof fn lemma_sort_by_offset_contains(s: Seq<(u32, MidiEvent)>, x: (u32, MidiEvent))
    requires
        s.contains(x),
    ensures
        spec_sort_by_offset(s).contains(x),
    decreases s.len(),
{
    if s.len() > 0 {
        if s.last() == x {
            lemma_insert_by_offset_contains_inserted(spec_sort_by_offset(s.drop_last()), x);
        } else {
            let i = choose|i: int| 0 <= i < s.len() && s[i] == x;
            assert(s.drop_last()[i] == x);
            lemma_sort_by_offset_contains(s.drop_last(), x);
            lemma_insert_by_offset_keeps(spec_sort_by_offset(s.drop_last()), s.last(), x);
        }
    }
}

/// The inserted message is in the result.
proof fn lemma_insert_by_offset_contains_inserted(s: Seq<(u32, MidiEvent)>, x: (u32, MidiEvent))
    ensures
        spec_insert_by_offset(s, x).contains(x),
    decreases s.len(),
{
    if s.len() > 0 && s[0].0 <= x.0 {
        lemma_insert_by_offset_contains_inserted(s.drop_first(), x);
        let inner = spec_insert_by_offset(s.drop_first(), x);
        let j = choose|j: int| 0 <= j < inner.len() && inner[j] == x;
        assert(spec_insert_by_offset(s, x)[j + 1] == x);
    } else {
        assert(spec_insert_by_offset(s, x)[0] == x);
    }
}

/// Insertion keeps every message the list already held.
proof fn lemma_insert_by_offset_keeps(
    s: Seq<(u32, MidiEvent)>,
    x: (u32, MidiEvent),
    y: (u32, MidiEvent),
)
    requires
        s.contains(y),
    ensures
        spec_insert_by_offset(s, x).contains(y),
    decreases s.len(),
{
    if s.len() > 0 {
        if s[0].0 <= x.0 {
            if s[0] == y {
                assert(spec_insert_by_offset(s, x)[0] == y);
            } else {
                let i = choose|i: int| 0 <= i < s.len() && s[i] == y;
                assert(s.drop_first()[i - 1] == y);
                lemma_insert_by_offset_keeps(s.drop_first(), x, y);
                let inner = spec_insert_by_offset(s.drop_first(), x);
                let j = choose|j: int| 0 <= j < inner.len() && inner[j] == y;
                assert(spec_insert_by_offset(s, x)[j + 1] == y);
            }
        } else {
            let i = choose|i: int| 0 <= i < s.len() && s[i] == y;
            assert(spec_insert_by_offset(s, x)[i + 1] == y);
        }
    }
}

/// Splitting a sorted list at the first later offset reconstructs the
/// insertion step.
proof fn lemma_insert_by_offset_at(s: Seq<(u32, MidiEvent)>, x: (u32, MidiEvent), pos: int)
    requires
        spec_sorted_by_offset(s),
        0 <= pos <= s.len(),
        forall|j: int| 0 <= j < pos ==> s[j].0 <= x.0,
        pos == s.len() || s[pos].0 > x.0,
    ensures
        spec_insert_by_offset(s, x) == s.insert(pos, x),
    decreases pos,
{
    if pos == 0 {
        if s.len() == 0 {
            assert(spec_insert_by_offset(s, x) =~= s.insert(0, x));
        } else {
            assert(spec_insert_by_offset(s, x) =~= s.insert(0, x));
        }
    } else {
        assert(spec_sorted_by_offset(s.drop_first())) by {
            assert(forall|i: int|
                0 <= i < s.drop_first().len() ==> #[trigger] s.drop_first()[i] == s[i + 1]);
        }
        lemma_insert_by_offset_at(s.drop_first(), x, pos - 1);
        assert(seq![s[0]] + s.drop_first().insert(pos - 1, x) =~= s.insert(pos, x));
    }
}

/// Sort a message list ascending by window-relative offset, stable on ties.
fn sort_by_offset(input: Vec<(u32, MidiEvent)>) -> (r: Vec<(u32, MidiEvent)>)
    ensures
        r@ == spec_sort_by_offset(input@),
{
    let mut result: Vec<(u32, MidiEvent)> = Vec::new();
    let mut idx: usize = 0;
    while idx < input.len()
        invariant
            idx <= input@.len(),
            result@ == spec_sort_by_offset(input@.take(idx as int)),
            spec_sorted_by_offset(result@),
        decreases input@.len() - idx,
    {
        let x = input[idx];
        let mut pos: usize = 0;
        while pos < result.len() && result[pos].0 <= x.0
            invariant
                pos <= result@.len(),
                forall|j: int| 0 <= j < pos ==> result@[j].0 <= x.0,
            decreases result@.len() - pos,
        {
            pos += 1;
        }
        proof {
            lemma_insert_by_offset_at(result@, x, pos as int);
            lemma_insert_by_offset_props(result@, x);
            assert(input@.take(idx as int + 1).drop_last() =~= input@.take(idx as int));
            assert(input@.take(idx as int + 1).last() == input@[idx as int]);
        }
        result.insert(pos, x);
        idx += 1;
    }
    proof {
        assert(input@.take(input@.len() as int) =~= input@);
    }
    result
}

/// Compute the exact messages owed to the window of `n_frames` frames starting
/// at `last_frame_time`: forced note-offs for lingering notes at offset 0,
/// then every upcoming, non-suppressed timeline event at its window-relative
/// offset, sorted ascending, stable on ties. Every emitted offset is strictly
/// inside the window.
pub fn get_midi_events_for_next_n_frames(
    last_frame_time: u32,
    n_frames: u32,
    sequence: &Vec<Event>,
    old_sequence: &Vec<Event>,
    jack_timing_info: &TimingInfo,
    project_timing_info: &ProjectTimeInfo,
) -> (r: Vec<(u32, MidiEvent)>)
    requires
        timing_wf(*jack_timing_info, *project_timing_info),
        n_frames >= 1,
        last_frame_time + spec_frames_per_bar(
            jack_timing_info.frames_per_second.0 as int,
            *project_timing_info,
        ) <= u32::MAX,
        forall|i: int|
            0 <= i < sequence@.len() ==> #[trigger] sequence@[i].bar_offset_frames.0
                < spec_frames_per_bar(
                jack_timing_info.frames_per_second.0 as int,
                *project_timing_info,
            ),
        forall|i: int|
            0 <= i < sequence@.len() ==> #[trigger] spec_event_pitch(sequence@[i].event) <= 127,
        forall|i: int|
            0 <= i < old_sequence@.len() ==> #[trigger] spec_event_pitch(old_sequence@[i].event)
                <= 127,
    ensures
        r@ == spec_midi_events_for_window(
            old_sequence@,
            sequence@,
            last_frame_time as int,
            n_frames as int,
            spec_frames_per_bar(jack_timing_info.frames_per_second.0 as int, *project_timing_info),
        ),
        forall|i: int| 0 <= i < r@.len() ==> #[trigger] r@[i].0 < n_frames,
        forall|i: int, j: int| 0 <= i < j < r@.len() ==> r@[i].0 <= r@[j].0,
        forall|i: int| 0 <= i < r@.len() ==> #[trigger] spec_event_pitch(r@[i].1) <= 127,
{
    let ghost fpb: int = spec_frames_per_bar(
        jack_timing_info.frames_per_second.0 as int,
        *project_timing_info,
    );
    let frames_per_bar = jack_timing_info.frames_per_bar(project_timing_info);
    let frames_through_bar = frames_per_bar.frames_through_bar(&last_frame_time);
    let ghost point: int = last_frame_time as int % fpb;
    let lingering = lingering_notes(old_sequence, sequence, frames_through_bar);
    let ghosted = ghost_notes(old_sequence, sequence, frames_through_bar);
    proof {
        lemma_notes_on_pitch_bound(old_sequence@, point);
        lemma_diff_elements(
            spec_notes_on(old_sequence@, point),
            spec_notes_on(sequence@, point),
        );
    }
    let mut upcoming_events: Vec<(u32, MidiEvent)> = Vec::new();
    let mut i: usize = 0;
    while i < lingering.len()
        invariant
            i <= lingering@.len(),
            upcoming_events@ == spec_lingering_messages(lingering@.take(i as int)),
            forall|k: int|
                0 <= k < lingering@.len() ==> #[trigger] lingering@[k].0 <= 127,
            forall|k: int|
                0 <= k < upcoming_events@.len() ==> #[trigger] upcoming_events@[k].0 == 0,
            forall|k: int|
                0 <= k < upcoming_events@.len() ==> #[trigger] spec_event_pitch(
                    upcoming_events@[k].1,
                ) <= 127,
        decreases lingering@.len() - i,
    {
        let note = lingering[i];
        upcoming_events.push((0, MidiEvent::NoteOff(note)));
        proof {
            assert(upcoming_events@ =~= spec_lingering_messages(
                lingering@.take(i as int + 1),
            ));
        }
        i += 1;
    }
    proof {
        assert(lingering@.take(lingering@.len() as int) =~= lingering@);
    }
    let ghost lingering_msgs: Seq<(u32, MidiEvent)> = spec_lingering_messages(lingering@);
    let mut j: usize = 0;
    while j < sequence.len()
        invariant
            j <= sequence@.len(),
            timing_wf(*jack_timing_info, *project_timing_info),
            n_frames >= 1,
            fpb == spec_frames_per_bar(
                jack_timing_info.frames_per_second.0 as int,
                *project_timing_info,
            ),
            last_frame_time + fpb <= u32::MAX,
            forall|k: int|
                0 <= k < sequence@.len() ==> #[trigger] sequence@[k].bar_offset_frames.0 < fpb,
            forall|k: int|
                0 <= k < sequence@.len() ==> #[trigger] spec_event_pitch(sequence@[k].event)
                    <= 127,
            upcoming_events@ == lingering_msgs + spec_upcoming_events(
                sequence@.take(j as int),
                ghosted@,
                last_frame_time as int,
                n_frames as int,
                fpb,
            ),
            forall|k: int|
                0 <= k < upcoming_events@.len() ==> #[trigger] upcoming_events@[k].0 < n_frames,
            forall|k: int|
                0 <= k < upcoming_events@.len() ==> #[trigger] spec_event_pitch(
                    upcoming_events@[k].1,
                ) <= 127,
        decreases sequence@.len() - j,
    {
        let e = sequence[j];
        if is_upcoming_event(
            e.bar_offset_frames,
            last_frame_time,
            n_frames,
            jack_timing_info,
            project_timing_info,
        ) {
            let suppressed = match e.event {
                MidiEvent::NoteOff(note_off) => note_vec_contains(&ghosted, note_off),
                MidiEvent::NoteOn(_) => false,
            };
            if !suppressed {
                let time = frames_of_next_offset(
                    last_frame_time,
                    e.bar_offset_frames,
                    jack_timing_info,
                    project_timing_info,
                );
                let frames_to_go = time - last_frame_time;
                upcoming_events.push((frames_to_go, e.event));
            }
        }
        proof {
            assert(sequence@.take(j as int + 1).drop_last() =~= sequence@.take(j as int));
            assert(sequence@.take(j as int + 1).last() == sequence@[j as int]);
            assert(upcoming_events@ =~= lingering_msgs + spec_upcoming_events(
                sequence@.take(j as int + 1),
                ghosted@,
                last_frame_time as int,
                n_frames as int,
                fpb,
            ));
        }
        j += 1;
    }
    proof {
        assert(sequence@.take(sequence@.len() as int) =~= sequence@);
    }
    let ghost combined: Seq<(u32, MidiEvent)> = upcoming_events@;
    let sorted = sort_by_offset(upcoming_events);
    proof {
        lemma_sort_by_offset_props(combined);
        assert forall|k: int| 0 <= k < sorted@.len() implies #[trigger] sorted@[k].0 < n_frames
            by {
            assert(combined.contains(sorted@[k]));
            let m = choose|m: int| 0 <= m < combined.len() && combined[m] == sorted@[k];
        }
        assert forall|k: int| 0 <= k < sorted@.len() implies #[trigger] spec_event_pitch(
            sorted@[k].1,
        ) <= 127 by {
            assert(combined.contains(sorted@[k]));
            let m = choose|m: int| 0 <= m < combined.len() && combined[m] == sorted@[k];
        }
    }
    sorted
}

// ------------------------------------------------------------------
// Raw bytes.
// ------------------------------------------------------------------

/// The velocity stamped on every emitted note-on.
pub const NOTE_ON_VELOCITY: u8 = 120;

/// The velocity stamped on every emitted note-off.
pub const NOTE_OFF_VELOCITY: u8 = 64;

/// The wire form of one message: a channel-voice status byte for channel 1,
/// the pitch, and the fixed velocity.
pub open spec fn spec_raw_midi_bytes(e: MidiEvent) -> Seq<u8> {
    match e {
        MidiEvent::NoteOn(n) => seq![0x90u8, n.0, NOTE_ON_VELOCITY],
        MidiEvent::NoteOff(n) => seq![0x80u8, n.0, NOTE_OFF_VELOCITY],
    }
}

/// Relies on `midi_msg::MidiMsg::to_midi`: a `ChannelVoice` `NoteOn` on
/// channel 1 with a 7-bit note and velocity serialises to the status byte
/// `0x90` followed by the note and the velocity.
#[verifier::external_body]
fn note_on_bytes(note: u8, velocity: u8) -> (r: Vec<u8>)
    requires
        note <= 127,
        velocity <= 127,
    ensures
        r@ == seq![0x90u8, note, velocity],
{
    midi_msg::MidiMsg::ChannelVoice {
        channel: midi_msg::Channel::Ch1,
        msg: midi_msg::ChannelVoiceMsg::NoteOn { note, velocity },
    }.to_midi()
}

/// Relies on `midi_msg::MidiMsg::to_midi`: a `ChannelVoice` `NoteOff` on
/// channel 1 with a 7-bit note and velocity serialises to the status byte
/// `0x80` followed by the note and the velocity.
#[verifier::external_body]
fn note_off_bytes(note: u8, velocity: u8) -> (r: Vec<u8>)
    requires
        note <= 127,
        velocity <= 127,
    ensures
        r@ == seq![0x80u8, note, velocity],
{
    midi_msg::MidiMsg::ChannelVoice {
        channel: midi_msg::Channel::Ch1,
        msg: midi_msg::ChannelVoiceMsg::NoteOff { note, velocity },
    }.to_midi()
}

/// Serialise one abstract message to its raw channel-voice bytes.
pub fn translate_to_raw(event: &MidiEvent) -> (r: Vec<u8>)
    requires
        spec_event_pitch(*event) <= 127,
    ensures
        r@ == spec_raw_midi_bytes(*event),
{
    match event {
        MidiEvent::NoteOn(note) => note_on_bytes(note.0, NOTE_ON_VELOCITY),
        MidiEvent::NoteOff(note) => note_off_bytes(note.0, NOTE_OFF_VELOCITY),
    }
}

// ------------------------------------------------------------------
// The per-callback scheduler.
// ------------------------------------------------------------------

/// The real-time scheduler's whole state: the frame-domain session constants
/// and its memory of the timeline it produced on the previous callback.
pub struct Scheduler {
    pub jack_timing_info: TimingInfo,
    pub current_events: Vec<Event>,
}

impl Scheduler {
    /// The remembered timeline only ever holds wire-addressable pitches.
    pub open spec fn wf(&self) -> bool {
        forall|i: int|
            0 <= i < self.current_events@.len() ==> #[trigger] spec_event_pitch(
                self.current_events@[i].event,
            ) <= 127
    }

    /// Start scheduling: remember the timeline of the sequence in effect at
    /// activation.
    pub fn new(
        sequence: &ChordSequence,
        jack_timing_info: TimingInfo,
        time: &ProjectTimeInfo,
    ) -> (r: Scheduler)
        requires
            sequence.wf(),
            timing_wf(jack_timing_info, *time),
        ensures
            r.jack_timing_info == jack_timing_info,
            r.current_events@ == spec_translate(
                sequence.chords@,
                spec_frames_per_tatum(jack_timing_info.frames_per_second.0 as int, *time) as u32,
                FrameOffset(
                    (spec_frames_per_bar(jack_timing_info.frames_per_second.0 as int, *time)
                        - 1) as u32,
                ),
            ),
            r.wf(),
    {
        let current_events = chord_sequence_to_frame_offset(sequence, &jack_timing_info, time);
        Scheduler { jack_timing_info, current_events }
    }

    /// One callback: re-translate the live sequence, diff it against the
    /// previous callback's timeline, and hand back every raw message owed to
    /// this window, each at a window-relative offset strictly inside the
    /// window, ascending and stable on ties. The fresh timeline replaces the
    /// remembered one.
    pub fn process(
        &mut self,
        sequence: &ChordSequence,
        time: &ProjectTimeInfo,
        last_frame_time: u32,
        n_frames: u32,
    ) -> (r: Vec<(u32, Vec<u8>)>)
        requires
            old(self).wf(),
            sequence.wf(),
            timing_wf(old(self).jack_timing_info, *time),
            n_frames >= 1,
            last_frame_time + spec_frames_per_bar(
                old(self).jack_timing_info.frames_per_second.0 as int,
                *time,
            ) <= u32::MAX,
        ensures
            final(self).jack_timing_info == old(self).jack_timing_info,
            final(self).current_events@ == spec_translate(
                sequence.chords@,
                spec_frames_per_tatum(
                    old(self).jack_timing_info.frames_per_second.0 as int,
                    *time,
                ) as u32,
                FrameOffset(
                    (spec_frames_per_bar(
                        old(self).jack_timing_info.frames_per_second.0 as int,
                        *time,
                    ) - 1) as u32,
                ),
            ),
            final(self).wf(),
            ({
                let messages = spec_midi_events_for_window(
                    old(self).current_events@,
                    final(self).current_events@,
                    last_frame_time as int,
                    n_frames as int,
                    spec_frames_per_bar(
                        old(self).jack_timing_info.frames_per_second.0 as int,
                        *time,
                    ),
                );
                &&& r@.len() == messages.len()
                &&& forall|i: int|
                    0 <= i < r@.len() ==> #[trigger] r@[i].0 == messages[i].0 && r@[i].1@
                        == spec_raw_midi_bytes(messages[i].1)
            }),
            forall|i: int| 0 <= i < r@.len() ==> #[trigger] r@[i].0 < n_frames,
    {
        let current = chord_sequence_to_frame_offset(sequence, &self.jack_timing_info, time);
        let upcoming = get_midi_events_for_next_n_frames(
            last_frame_time,
            n_frames,
            &current,
            &self.current_events,
            &self.jack_timing_info,
            time,
        );
        let mut out: Vec<(u32, Vec<u8>)> = Vec::new();
        let mut i: usize = 0;
        while i < upcoming.len()
            invariant
                i <= upcoming@.len(),
                out@.len() == i,
                forall|k: int|
                    0 <= k < upcoming@.len() ==> #[trigger] spec_event_pitch(upcoming@[k].1)
                        <= 127,
                forall|k: int|
                    0 <= k < i ==> #[trigger] out@[k].0 == upcoming@[k].0 && out@[k].1@
                        == spec_raw_midi_bytes(upcoming@[k].1),
            decreases upcoming@.len() - i,
        {
            let (frame, message) = upcoming[i];
            let bytes = translate_to_raw(&message);
            out.push((frame, bytes));
            i += 1;
        }
        self.current_events = current;
        out
    }
}

// ------------------------------------------------------------------
// Edits under playback.
// ------------------------------------------------------------------

/// A pitch sounding under the previous timeline but no longer accounted for
/// by the fresh one is silenced in this very window: the scheduler's output
/// holds a note-off for it at window-relative offset 0.
pub proof fn lemma_superseded_pitch_is_silenced(
    old_events: Seq<Event>,
    new_events: Seq<Event>,
    last_frame_time: int,
    n_frames: int,
    frames_per_bar: int,
    p: Note,
)
    requires
        frames_per_bar >= 1,
        spec_notes_on(old_events, last_frame_time % frames_per_bar).contains(p),
        !spec_notes_on(new_events, last_frame_time % frames_per_bar).contains(p),
    ensures
        spec_midi_events_for_window(
            old_events,
            new_events,
            last_frame_time,
            n_frames,
            frames_per_bar,
        ).contains((0u32, MidiEvent::NoteOff(p))),
{
    let point = last_frame_time % frames_per_bar;
    let old_on = spec_notes_on(old_events, point);
    let new_on = spec_notes_on(new_events, point);
    lemma_diff_contains(old_on, new_on, p);
    let lingering = spec_lingering(old_events, new_events, point);
    let i = choose|i: int| 0 <= i < lingering.len() && lingering[i] == p;
    let msgs = spec_lingering_messages(lingering);
    assert(msgs[i] == (0u32, MidiEvent::NoteOff(p)));
    let combined = msgs + spec_upcoming_events(
        new_events,
        spec_ghost_notes(old_events, new_events, point),
        last_frame_time,
        n_frames,
        frames_per_bar,
    );
    assert(combined[i] == (0u32, MidiEvent::NoteOff(p)));
    lemma_sort_by_offset_contains(combined, (0u32, MidiEvent::NoteOff(p)));
}

/// With no edit between callbacks the scheduler's window output reduces to
/// the plain upcoming events of the timeline: no forced note-off is emitted
/// and no note-off is suppressed.
pub proof fn lemma_unedited_timeline_plays_plainly(
    timeline: Seq<Event>,
    last_frame_time: int,
    n_frames: int,
    frames_per_bar: int,
)
    requires
        frames_per_bar >= 1,
    ensures
        spec_midi_events_for_window(
            timeline,
            timeline,
            last_frame_time,
            n_frames,
            frames_per_bar,
        ) == spec_sort_by_offset(
            spec_upcoming_events(
                timeline,
                Seq::empty(),
                last_frame_time,
                n_frames,
                frames_per_bar,
            ),
        ),
{
    let point = last_frame_time % frames_per_bar;
    lemma_unedited_timeline_never_lingers(timeline, timeline, point);
    assert(spec_lingering_messages(spec_lingering(timeline, timeline, point))
        =~= Seq::<(u32, MidiEvent)>::empty());
    assert(spec_lingering_messages(spec_lingering(timeline, timeline, point))
        + spec_upcoming_events(
        timeline,
        spec_ghost_notes(timeline, timeline, point),
        last_frame_time,
        n_frames,
        frames_per_bar,
    ) =~= spec_upcoming_events(
        timeline,
        Seq::empty(),
        last_frame_time,
        n_frames,
        frames_per_bar,
    ));
}

/// An event that comes due in the window and is not suppressed is collected.
proof fn lemma_upcoming_events_contains(
    events: Seq<Event>,
    ghost_set: Seq<Note>,
    last_frame_time: int,
    n_frames: int,
    frames_per_bar: int,
    i: int,
)
    requires
        0 <= i < events.len(),
        spec_next_occurrence(last_frame_time, events[i].bar_offset_frames.0 as int, frames_per_bar)
            - last_frame_time < n_frames,
        !spec_suppressed(events[i], ghost_set),
    ensures
        spec_upcoming_events(events, ghost_set, last_frame_time, n_frames, frames_per_bar).contains(
            (
                ((spec_next_occurrence(
                    last_frame_time,
                    events[i].bar_offset_frames.0 as int,
                    frames_per_bar,
                ) - last_frame_time) as u32),
                events[i].event,
            ),
        ),
    decreases events.len(),
{
    let r = spec_upcoming_events(events, ghost_set, last_frame_time, n_frames, frames_per_bar);
    let x = (
        ((spec_next_occurrence(
            last_frame_time,
            events[i].bar_offset_frames.0 as int,
            frames_per_bar,
        ) - last_frame_time) as u32),
        events[i].event,
    );
    let rest = spec_upcoming_events(
        events.drop_last(),
        ghost_set,
        last_frame_time,
        n_frames,
        frames_per_bar,
    );
    if i == events.len() - 1 {
        assert(r == rest.push(x));
        assert(r[r.len() - 1] == x);
    } else {
        assert(events.drop_last()[i] == events[i]);
        lemma_upcoming_events_contains(
            events.drop_last(),
            ghost_set,
            last_frame_time,
            n_frames,
            frames_per_bar,
            i,
        );
        let j = choose|j: int| 0 <= j < rest.len() && rest[j] == x;
        assert(r[j] == x);
    }
}

/// A note-off of the fresh timeline that comes due in the window is only ever
/// withheld when it targets a ghost note; any other due event of the fresh
/// timeline stands in the scheduler's output at its window-relative offset.
pub proof fn lemma_due_event_of_fresh_timeline_is_kept(
    old_events: Seq<Event>,
    new_events: Seq<Event>,
    last_frame_time: int,
    n_frames: int,
    frames_per_bar: int,
    i: int,
)
    requires
        frames_per_bar >= 1,
        0 <= i < new_events.len(),
        spec_next_occurrence(
            last_frame_time,
            new_events[i].bar_offset_frames.0 as int,
            frames_per_bar,
        ) - last_frame_time < n_frames,
        !spec_suppressed(
            new_events[i],
            spec_ghost_notes(old_events, new_events, last_frame_time % frames_per_bar),
        ),
    ensures
        spec_midi_events_for_window(
            old_events,
            new_events,
            last_frame_time,
            n_frames,
            frames_per_bar,
        ).contains(
            (
                ((spec_next_occurrence(
                    last_frame_time,
                    new_events[i].bar_offset_frames.0 as int,
                    frames_per_bar,
                ) - last_frame_time) as u32),
                new_events[i].event,
            ),
        ),
{
    let point = last_frame_time % frames_per_bar;
    let ghost_set = spec_ghost_notes(old_events, new_events, point);
    lemma_upcoming_events_contains(
        new_events,
        ghost_set,
        last_frame_time,
        n_frames,
        frames_per_bar,
        i,
    );
    let x = (
        ((spec_next_occurrence(
            last_frame_time,
            new_events[i].bar_offset_frames.0 as int,
            frames_per_bar,
        ) - last_frame_time) as u32),
        new_events[i].event,
    );
    let upcoming = spec_upcoming_events(
        new_events,
        ghost_set,
        last_frame_time,
        n_frames,
        frames_per_bar,
    );
    let msgs = spec_lingering_messages(spec_lingering(old_events, new_events, point));
    let j = choose|j: int| 0 <= j < upcoming.len() && upcoming[j] == x;
    let combined = msgs + upcoming;
    assert(combined[msgs.len() + j] == x);
    lemma_sort_by_offset_contains(combined, x);
}

} // verus!

