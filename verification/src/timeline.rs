//! The timeline builder: absolute event times for a strummed chord
//! progression, and their conversion to a delta-encoded event stream.
//!
//! Events are numbered `0, 1, 2, ...` across the whole run: each chord
//! contributes two events (Note-On, then Note-Off) per strum offset, in
//! pattern order, so chord `i` owns the block of indices
//! `[2 * offsets.len() * i, 2 * offsets.len() * (i + 1))`. Within a chord,
//! event `2 j` is the Note-On at `start_tick + i * ticks_per_measure +
//! offsets[j]` and event `2 j + 1` the matching Note-Off `note_duration`
//! ticks later. A delta is the gap between one absolute time and the
//! previous one; a negative gap is an ordering violation and aborts the run
//! with an [`OrderingError`] instead of wrapping.

use vstd::prelude::*;
use vstd::arithmetic::div_mod::{
    lemma_div_pos_is_pos, lemma_fundamental_div_mod, lemma_fundamental_div_mod_converse,
    lemma_mod_bound,
};
use vstd::arithmetic::mul::{
    lemma_mul_basics, lemma_mul_inequality, lemma_mul_is_associative, lemma_mul_is_commutative,
    lemma_mul_is_distributive_add, lemma_mul_nonnegative,
};
use crate::chord::{Chord, chord_note, chord_playable};
use crate::event::{Event, EventKind, TICK_MAX, event_in_domain, note_on_event, note_off_event};

verus! {

/// How long each strummed note sounds, in ticks, unless a pattern overrides
/// it.
pub const DEFAULT_NOTE_DURATION: u32 = 40;

/// The velocity every Note-Off event carries, whatever the base velocity of
/// the run.
pub const NOTE_OFF_VELOCITY: u8 = 64;

/// The span of the default strum pattern: its last offset plus the default
/// note duration.
pub const DEFAULT_STRUM_SPAN: u32 = 400;

/// The offsets of the default strum pattern.
pub open spec fn default_offsets() -> Seq<u32> {
    seq![0u32, 120u32, 240u32, 360u32]
}

/// A strum pattern: the tick offsets, relative to a chord's start tick, at
/// which successive notes begin, and how long each note sounds.
pub struct StrumPattern {
    /// Offsets within the chord's measure, in the order they are strummed.
    pub offsets: Vec<u32>,
    /// Ticks from each Note-On to its Note-Off.
    pub note_duration: u32,
}

impl Default for StrumPattern {
    /// The process-wide default: offsets 0, 120, 240 and 360, each note
    /// sounding for 40 ticks.
    fn default() -> (p: StrumPattern)
        ensures
            p.offsets@ == default_offsets(),
            p.note_duration == DEFAULT_NOTE_DURATION,
    {
        let mut offsets: Vec<u32> = Vec::new();
        offsets.push(0);
        offsets.push(120);
        offsets.push(240);
        offsets.push(360);
        proof {
            assert(offsets@ =~= default_offsets());
        }
        StrumPattern { offsets, note_duration: DEFAULT_NOTE_DURATION }
    }
}

/// The failed delta computation that ended a generation run: the timeline
/// asked for an event at `target_abs_time` although an event had already
/// been emitted at the later tick `last_abs_time`.
#[derive(Clone, Copy, PartialEq, Eq, Structural, Debug)]
pub struct OrderingError {
    /// Absolute tick of the most recently emitted event.
    pub last_abs_time: u32,
    /// The earlier absolute tick the next event asked for.
    pub target_abs_time: u32,
    /// Whether the offending delta belonged to a Note-On or a Note-Off.
    pub kind: EventKind,
}

/// What [`safe_sub_ticks`] returns: the gap `target - last` where the
/// timeline is in order, and the ordering violation where it is not.
pub open spec fn spec_safe_sub(target_abs: u32, last_abs: u32, kind: EventKind) -> Result<u32, OrderingError> {
    if last_abs <= target_abs {
        Ok((target_abs - last_abs) as u32)
    } else {
        Err(OrderingError { last_abs_time: last_abs, target_abs_time: target_abs, kind })
    }
}

/// Checked delta computation. Subtracting the last absolute time from the
/// next one must never underflow: a next event earlier than the last one is
/// a correctness violation of the timeline, reported as an error rather
/// than wrapped or saturated.
pub fn safe_sub_ticks(target_abs: u32, last_abs: u32, kind: EventKind) -> (r: Result<u32, OrderingError>)
    ensures
        r == spec_safe_sub(target_abs, last_abs, kind),
{
    if last_abs > target_abs {
        Err(OrderingError { last_abs_time: last_abs, target_abs_time: target_abs, kind })
    } else {
        Ok(target_abs - last_abs)
    }
}

/// Absolute tick of event `k` of a run: its chord's start tick, plus its
/// strum offset, plus the note duration if it is a Note-Off.
pub open spec fn event_abs_time(offsets: Seq<u32>, note_duration: u32, start_tick: u32, ticks_per_measure: u32, k: int) -> int
    recommends
        offsets.len() > 0,
        0 <= k,
{
    let per = 2 * offsets.len() as int;
    let i = k / per;
    let j = (k % per) / 2;
    start_tick + i * ticks_per_measure + offsets[j] + (if k % 2 == 0 { 0int } else { note_duration as int })
}

/// Absolute tick of the event before `k`: the tick of event `k - 1`, or the
/// start tick if `k` is the first event of the run.
pub open spec fn prev_abs_time(offsets: Seq<u32>, note_duration: u32, start_tick: u32, ticks_per_measure: u32, k: int) -> int {
    if k <= 0 {
        start_tick as int
    } else {
        event_abs_time(offsets, note_duration, start_tick, ticks_per_measure, k - 1)
    }
}

/// The first `total` absolute event times never step backwards.
pub open spec fn timeline_ordered(offsets: Seq<u32>, note_duration: u32, start_tick: u32, ticks_per_measure: u32, total: int) -> bool {
    forall|k: int| 0 <= k < total ==>
        prev_abs_time(offsets, note_duration, start_tick, ticks_per_measure, k)
            <= #[trigger] event_abs_time(offsets, note_duration, start_tick, ticks_per_measure, k)
}

/// Event `k` of a run: the delta from the previous event's absolute time,
/// the run's channel, alternating Note-On/Note-Off, the chord's sounded
/// note, and the base velocity for Note-Ons or the fixed Note-Off velocity.
pub open spec fn spec_event_at(chords: Seq<Chord>, offsets: Seq<u32>, note_duration: u32, start_tick: u32, ticks_per_measure: u32, channel: u8, base_velocity: u8, k: int) -> Event {
    let per = 2 * offsets.len() as int;
    let abs = event_abs_time(offsets, note_duration, start_tick, ticks_per_measure, k);
    let prev = prev_abs_time(offsets, note_duration, start_tick, ticks_per_measure, k);
    Event {
        delta: (abs - prev) as u32,
        channel: channel,
        kind: if k % 2 == 0 { EventKind::NoteOn } else { EventKind::NoteOff },
        note: chord_note(chords[k / per]) as u8,
        velocity: if k % 2 == 0 { base_velocity } else { NOTE_OFF_VELOCITY },
    }
}

/// The ordering violation reported at event `k`: the two operands of the
/// failed delta computation and the label of the event that asked for it.
pub open spec fn spec_error_at(offsets: Seq<u32>, note_duration: u32, start_tick: u32, ticks_per_measure: u32, k: int) -> OrderingError {
    OrderingError {
        last_abs_time: prev_abs_time(offsets, note_duration, start_tick, ticks_per_measure, k) as u32,
        target_abs_time: event_abs_time(offsets, note_duration, start_tick, ticks_per_measure, k) as u32,
        kind: if k % 2 == 0 { EventKind::NoteOn } else { EventKind::NoteOff },
    }
}

/// The whole outcome of a generation run over its first `total` events:
/// the event sequence where every delta is in order, and the first
/// ordering violation where one is not.
pub open spec fn spec_generate(chords: Seq<Chord>, offsets: Seq<u32>, note_duration: u32, start_tick: u32, ticks_per_measure: u32, channel: u8, base_velocity: u8, total: int) -> Result<Seq<Event>, OrderingError>
    decreases total,
{
    if total <= 0 {
        Ok(Seq::<Event>::empty())
    } else {
        match spec_generate(chords, offsets, note_duration, start_tick, ticks_per_measure, channel, base_velocity, total - 1) {
            Err(e) => Err(e),
            Ok(s) => {
                if event_abs_time(offsets, note_duration, start_tick, ticks_per_measure, total - 1)
                    < prev_abs_time(offsets, note_duration, start_tick, ticks_per_measure, total - 1) {
                    Err(spec_error_at(offsets, note_duration, start_tick, ticks_per_measure, total - 1))
                } else {
                    Ok(s.push(spec_event_at(chords, offsets, note_duration, start_tick, ticks_per_measure, channel, base_velocity, total - 1)))
                }
            },
        }
    }
}

/// A generation result with the events seen as a sequence.
pub open spec fn events_view(r: Result<Vec<Event>, OrderingError>) -> Result<Seq<Event>, OrderingError> {
    match r {
        Ok(v) => Ok(v@),
        Err(e) => Err(e),
    }
}

/// The preconditions of a generation run: a positive measure length, every
/// chord playable, and every absolute tick the run can compute confined to
/// the 28-bit tick domain.
pub open spec fn params_in_domain(chords: Seq<Chord>, offsets: Seq<u32>, note_duration: u32, start_tick: u32, ticks_per_measure: u32) -> bool {
    &&& ticks_per_measure >= 1
    &&& start_tick + chords.len() * ticks_per_measure <= TICK_MAX
    &&& forall|j: int| 0 <= j < offsets.len() ==>
            start_tick + chords.len() * ticks_per_measure + #[trigger] offsets[j] + note_duration <= TICK_MAX
    &&& forall|i: int| 0 <= i < chords.len() ==> chord_playable(#[trigger] chords[i])
}

/// Division and parity facts for the pair of events that strum offset `j`
/// of chord `i` contributes to a run of `n` chords over `plen` offsets:
/// the pair is numbered `k = 2 * plen * i + 2 * j` and `k + 1`.
proof fn lemma_event_index(plen: int, n: int, i: int, j: int)
    requires
        0 < plen,
        0 <= i < n,
        0 <= j < plen,
    ensures
        ({
            let per = 2 * plen;
            let k = per * i + 2 * j;
            &&& 0 <= k
            &&& k + 2 <= per * n
            &&& k / per == i
            &&& k % per == 2 * j
            &&& (k + 1) / per == i
            &&& (k + 1) % per == 2 * j + 1
            &&& k % 2 == 0
            &&& (k + 1) % 2 == 1
            &&& (2 * j) / 2 == j
            &&& (2 * j + 1) / 2 == j
        }),
{
    let per = 2 * plen;
    let k = per * i + 2 * j;
    lemma_mul_nonnegative(per, i);
    lemma_mul_is_commutative(per, i);
    lemma_fundamental_div_mod_converse(k, per, i, 2 * j);
    lemma_fundamental_div_mod_converse(k + 1, per, i, 2 * j + 1);
    let h = plen * i + j;
    lemma_mul_is_associative(2, plen, i);
    lemma_mul_is_commutative(2, h);
    lemma_fundamental_div_mod_converse(k, 2, h, 0);
    lemma_fundamental_div_mod_converse(k + 1, 2, h, 1);
    lemma_mul_is_commutative(2, j);
    lemma_fundamental_div_mod_converse(2 * j, 2, j, 0);
    lemma_fundamental_div_mod_converse(2 * j + 1, 2, j, 1);
    lemma_mul_basics(per);
    lemma_mul_is_distributive_add(per, i, 1);
    lemma_mul_inequality(i + 1, n, per);
    lemma_mul_is_commutative(i + 1, per);
    lemma_mul_is_commutative(n, per);
}

/// Once a run has failed, looking further changes nothing: the error of a
/// failed prefix is the outcome of every longer run.
pub proof fn lemma_err_propagates(chords: Seq<Chord>, offsets: Seq<u32>, note_duration: u32, start_tick: u32, ticks_per_measure: u32, channel: u8, base_velocity: u8, t0: int, t1: int)
    requires
        t0 <= t1,
        spec_generate(chords, offsets, note_duration, start_tick, ticks_per_measure, channel, base_velocity, t0) is Err,
    ensures
        spec_generate(chords, offsets, note_duration, start_tick, ticks_per_measure, channel, base_velocity, t1)
            == spec_generate(chords, offsets, note_duration, start_tick, ticks_per_measure, channel, base_velocity, t0),
    decreases t1 - t0,
{
    if t0 < t1 {
        lemma_err_propagates(chords, offsets, note_duration, start_tick, ticks_per_measure, channel, base_velocity, t0, t1 - 1);
    }
}

/// A successful run holds exactly `total` events, and its event `k` is
/// `spec_event_at(..., k)`.
pub proof fn lemma_ok_shape(chords: Seq<Chord>, offsets: Seq<u32>, note_duration: u32, start_tick: u32, ticks_per_measure: u32, channel: u8, base_velocity: u8, total: int)
    requires
        0 <= total,
        spec_generate(chords, offsets, note_duration, start_tick, ticks_per_measure, channel, base_velocity, total) is Ok,
    ensures
        spec_generate(chords, offsets, note_duration, start_tick, ticks_per_measure, channel, base_velocity, total)
            matches Ok(s) ==> s.len() == total
                && (forall|k: int| 0 <= k < total ==> #[trigger] s[k]
                    == spec_event_at(chords, offsets, note_duration, start_tick, ticks_per_measure, channel, base_velocity, k)),
    decreases total,
{
    if total > 0 {
        assert(spec_generate(chords, offsets, note_duration, start_tick, ticks_per_measure, channel, base_velocity, total - 1) is Ok);
        lemma_ok_shape(chords, offsets, note_duration, start_tick, ticks_per_measure, channel, base_velocity, total - 1);
    }
}

/// A run succeeds exactly when its timeline never steps backwards.
pub proof fn lemma_ok_iff_ordered(chords: Seq<Chord>, offsets: Seq<u32>, note_duration: u32, start_tick: u32, ticks_per_measure: u32, channel: u8, base_velocity: u8, total: int)
    requires
        0 <= total,
    ensures
        spec_generate(chords, offsets, note_duration, start_tick, ticks_per_measure, channel, base_velocity, total) is Ok
            <==> timeline_ordered(offsets, note_duration, start_tick, ticks_per_measure, total),
    decreases total,
{
    if total > 0 {
        lemma_ok_iff_ordered(chords, offsets, note_duration, start_tick, ticks_per_measure, channel, base_velocity, total - 1);
        if spec_generate(chords, offsets, note_duration, start_tick, ticks_per_measure, channel, base_velocity, total) is Ok {
            assert(timeline_ordered(offsets, note_duration, start_tick, ticks_per_measure, total - 1));
            assert forall|k: int| 0 <= k < total implies
                prev_abs_time(offsets, note_duration, start_tick, ticks_per_measure, k)
                    <= #[trigger] event_abs_time(offsets, note_duration, start_tick, ticks_per_measure, k) by {
                if k < total - 1 {
                    assert(timeline_ordered(offsets, note_duration, start_tick, ticks_per_measure, total - 1));
                }
            }
        }
        if timeline_ordered(offsets, note_duration, start_tick, ticks_per_measure, total) {
            assert(timeline_ordered(offsets, note_duration, start_tick, ticks_per_measure, total - 1));
            assert(prev_abs_time(offsets, note_duration, start_tick, ticks_per_measure, total - 1)
                <= event_abs_time(offsets, note_duration, start_tick, ticks_per_measure, total - 1));
        }
    }
}

/// Every absolute event time of a run lies between the start tick and the
/// top of the tick domain.
pub proof fn lemma_abs_in_range(chords: Seq<Chord>, offsets: Seq<u32>, note_duration: u32, start_tick: u32, ticks_per_measure: u32, k: int)
    requires
        params_in_domain(chords, offsets, note_duration, start_tick, ticks_per_measure),
        0 <= k < 2 * offsets.len() * chords.len(),
    ensures
        start_tick <= event_abs_time(offsets, note_duration, start_tick, ticks_per_measure, k),
        event_abs_time(offsets, note_duration, start_tick, ticks_per_measure, k) <= TICK_MAX,
{
    let plen = offsets.len() as int;
    let n = chords.len() as int;
    let per = 2 * plen;
    if plen == 0 {
        lemma_mul_basics(n);
        assert(per * n == 0);
        assert(false);
    }
    lemma_fundamental_div_mod(k, per);
    lemma_mod_bound(k, per);
    lemma_div_pos_is_pos(k, per);
    let i = k / per;
    let r = k % per;
    let j = r / 2;
    lemma_fundamental_div_mod(r, 2);
    lemma_mod_bound(r, 2);
    lemma_div_pos_is_pos(r, 2);
    assert(per * i <= k);
    if i >= n {
        lemma_mul_inequality(n, i, per);
        lemma_mul_is_commutative(n, per);
        lemma_mul_is_commutative(i, per);
        assert(false);
    }
    lemma_mul_inequality(i, n, ticks_per_measure as int);
    lemma_mul_is_commutative(i, ticks_per_measure as int);
    lemma_mul_is_commutative(n, ticks_per_measure as int);
    lemma_mul_nonnegative(i, ticks_per_measure as int);
    assert(start_tick + chords.len() * ticks_per_measure + offsets[j] + note_duration <= TICK_MAX);
}

/// Generate the strummed event stream for `chords` under an arbitrary strum
/// pattern: per chord, one Note-On/Note-Off pair per offset, deltas measured
/// from the previous event, and the first backwards step of the timeline
/// reported as an [`OrderingError`] instead of an event.
#[verifier::loop_isolation(false)]
pub fn generate_strummed_events(
    chords: &Vec<Chord>,
    pattern: &StrumPattern,
    start_tick: u32,
    ticks_per_measure: u32,
    channel: u8,
    base_velocity: u8,
) -> (r: Result<Vec<Event>, OrderingError>)
    requires
        params_in_domain(chords@, pattern.offsets@, pattern.note_duration, start_tick, ticks_per_measure),
        channel < 16,
        base_velocity < 128,
    ensures
        events_view(r) == spec_generate(chords@, pattern.offsets@, pattern.note_duration, start_tick, ticks_per_measure, channel, base_velocity, (2 * pattern.offsets@.len() * chords@.len()) as int),
        r matches Ok(events) ==> (events@.len() == 2 * pattern.offsets@.len() * chords@.len()),
        r matches Ok(events) ==> (forall|k: int| 0 <= k < events@.len() ==> #[trigger] events@[k]
            == spec_event_at(chords@, pattern.offsets@, pattern.note_duration, start_tick, ticks_per_measure, channel, base_velocity, k)),
        r matches Ok(events) ==> (forall|k: int| 0 <= k < events@.len() ==> event_in_domain(#[trigger] events@[k])),
        r is Ok <==> timeline_ordered(pattern.offsets@, pattern.note_duration, start_tick, ticks_per_measure, (2 * pattern.offsets@.len() * chords@.len()) as int),
{
    let ghost offs: Seq<u32> = pattern.offsets@;
    let ghost dur: u32 = pattern.note_duration;
    let n: usize = chords.len();
    let plen: usize = pattern.offsets.len();
    let ghost per: int = 2 * plen as int;
    let ghost total: int = (2 * offs.len() * chords@.len()) as int;

    let mut events: Vec<Event> = Vec::new();
    let mut abs_time: u32 = start_tick;
    let mut last_abs_time: u32 = start_tick;

    proof {
        assert(events@ =~= Seq::<Event>::empty());
        assert(total == per * n as int);
    }

    let mut i: usize = 0;
    while i < n
        invariant
            i <= n,
            abs_time == start_tick + i * ticks_per_measure,
            events@.len() == per * i as int,
            spec_generate(chords@, offs, dur, start_tick, ticks_per_measure, channel, base_velocity, per * i as int)
                == Ok::<Seq<Event>, OrderingError>(events@),
            last_abs_time == prev_abs_time(offs, dur, start_tick, ticks_per_measure, per * i as int),
            forall|k: int| 0 <= k < events@.len() ==> event_in_domain(#[trigger] events@[k]),
        decreases n - i,
    {
        proof {
            lemma_mul_inequality(i as int, n as int, ticks_per_measure as int);
        }
        let mut j: usize = 0;
        while j < plen
            invariant
                i < n,
                j <= plen,
                abs_time == start_tick + i * ticks_per_measure,
                events@.len() == per * i as int + 2 * j as int,
                spec_generate(chords@, offs, dur, start_tick, ticks_per_measure, channel, base_velocity, per * i as int + 2 * j as int)
                    == Ok::<Seq<Event>, OrderingError>(events@),
                last_abs_time == prev_abs_time(offs, dur, start_tick, ticks_per_measure, per * i as int + 2 * j as int),
                forall|k: int| 0 <= k < events@.len() ==> event_in_domain(#[trigger] events@[k]),
            decreases plen - j,
        {
            let ghost k: int = per * i as int + 2 * j as int;
            proof {
                lemma_event_index(plen as int, n as int, i as int, j as int);
                lemma_mul_inequality(i as int, n as int, ticks_per_measure as int);
            }
            let offset: u32 = pattern.offsets[j];
            let chord = &chords[i];
            let midi_note: u8 = chord.root + chord.intervals[0];
            let note_on_abs: u32 = abs_time + offset;
            let note_off_abs: u32 = note_on_abs + pattern.note_duration;

            proof {
                assert(event_abs_time(offs, dur, start_tick, ticks_per_measure, k) == note_on_abs);
                assert(event_abs_time(offs, dur, start_tick, ticks_per_measure, k + 1) == note_off_abs);
                assert(chord_note(chords@[i as int]) == midi_note);
            }

            let delta_on: u32 = match safe_sub_ticks(note_on_abs, last_abs_time, EventKind::NoteOn) {
                Ok(d) => d,
                Err(e) => {
                    proof {
                        assert(spec_generate(chords@, offs, dur, start_tick, ticks_per_measure, channel, base_velocity, k + 1)
                            == Err::<Seq<Event>, OrderingError>(e));
                        lemma_err_propagates(chords@, offs, dur, start_tick, ticks_per_measure, channel, base_velocity, k + 1, total);
                        lemma_ok_iff_ordered(chords@, offs, dur, start_tick, ticks_per_measure, channel, base_velocity, total);
                    }
                    return Err(e);
                },
            };
            let on_event = note_on_event(delta_on, channel, midi_note, base_velocity);
            proof {
                assert(on_event == spec_event_at(chords@, offs, dur, start_tick, ticks_per_measure, channel, base_velocity, k));
            }
            events.push(on_event);
            last_abs_time = note_on_abs;
            proof {
                assert(spec_generate(chords@, offs, dur, start_tick, ticks_per_measure, channel, base_velocity, k + 1)
                    == Ok::<Seq<Event>, OrderingError>(events@));
            }

            let delta_off: u32 = match safe_sub_ticks(note_off_abs, last_abs_time, EventKind::NoteOff) {
                Ok(d) => d,
                Err(e) => {
                    proof {
                        assert(false);
                    }
                    return Err(e);
                },
            };
            let off_event = note_off_event(delta_off, channel, midi_note, NOTE_OFF_VELOCITY);
            proof {
                assert(off_event == spec_event_at(chords@, offs, dur, start_tick, ticks_per_measure, channel, base_velocity, k + 1));
            }
            events.push(off_event);
            last_abs_time = note_off_abs;
            proof {
                assert(spec_generate(chords@, offs, dur, start_tick, ticks_per_measure, channel, base_velocity, k + 2)
                    == Ok::<Seq<Event>, OrderingError>(events@));
            }
            j = j + 1;
        }
        proof {
            lemma_mul_basics(per);
            lemma_mul_is_distributive_add(per, i as int, 1);
            lemma_mul_inequality(i as int + 1, n as int, ticks_per_measure as int);
            lemma_mul_is_distributive_add(ticks_per_measure as int, i as int, 1);
            lemma_mul_is_commutative(ticks_per_measure as int, i as int);
            lemma_mul_is_commutative(ticks_per_measure as int, i as int + 1);
            lemma_mul_basics(ticks_per_measure as int);
        }
        abs_time = abs_time + ticks_per_measure;
        i = i + 1;
    }
    proof {
        lemma_ok_shape(chords@, offs, dur, start_tick, ticks_per_measure, channel, base_velocity, total);
        lemma_ok_iff_ordered(chords@, offs, dur, start_tick, ticks_per_measure, channel, base_velocity, total);
    }
    Ok(events)
}

/// Generate the strummed event stream for `chords` under the default strum
/// pattern: four Note-On/Note-Off pairs per chord — eight events — at
/// offsets 0, 120, 240 and 360 within the chord's measure, each note
/// sounding for 40 ticks. Deltas are measured from the previous event; the
/// first backwards step of the timeline is reported as an [`OrderingError`].
pub fn generate_chord_track_events(
    chords: &Vec<Chord>,
    start_tick: u32,
    ticks_per_measure: u32,
    channel: u8,
    base_velocity: u8,
) -> (r: Result<Vec<Event>, OrderingError>)
    requires
        ticks_per_measure >= 1,
        channel < 16,
        base_velocity < 128,
        forall|i: int| 0 <= i < chords@.len() ==> chord_playable(#[trigger] chords@[i]),
        start_tick + chords@.len() * ticks_per_measure + DEFAULT_STRUM_SPAN <= TICK_MAX,
    ensures
        events_view(r) == spec_generate(chords@, default_offsets(), DEFAULT_NOTE_DURATION, start_tick, ticks_per_measure, channel, base_velocity, (8 * chords@.len()) as int),
        r matches Ok(events) ==> (events@.len() == 8 * chords@.len()),
        r matches Ok(events) ==> (forall|k: int| 0 <= k < events@.len() ==> #[trigger] events@[k]
            == spec_event_at(chords@, default_offsets(), DEFAULT_NOTE_DURATION, start_tick, ticks_per_measure, channel, base_velocity, k)),
        r matches Ok(events) ==> (forall|k: int| 0 <= k < events@.len() ==> event_in_domain(#[trigger] events@[k])),
        r is Ok <==> timeline_ordered(default_offsets(), DEFAULT_NOTE_DURATION, start_tick, ticks_per_measure, (8 * chords@.len()) as int),
{
    let pattern = StrumPattern::default();
    proof {
        assert forall|j: int| 0 <= j < pattern.offsets@.len() implies
            start_tick + chords@.len() * ticks_per_measure + #[trigger] pattern.offsets@[j] + pattern.note_duration <= TICK_MAX by {
            assert(pattern.offsets@[j] <= 360);
        }
        assert((2 * pattern.offsets@.len() * chords@.len()) as int == (8 * chords@.len()) as int);
    }
    generate_strummed_events(chords, &pattern, start_tick, ticks_per_measure, channel, base_velocity)
}

} // verus!
