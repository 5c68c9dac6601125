//! The properties the library promises of a generation run, stated and
//! proved over the run's mathematical model, [`spec_generate`].
//!
//! Throughout, `(2 * offsets.len() * chords.len()) as int` is the number of
//! events a full run over `chords` asks for: one Note-On/Note-Off pair per
//! strum offset per chord.

use vstd::prelude::*;
use vstd::arithmetic::div_mod::{
    lemma_div_pos_is_pos, lemma_fundamental_div_mod, lemma_fundamental_div_mod_converse,
    lemma_mod_bound,
};
use vstd::arithmetic::mul::{
    lemma_mul_basics, lemma_mul_is_associative, lemma_mul_is_commutative,
};
use crate::chord::Chord;
use crate::event::{Event, EventKind};
use crate::timeline::{
    NOTE_OFF_VELOCITY, OrderingError, event_abs_time, events_view, lemma_abs_in_range,
    lemma_ok_iff_ordered, lemma_ok_shape, params_in_domain, prev_abs_time, spec_generate,
    timeline_ordered,
};

verus! {

/// The sum of the first `k` deltas of an event sequence.
pub open spec fn delta_sum(s: Seq<Event>, k: int) -> int
    decreases k,
{
    if k <= 0 {
        0
    } else {
        delta_sum(s, k - 1) + s[k - 1].delta
    }
}

/// Determinism: the outcome of a generation run is a function of its inputs
/// alone. Any two results that the generator's contract admits for the same
/// inputs carry the same event sequence, or the same error.
pub proof fn lemma_generate_deterministic(r1: Result<Vec<Event>, OrderingError>, r2: Result<Vec<Event>, OrderingError>, chords: Seq<Chord>, offsets: Seq<u32>, note_duration: u32, start_tick: u32, ticks_per_measure: u32, channel: u8, base_velocity: u8, total: int)
    requires
        events_view(r1) == spec_generate(chords, offsets, note_duration, start_tick, ticks_per_measure, channel, base_velocity, total),
        events_view(r2) == spec_generate(chords, offsets, note_duration, start_tick, ticks_per_measure, channel, base_velocity, total),
    ensures
        events_view(r1) == events_view(r2),
{
}

/// Count invariant: a successful full run yields exactly two events per
/// strum offset per chord — with the default four-offset pattern, eight
/// events per chord.
pub proof fn lemma_generate_count(chords: Seq<Chord>, offsets: Seq<u32>, note_duration: u32, start_tick: u32, ticks_per_measure: u32, channel: u8, base_velocity: u8)
    requires
        spec_generate(chords, offsets, note_duration, start_tick, ticks_per_measure, channel, base_velocity, (2 * offsets.len() * chords.len()) as int) is Ok,
    ensures
        spec_generate(chords, offsets, note_duration, start_tick, ticks_per_measure, channel, base_velocity, (2 * offsets.len() * chords.len()) as int)
            matches Ok(s) ==> s.len() == 2 * offsets.len() * chords.len(),
{
    lemma_ok_shape(chords, offsets, note_duration, start_tick, ticks_per_measure, channel, base_velocity, (2 * offsets.len() * chords.len()) as int);
}

/// Ordering violations are fatal, and nothing else is: a run succeeds
/// exactly when no absolute event time steps behind the one before it.
/// On a backwards-stepping timeline the run reports the violation; it
/// never wraps a delta.
pub proof fn lemma_ordering_violation_is_fatal(chords: Seq<Chord>, offsets: Seq<u32>, note_duration: u32, start_tick: u32, ticks_per_measure: u32, channel: u8, base_velocity: u8, total: int)
    requires
        0 <= total,
    ensures
        spec_generate(chords, offsets, note_duration, start_tick, ticks_per_measure, channel, base_velocity, total) is Ok
            <==> timeline_ordered(offsets, note_duration, start_tick, ticks_per_measure, total),
{
    lemma_ok_iff_ordered(chords, offsets, note_duration, start_tick, ticks_per_measure, channel, base_velocity, total);
}

/// Non-negative deltas: in a successful full run, consecutive absolute
/// times never decrease, and every delta is exactly the (non-negative) gap
/// between an event's absolute time and its predecessor's.
pub proof fn lemma_deltas_nonnegative(chords: Seq<Chord>, offsets: Seq<u32>, note_duration: u32, start_tick: u32, ticks_per_measure: u32, channel: u8, base_velocity: u8, k: int)
    requires
        params_in_domain(chords, offsets, note_duration, start_tick, ticks_per_measure),
        spec_generate(chords, offsets, note_duration, start_tick, ticks_per_measure, channel, base_velocity, (2 * offsets.len() * chords.len()) as int) is Ok,
        0 <= k < 2 * offsets.len() * chords.len(),
    ensures
        prev_abs_time(offsets, note_duration, start_tick, ticks_per_measure, k)
            <= event_abs_time(offsets, note_duration, start_tick, ticks_per_measure, k),
        spec_generate(chords, offsets, note_duration, start_tick, ticks_per_measure, channel, base_velocity, (2 * offsets.len() * chords.len()) as int)
            matches Ok(s) ==> s[k].delta
                == event_abs_time(offsets, note_duration, start_tick, ticks_per_measure, k)
                    - prev_abs_time(offsets, note_duration, start_tick, ticks_per_measure, k),
{
    let total = (2 * offsets.len() * chords.len()) as int;
    lemma_ok_shape(chords, offsets, note_duration, start_tick, ticks_per_measure, channel, base_velocity, total);
    lemma_ok_iff_ordered(chords, offsets, note_duration, start_tick, ticks_per_measure, channel, base_velocity, total);
    lemma_abs_in_range(chords, offsets, note_duration, start_tick, ticks_per_measure, k);
    if k > 0 {
        lemma_abs_in_range(chords, offsets, note_duration, start_tick, ticks_per_measure, k - 1);
    }
}

/// The running total of the first `k` deltas of a successful full run
/// reaches from the start tick to the absolute time before event `k`.
proof fn lemma_prefix_sum(chords: Seq<Chord>, offsets: Seq<u32>, note_duration: u32, start_tick: u32, ticks_per_measure: u32, channel: u8, base_velocity: u8, k: int)
    requires
        params_in_domain(chords, offsets, note_duration, start_tick, ticks_per_measure),
        spec_generate(chords, offsets, note_duration, start_tick, ticks_per_measure, channel, base_velocity, (2 * offsets.len() * chords.len()) as int) is Ok,
        0 <= k <= 2 * offsets.len() * chords.len(),
    ensures
        spec_generate(chords, offsets, note_duration, start_tick, ticks_per_measure, channel, base_velocity, (2 * offsets.len() * chords.len()) as int)
            matches Ok(s) ==> start_tick + delta_sum(s, k)
                == prev_abs_time(offsets, note_duration, start_tick, ticks_per_measure, k),
    decreases k,
{
    if k > 0 {
        lemma_prefix_sum(chords, offsets, note_duration, start_tick, ticks_per_measure, channel, base_velocity, k - 1);
        lemma_deltas_nonnegative(chords, offsets, note_duration, start_tick, ticks_per_measure, channel, base_velocity, k - 1);
    }
}

/// Monotonic timeline: in a successful full run, the cumulative sum of the
/// deltas up to and including event `k` equals event `k`'s absolute tick
/// position, measured from the start tick.
pub proof fn lemma_monotonic_timeline(chords: Seq<Chord>, offsets: Seq<u32>, note_duration: u32, start_tick: u32, ticks_per_measure: u32, channel: u8, base_velocity: u8, k: int)
    requires
        params_in_domain(chords, offsets, note_duration, start_tick, ticks_per_measure),
        spec_generate(chords, offsets, note_duration, start_tick, ticks_per_measure, channel, base_velocity, (2 * offsets.len() * chords.len()) as int) is Ok,
        0 <= k < 2 * offsets.len() * chords.len(),
    ensures
        spec_generate(chords, offsets, note_duration, start_tick, ticks_per_measure, channel, base_velocity, (2 * offsets.len() * chords.len()) as int)
            matches Ok(s) ==> start_tick + delta_sum(s, k + 1)
                == event_abs_time(offsets, note_duration, start_tick, ticks_per_measure, k),
{
    lemma_prefix_sum(chords, offsets, note_duration, start_tick, ticks_per_measure, channel, base_velocity, k + 1);
}

/// Pairing: a successful full run alternates Note-On and Note-Off per
/// (chord, offset) pair. The two events of pair `p` carry the same note and
/// the run's channel; the Note-On carries the base velocity, and the
/// Note-Off always carries the fixed Note-Off velocity, whatever the base.
pub proof fn lemma_pairing(chords: Seq<Chord>, offsets: Seq<u32>, note_duration: u32, start_tick: u32, ticks_per_measure: u32, channel: u8, base_velocity: u8, p: int)
    requires
        spec_generate(chords, offsets, note_duration, start_tick, ticks_per_measure, channel, base_velocity, (2 * offsets.len() * chords.len()) as int) is Ok,
        0 <= p,
        2 * p + 1 < 2 * offsets.len() * chords.len(),
    ensures
        spec_generate(chords, offsets, note_duration, start_tick, ticks_per_measure, channel, base_velocity, (2 * offsets.len() * chords.len()) as int)
            matches Ok(s) ==> ({
                &&& s[2 * p].kind == EventKind::NoteOn
                &&& s[2 * p + 1].kind == EventKind::NoteOff
                &&& s[2 * p].note == s[2 * p + 1].note
                &&& s[2 * p].channel == channel
                &&& s[2 * p + 1].channel == channel
                &&& s[2 * p].velocity == base_velocity
                &&& s[2 * p + 1].velocity == NOTE_OFF_VELOCITY
            }),
{
    let total = (2 * offsets.len() * chords.len()) as int;
    let plen = offsets.len() as int;
    let n = chords.len() as int;
    let per = 2 * plen;
    lemma_ok_shape(chords, offsets, note_duration, start_tick, ticks_per_measure, channel, base_velocity, total);
    if plen == 0 {
        lemma_mul_basics(n);
        assert(per * n == 0);
        assert(false);
    }
    let k = 2 * p;
    lemma_fundamental_div_mod(k, per);
    lemma_mod_bound(k, per);
    lemma_div_pos_is_pos(k, per);
    let i = k / per;
    let r = k % per;
    lemma_mul_is_commutative(2, p);
    lemma_fundamental_div_mod_converse(k, 2, p, 0);
    lemma_fundamental_div_mod_converse(k + 1, 2, p, 1);
    lemma_mul_is_associative(2, plen, i);
    let m = p - plen * i;
    lemma_mul_is_commutative(2, m);
    lemma_fundamental_div_mod_converse(r, 2, m, 0);
    lemma_mul_is_commutative(per, i);
    lemma_fundamental_div_mod_converse(k + 1, per, i, r + 1);
}

} // verus!
