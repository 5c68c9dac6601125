//! Timed MIDI channel events and their constructors.
//!
//! An [`Event`] is one entry of a delta-encoded track: a non-negative tick
//! offset from the previous event, a channel, a Note-On or Note-Off tag, a
//! note pitch and a velocity. Events are produced once and never mutated.

use vstd::prelude::*;

verus! {

/// Whether an event starts a note or ends one.
#[derive(Clone, Copy, PartialEq, Eq, Structural, Debug)]
pub enum EventKind {
    NoteOn,
    NoteOff,
}

/// One delta-encoded track event.
#[derive(Clone, Copy, PartialEq, Eq, Structural, Debug)]
pub struct Event {
    /// Tick offset from the previous event (or from the track start for the
    /// first event). Always non-negative; at most [`TICK_MAX`].
    pub delta: u32,
    /// MIDI channel, `0..16`.
    pub channel: u8,
    /// Note-On or Note-Off.
    pub kind: EventKind,
    /// Note pitch, `0..128`.
    pub note: u8,
    /// Key velocity, `0..128`.
    pub velocity: u8,
}

/// The largest tick value a track position or delta may take: the delta-time
/// field of a standard MIDI file event is a 28-bit unsigned integer.
pub const TICK_MAX: u32 = 0x0FFF_FFFF;

/// All fields of `e` lie in the domains the MIDI encoding gives them.
pub open spec fn event_in_domain(e: Event) -> bool {
    &&& e.delta <= TICK_MAX
    &&& e.channel < 16
    &&& e.note < 128
    &&& e.velocity < 128
}

/// Package a (delta, channel, note, velocity) tuple as a Note-On event.
pub fn note_on_event(delta: u32, channel: u8, note: u8, velocity: u8) -> (e: Event)
    requires
        delta <= TICK_MAX,
        channel < 16,
        note < 128,
        velocity < 128,
    ensures
        e == (Event { delta, channel, kind: EventKind::NoteOn, note, velocity }),
        event_in_domain(e),
{
    Event { delta, channel, kind: EventKind::NoteOn, note, velocity }
}

/// Package a (delta, channel, note, velocity) tuple as a Note-Off event.
pub fn note_off_event(delta: u32, channel: u8, note: u8, velocity: u8) -> (e: Event)
    requires
        delta <= TICK_MAX,
        channel < 16,
        note < 128,
        velocity < 128,
    ensures
        e == (Event { delta, channel, kind: EventKind::NoteOff, note, velocity }),
        event_in_domain(e),
{
    Event { delta, channel, kind: EventKind::NoteOff, note, velocity }
}

} // verus!
