//! Chords: a root pitch plus an ordered list of interval offsets.
//!
//! Only the first interval of a chord is consumed by the current strumming
//! algorithm; the rest of the voicing is carried but unused. That is a
//! documented limitation of the algorithm, kept as it stands.

use vstd::prelude::*;

verus! {

/// A chord: a root pitch and its interval offsets, both in semitones.
/// Immutable once constructed; the pitch domain (`0..128`) is not enforced
/// by the type itself but demanded where a chord is played.
#[derive(Clone, Debug)]
pub struct Chord {
    /// Root pitch, nominally `0..128`.
    pub root: u8,
    /// Ordered interval offsets above the root. Only `intervals[0]` is read
    /// by the strumming algorithm.
    pub intervals: Vec<u8>,
}

/// The note the strumming algorithm sounds for `c`: its root plus its first
/// interval.
pub open spec fn chord_note(c: Chord) -> int
    recommends
        c.intervals@.len() > 0,
{
    c.root + c.intervals@[0]
}

/// `c` can be played: it has at least one interval, and the note it sounds
/// lies in the MIDI pitch domain.
pub open spec fn chord_playable(c: Chord) -> bool {
    &&& c.intervals@.len() > 0
    &&& chord_note(c) < 128
}

/// A major triad on `root`: intervals 0, 4 and 7 semitones.
fn major_triad(root: u8) -> (c: Chord)
    ensures
        c.root == root,
        c.intervals@ =~= seq![0u8, 4u8, 7u8],
{
    let mut intervals: Vec<u8> = Vec::new();
    intervals.push(0);
    intervals.push(4);
    intervals.push(7);
    Chord { root, intervals }
}

/// A minimal demonstration progression: C major, G major, F major.
pub fn get_demo_chords() -> (chords: Vec<Chord>)
    ensures
        chords@.len() == 3,
        chords@[0].root == 60 && chords@[0].intervals@ =~= seq![0u8, 4u8, 7u8],
        chords@[1].root == 67 && chords@[1].intervals@ =~= seq![0u8, 4u8, 7u8],
        chords@[2].root == 65 && chords@[2].intervals@ =~= seq![0u8, 4u8, 7u8],
        forall|i: int| 0 <= i < chords@.len() ==> chord_playable(#[trigger] chords@[i]),
{
    let mut chords: Vec<Chord> = Vec::new();
    chords.push(major_triad(60));
    chords.push(major_triad(67));
    chords.push(major_triad(65));
    chords
}

} // verus!
