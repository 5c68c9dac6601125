use chord_track::chord::get_demo_chords;
use chord_track::event::{note_off_event, note_on_event, EventKind};
use chord_track::timeline::{safe_sub_ticks, StrumPattern};

#[test]
fn note_on_constructor_packages_its_fields() {
    let event = note_on_event(12, 3, 60, 100);
    assert_eq!(event.delta, 12);
    assert_eq!(event.channel, 3);
    assert_eq!(event.kind, EventKind::NoteOn);
    assert_eq!(event.note, 60);
    assert_eq!(event.velocity, 100);
}

#[test]
fn note_off_constructor_packages_its_fields() {
    let event = note_off_event(7, 1, 72, 64);
    assert_eq!(event.delta, 7);
    assert_eq!(event.channel, 1);
    assert_eq!(event.kind, EventKind::NoteOff);
    assert_eq!(event.note, 72);
    assert_eq!(event.velocity, 64);
}

#[test]
fn safe_sub_returns_the_gap_when_in_order() {
    assert_eq!(safe_sub_ticks(400, 160, EventKind::NoteOff).unwrap(), 240);
    assert_eq!(safe_sub_ticks(55, 55, EventKind::NoteOn).unwrap(), 0);
}

#[test]
fn safe_sub_reports_an_underflow_with_its_operands() {
    let err = safe_sub_ticks(100, 400, EventKind::NoteOn).unwrap_err();
    assert_eq!(err.last_abs_time, 400);
    assert_eq!(err.target_abs_time, 100);
    assert_eq!(err.kind, EventKind::NoteOn);
}

#[test]
fn default_pattern_is_four_offsets_of_forty_ticks() {
    let pattern = StrumPattern::default();
    assert_eq!(pattern.offsets, vec![0, 120, 240, 360]);
    assert_eq!(pattern.note_duration, 40);
}

#[test]
fn demo_chords_are_c_g_f_major() {
    let chords = get_demo_chords();
    assert_eq!(chords.len(), 3);
    assert_eq!(chords[0].root, 60);
    assert_eq!(chords[1].root, 67);
    assert_eq!(chords[2].root, 65);
    for chord in &chords {
        assert_eq!(chord.intervals, vec![0, 4, 7]);
    }
}
