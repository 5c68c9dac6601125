use chord_track::chord::{Chord, get_demo_chords};
use chord_track::event::EventKind;
use chord_track::timeline::{
    generate_chord_track_events, generate_strummed_events, StrumPattern,
};

#[test]
fn test_chord_track_events_not_empty() {
    // We'll call the generator with typical values.
    let chords = get_demo_chords();
    let events = generate_chord_track_events(&chords, 0, 1920, 0, 64).unwrap();
    assert!(!events.is_empty());
}

#[test]
fn count_is_eight_events_per_chord() {
    let chords = get_demo_chords();
    let events = generate_chord_track_events(&chords, 0, 1920, 0, 64).unwrap();
    assert_eq!(events.len(), 24);

    let one = vec![Chord { root: 60, intervals: vec![0, 4, 7] }];
    let events = generate_chord_track_events(&one, 0, 1920, 0, 64).unwrap();
    assert_eq!(events.len(), 8);
}

#[test]
fn repeated_runs_are_identical() {
    let chords = get_demo_chords();
    let first = generate_chord_track_events(&chords, 0, 1920, 0, 64).unwrap();
    let second = generate_chord_track_events(&chords, 0, 1920, 0, 64).unwrap();
    assert_eq!(first, second);
}

#[test]
fn c_major_scenario_first_events() {
    let chords = vec![Chord { root: 60, intervals: vec![0, 4, 7] }];
    let events = generate_chord_track_events(&chords, 0, 1920, 0, 64).unwrap();

    assert_eq!(events[0].kind, EventKind::NoteOn);
    assert_eq!(events[0].delta, 0);
    assert_eq!(events[0].note, 60);
    assert_eq!(events[0].velocity, 64);

    assert_eq!(events[1].kind, EventKind::NoteOff);
    assert_eq!(events[1].delta, 40);
    assert_eq!(events[1].note, 60);
    assert_eq!(events[1].velocity, 64);

    assert_eq!(events[2].kind, EventKind::NoteOn);
    assert_eq!(events[2].delta, 80);
    assert_eq!(events[2].note, 60);
    assert_eq!(events[2].velocity, 64);
}

#[test]
fn short_measure_fails_on_second_chord() {
    // The default pattern spans to tick 360 + 40 = 400, so a 100-tick
    // measure puts the second chord's first Note-On behind the first
    // chord's last Note-Off.
    let chords = vec![
        Chord { root: 60, intervals: vec![0, 4, 7] },
        Chord { root: 67, intervals: vec![0, 4, 7] },
    ];
    let err = generate_chord_track_events(&chords, 0, 100, 0, 64).unwrap_err();
    assert_eq!(err.kind, EventKind::NoteOn);
    assert_eq!(err.last_abs_time, 400);
    assert_eq!(err.target_abs_time, 100);
}

#[test]
fn short_measure_with_single_chord_succeeds() {
    // With one chord there is no next measure to step behind.
    let chords = vec![Chord { root: 60, intervals: vec![0, 4, 7] }];
    let events = generate_chord_track_events(&chords, 0, 100, 0, 64).unwrap();
    assert_eq!(events.len(), 8);
}

#[test]
fn measure_equal_to_strum_span_succeeds() {
    let chords = vec![
        Chord { root: 60, intervals: vec![0, 4, 7] },
        Chord { root: 67, intervals: vec![0, 4, 7] },
    ];
    let events = generate_chord_track_events(&chords, 0, 400, 0, 64).unwrap();
    assert_eq!(events.len(), 16);
    // The second chord starts exactly where the first one ended.
    assert_eq!(events[8].delta, 0);
    assert_eq!(events[8].kind, EventKind::NoteOn);

    let err = generate_chord_track_events(&chords, 0, 399, 0, 64).unwrap_err();
    assert_eq!(err.kind, EventKind::NoteOn);
    assert_eq!(err.last_abs_time, 400);
    assert_eq!(err.target_abs_time, 399);
}

#[test]
fn cumulative_deltas_reach_absolute_times() {
    let chords = vec![Chord { root: 60, intervals: vec![0, 4, 7] }];
    let events = generate_chord_track_events(&chords, 0, 1920, 0, 64).unwrap();
    let expected_abs = [0u32, 40, 120, 160, 240, 280, 360, 400];
    let mut sum: u32 = 0;
    for (event, abs) in events.iter().zip(expected_abs.iter()) {
        sum += event.delta;
        assert_eq!(sum, *abs);
    }
}

#[test]
fn pairs_alternate_and_note_off_velocity_is_fixed() {
    let chords = get_demo_chords();
    let events = generate_chord_track_events(&chords, 0, 1920, 3, 90).unwrap();
    for pair in events.chunks(2) {
        assert_eq!(pair[0].kind, EventKind::NoteOn);
        assert_eq!(pair[1].kind, EventKind::NoteOff);
        assert_eq!(pair[0].note, pair[1].note);
        assert_eq!(pair[0].channel, 3);
        assert_eq!(pair[1].channel, 3);
        assert_eq!(pair[0].velocity, 90);
        // Note-Off velocity ignores the base velocity.
        assert_eq!(pair[1].velocity, 64);
    }
}

#[test]
fn only_the_first_interval_is_sounded() {
    let chords = vec![Chord { root: 60, intervals: vec![4, 7] }];
    let events = generate_chord_track_events(&chords, 0, 1920, 0, 64).unwrap();
    for event in &events {
        assert_eq!(event.note, 64);
    }
}

#[test]
fn nonzero_start_tick_shifts_nothing_before_the_first_event() {
    let chords = vec![Chord { root: 60, intervals: vec![0, 4, 7] }];
    let events = generate_chord_track_events(&chords, 10, 1920, 0, 64).unwrap();
    // The first Note-On falls on the start tick itself.
    assert_eq!(events[0].delta, 0);
    assert_eq!(events[1].delta, 40);
}

#[test]
fn empty_progression_yields_no_events() {
    let chords: Vec<Chord> = Vec::new();
    let events = generate_chord_track_events(&chords, 0, 1920, 0, 64).unwrap();
    assert!(events.is_empty());
}

#[test]
fn custom_pattern_controls_offsets_and_duration() {
    let chords = vec![Chord { root: 50, intervals: vec![0] }];
    let pattern = StrumPattern { offsets: vec![0, 10], note_duration: 5 };
    let events = generate_strummed_events(&chords, &pattern, 0, 1920, 0, 64).unwrap();
    assert_eq!(events.len(), 4);
    let deltas: Vec<u32> = events.iter().map(|e| e.delta).collect();
    assert_eq!(deltas, vec![0, 5, 5, 5]);
}

#[test]
fn descending_pattern_fails_within_a_chord() {
    let chords = vec![Chord { root: 50, intervals: vec![0] }];
    let pattern = StrumPattern { offsets: vec![100, 0], note_duration: 40 };
    let err = generate_strummed_events(&chords, &pattern, 0, 1920, 0, 64).unwrap_err();
    assert_eq!(err.kind, EventKind::NoteOn);
    assert_eq!(err.last_abs_time, 140);
    assert_eq!(err.target_abs_time, 0);
}
