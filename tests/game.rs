use libreguitar::{
    active_locations, locs2notes, ActiveNotes, AnalysisResult, FretLoc, FretRange, GameCfg,
    GameErrorKind, GameLogic, Note, NoteName, NoteRegistry, StringRange, Tuning,
    TuningSpecification,
};

fn note(octave: i32, name: NoteName, frequency: u64) -> Note {
    Note {
        octave,
        name,
        frequency,
    }
}

fn loc(string_idx: usize, fret_idx: usize) -> FretLoc {
    FretLoc {
        string_idx,
        fret_idx,
    }
}

#[test]
fn test_active_locations_one_cell() {
    let string_range = StringRange::new(1, 2);
    let fret_range = FretRange::new(3, 4);
    let active_locs = active_locations(&string_range, &fret_range);
    assert_eq!(1, active_locs.len());
    assert_eq!(
        FretLoc {
            string_idx: 1,
            fret_idx: 3
        },
        active_locs[0]
    );
}

#[test]
fn test_active_locations_open_strings() {
    let string_range = StringRange::new(1, 4);
    let fret_range = FretRange::new(0, 1);
    let active_locs = active_locations(&string_range, &fret_range);
    assert_eq!(3, active_locs.len());
    assert_eq!(vec![loc(1, 0), loc(2, 0), loc(3, 0)], active_locs);
}

#[test]
fn test_active_locations_fifth_pos() {
    let string_range = StringRange::new(1, 7);
    let fret_range = FretRange::new(5, 9);
    let active_locs = active_locations(&string_range, &fret_range);
    assert_eq!(24, active_locs.len());
    let mut expected = Vec::new();
    for string_idx in string_range.r() {
        for fret_idx in fret_range.r() {
            expected.push(FretLoc {
                string_idx,
                fret_idx,
            });
        }
    }
    assert_eq!(expected, active_locs);
}

#[test]
fn test_locs2notes_empty() {
    let string_range = StringRange::new(1, 7);
    let fret_range = FretRange::new(5, 9);
    let active_locs = active_locations(&string_range, &fret_range);
    assert_eq!(24, active_locs.len());
    let mut expected = Vec::new();
    for string_idx in string_range.r() {
        for fret_idx in fret_range.r() {
            expected.push(FretLoc {
                string_idx,
                fret_idx,
            });
        }
    }
    assert_eq!(expected, active_locs);
}

#[test]
fn locs2notes_transposes_open_strings() {
    let registry = NoteRegistry::from_notes(vec![
        note(3, NoteName::G, 205_000),
        note(3, NoteName::A, 220_000),
        note(3, NoteName::B, 246_000),
        note(4, NoteName::C, 261_000),
    ])
    .unwrap();
    let tuning = Tuning::from_specification(
        &[TuningSpecification {
            name: NoteName::G,
            octave: 3,
            string: 1,
        }],
        &registry,
    )
    .unwrap();
    let locs = vec![loc(1, 2), loc(1, 4), loc(1, 5), loc(1, 3), loc(2, 0)];
    let found = locs2notes(&locs, &tuning, &registry);
    let names: Vec<Option<(i32, NoteName)>> = found
        .iter()
        .map(|(_, n)| n.map(|n| (n.octave, n.name)))
        .collect();
    assert_eq!(
        vec![
            Some((3, NoteName::A)),
            Some((3, NoteName::B)),
            Some((4, NoteName::C)),
            None,
            None
        ],
        names
    );
    assert_eq!(loc(1, 4), found[1].0);
}

#[test]
fn test_active_notes_empty() {
    let registry = NoteRegistry::from_notes(vec![]).unwrap();
    let tuning = Tuning::from_specification(&[], &registry).unwrap();
    let active_notes = ActiveNotes::new(
        &registry,
        &tuning,
        StringRange::new(1, 7),
        FretRange::new(0, 12),
    );
    for s in 0..9 {
        for f in 0..14 {
            assert!(active_notes.get(&loc(s, f)).is_none());
        }
    }
}

fn three_note_registry() -> NoteRegistry {
    NoteRegistry::from_notes(vec![
        note(2, NoteName::E, 82_400),
        note(2, NoteName::F, 87_300),
        note(2, NoteName::FSharp, 92_500),
    ])
    .unwrap()
}

fn low_e_tuning(registry: &NoteRegistry) -> Tuning {
    Tuning::from_specification(
        &[TuningSpecification {
            string: 1,
            octave: 2,
            name: NoteName::E,
        }],
        registry,
    )
    .unwrap()
}

#[test]
fn active_notes_match_transposition() {
    let registry = three_note_registry();
    let tuning = low_e_tuning(&registry);
    let active = ActiveNotes::new(&registry, &tuning, StringRange::new(1, 3), FretRange::new(0, 4));
    let open = tuning.note(1);
    for f in 0..4usize {
        assert_eq!(
            registry.add_semitones(open, f as i32).map(|n| n.frequency),
            active.get(&loc(1, f)).map(|n| n.frequency)
        );
    }
    assert!(active.get(&loc(2, 0)).is_none());
    assert!(active.get(&loc(1, 4)).is_none());
}

#[test]
fn game_logic_test_equality() {}

#[test]
fn game_end_to_end() {
    let registry = three_note_registry();
    let tuning = low_e_tuning(&registry);
    let cfg = GameCfg {
        fret_range: (0, 2),
        string_range: (1, 2),
        note_count_for_acceptance: 3,
        state_update_period: 1,
    };
    let mut game = GameLogic::new(&registry, &tuning, &cfg).unwrap();
    assert_eq!(
        Some(82_400),
        game.active_notes().get(&loc(1, 0)).map(|n| n.frequency)
    );
    assert_eq!(
        Some(87_300),
        game.active_notes().get(&loc(1, 1)).map(|n| n.frequency)
    );
    assert!(game.active_notes().get(&loc(1, 2)).is_none());

    assert_eq!(
        GameErrorKind::NotRunning,
        game.next_target(1, 1).err().unwrap().kind
    );
    game.play().unwrap();
    let st = game.next_target(1, 1).unwrap();
    assert_eq!(note(2, NoteName::F, 87_300), st.target_note);
    assert_eq!(loc(1, 1), st.target_loc);
    assert_eq!((3, 0), (st.needed_detection_count, st.curr_detection_count));

    let heard = AnalysisResult {
        note: Some(note(2, NoteName::F, 87_300)),
    };
    let mut counts = Vec::new();
    let mut reached = Vec::new();
    for _ in 0..3 {
        let step = game.on_analysis(&heard);
        counts.push(step.broadcast.unwrap().curr_detection_count);
        reached.push(step.target_reached);
    }
    assert_eq!(vec![1, 2, 3], counts);
    assert_eq!(vec![false, false, true], reached);

    let next = game.next_target(1, 0).unwrap();
    assert_eq!(note(2, NoteName::E, 82_400), next.target_note);
    assert_eq!(0, next.curr_detection_count);
}

#[test]
fn game_counts_only_the_target() {
    let registry = three_note_registry();
    let tuning = low_e_tuning(&registry);
    let cfg = GameCfg {
        fret_range: (0, 2),
        string_range: (1, 2),
        note_count_for_acceptance: 4,
        state_update_period: 2,
    };
    let mut game = GameLogic::new(&registry, &tuning, &cfg).unwrap();
    game.play().unwrap();
    game.next_target(1, 0).unwrap();
    let other = AnalysisResult {
        note: Some(note(3, NoteName::E, 164_800)),
    };
    let target = AnalysisResult {
        note: Some(note(2, NoteName::E, 0)),
    };
    let silence = AnalysisResult { note: None };
    let s1 = game.on_analysis(&other);
    assert!(s1.broadcast.is_none() && !s1.target_reached);
    let s2 = game.on_analysis(&target);
    assert!(s2.broadcast.is_none());
    let s3 = game.on_analysis(&silence);
    assert!(s3.broadcast.is_none());
    let s4 = game.on_analysis(&target);
    assert_eq!(2, s4.broadcast.unwrap().curr_detection_count);
    assert!(!s4.target_reached);
}

#[test]
fn game_rejects_bad_settings_and_empty_places() {
    let registry = three_note_registry();
    let tuning = low_e_tuning(&registry);
    let bad = GameCfg {
        fret_range: (2, 2),
        string_range: (1, 2),
        note_count_for_acceptance: 3,
        state_update_period: 1,
    };
    assert_eq!(
        GameErrorKind::InvalidConfiguration,
        GameLogic::new(&registry, &tuning, &bad).err().unwrap().kind
    );
    let zero_period = GameCfg {
        fret_range: (0, 2),
        string_range: (1, 2),
        note_count_for_acceptance: 3,
        state_update_period: 0,
    };
    assert!(GameLogic::new(&registry, &tuning, &zero_period).is_err());
    let wide = GameCfg {
        fret_range: (0, 5),
        string_range: (1, 2),
        note_count_for_acceptance: 3,
        state_update_period: 1,
    };
    let mut game = GameLogic::new(&registry, &tuning, &wide).unwrap();
    game.play().unwrap();
    assert_eq!(
        GameErrorKind::NoNoteAtLocation,
        game.next_target(1, 4).err().unwrap().kind
    );
    assert_eq!((0, 5), (game.fret_range().r().start, game.fret_range().r().end));
    assert_eq!((1, 2), (game.string_range().r().start, game.string_range().r().end));
}
