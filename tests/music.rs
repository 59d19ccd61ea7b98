use libreguitar::{
    Note, NoteName, NoteRegistry, Tuning, TuningFault, TuningSpecification,
};

fn note(octave: i32, name: NoteName, frequency: u64) -> Note {
    Note {
        octave,
        name,
        frequency,
    }
}

#[test]
fn note_test_equality() {
    let note_a4 = note(4, NoteName::A, 440_000);
    let note_a4_bad_freq = note(4, NoteName::A, 445_000);
    let note_a5 = note(5, NoteName::A, 880_000);
    let note_b4 = note(5, NoteName::B, 493_900);

    assert_eq!(note_a4, note(4, NoteName::A, 440_000));
    assert_eq!(note_a4, note_a4_bad_freq);
    assert_ne!(note_a4, note_a5);
    assert_ne!(note_a4, note_b4);
}

#[test]
fn test_add_semitone_same_octave() {
    let n = note(4, NoteName::A, 440_000);
    assert_eq!(note(4, NoteName::B, 0), n.add_semitone(2));
    assert_eq!(note(4, NoteName::G, 0), n.add_semitone(-2));
    assert_eq!(note(4, NoteName::FSharp, 0), n.add_semitone(-3));
}

#[test]
fn test_add_semitone_higher_octave() {
    let n = note(3, NoteName::B, 440_000);
    assert_eq!(note(4, NoteName::CSharp, 0), n.add_semitone(2));
    assert_eq!(note(4, NoteName::ASharp, 0), n.add_semitone(11));
    assert_eq!(note(4, NoteName::B, 0), n.add_semitone(12));
    assert_eq!(note(6, NoteName::C, 0), n.add_semitone(25));
}

#[test]
fn test_add_semitone_lower_octave() {
    let n = note(3, NoteName::CSharp, 440_000);
    assert_eq!(note(2, NoteName::B, 0), n.add_semitone(-2));
    assert_eq!(note(2, NoteName::D, 0), n.add_semitone(-11));
    assert_eq!(note(2, NoteName::CSharp, 0), n.add_semitone(-12));
    assert_eq!(note(1, NoteName::C, 0), n.add_semitone(-25));
}

#[test]
fn add_semitone_round_trip_and_octave() {
    let n = note(2, NoteName::E, 82_400);
    for k in [-30, -12, -1, 0, 1, 7, 12, 29] {
        let back = n.add_semitone(k).add_semitone(-k);
        assert_eq!((back.octave, back.name), (n.octave, n.name));
    }
    let up = n.add_semitone(12);
    assert_eq!((up.octave, up.name), (3, NoteName::E));
    assert_eq!(0, up.frequency);
}

#[test]
fn note_registry_test_note_registry_notes_empty() {
    let reg = NoteRegistry::from_notes(vec![]).unwrap();
    assert_eq!(0, reg.notes().len());
}

#[test]
fn note_registry_test_note_registry_get_empty() {
    let reg = NoteRegistry::from_notes(vec![]).unwrap();
    assert_eq!(None, reg.get(NoteName::A, 2));
    assert_eq!(None, reg.get(NoteName::E, 3));
    assert_eq!(None, reg.get(NoteName::F, 4));
    assert_eq!(None, reg.get(NoteName::GSharp, 1));
}

#[test]
fn note_registry_test_note_registry_notes() {
    let reg = NoteRegistry::from_notes(vec![
        note(5, NoteName::E, 300_000),
        note(3, NoteName::F, 62_200),
        note(4, NoteName::C, 75_500),
    ])
    .unwrap();
    let expected = vec![
        note(3, NoteName::F, 62_200),
        note(4, NoteName::C, 75_500),
        note(5, NoteName::E, 300_000),
    ];
    assert_eq!(&expected, reg.notes());
    let freqs: Vec<u64> = reg.notes().iter().map(|n| n.frequency).collect();
    assert_eq!(vec![62_200, 75_500, 300_000], freqs);
}

#[test]
fn note_registry_test_note_registry_get() {
    let notes = vec![
        note(3, NoteName::E, 300_000),
        note(3, NoteName::F, 62_200),
        note(3, NoteName::C, 75_500),
    ];
    let reg = NoteRegistry::from_notes(notes.clone()).unwrap();
    assert_eq!(Some(&notes[0]), reg.get(NoteName::E, 3));
    assert_eq!(Some(&notes[1]), reg.get(NoteName::F, 3));
    assert_eq!(Some(&notes[2]), reg.get(NoteName::C, 3));
    assert_eq!(None, reg.get(NoteName::D, 2));
}

#[test]
fn note_test_note_registry_notes_empty() {
    let reg = NoteRegistry::from_notes(vec![]).unwrap();
    assert_eq!(0, reg.notes().len());
}

#[test]
fn note_test_note_registry_get_empty() {
    let reg = NoteRegistry::from_notes(vec![]).unwrap();
    assert_eq!(None, reg.get(NoteName::A, 2));
    assert_eq!(None, reg.get(NoteName::E, 3));
    assert_eq!(None, reg.get(NoteName::F, 4));
    assert_eq!(None, reg.get(NoteName::GSharp, 1));
}

#[test]
fn note_test_note_registry_notes() {
    let reg = NoteRegistry::from_notes(vec![
        note(5, NoteName::E, 300_000),
        note(3, NoteName::F, 62_200),
        note(4, NoteName::C, 75_500),
    ])
    .unwrap();
    let expected = vec![
        note(3, NoteName::F, 62_200),
        note(4, NoteName::C, 75_500),
        note(5, NoteName::E, 300_000),
    ];
    assert_eq!(&expected, reg.notes());
}

#[test]
fn note_test_note_registry_get() {
    let notes = vec![
        note(3, NoteName::E, 300_000),
        note(3, NoteName::F, 62_200),
        note(3, NoteName::C, 75_500),
    ];
    let reg = NoteRegistry::from_notes(notes.clone()).unwrap();
    assert_eq!(Some(&notes[0]), reg.get(NoteName::E, 3));
    assert_eq!(Some(&notes[1]), reg.get(NoteName::F, 3));
    assert_eq!(Some(&notes[2]), reg.get(NoteName::C, 3));
    assert_eq!(None, reg.get(NoteName::D, 2));
}

#[test]
fn note_registry_rejects_duplicates() {
    let res = NoteRegistry::from_notes(vec![
        note(2, NoteName::E, 82_400),
        note(2, NoteName::A, 110_000),
        note(2, NoteName::E, 82_500),
    ]);
    let err = res.err().unwrap();
    assert_eq!((2, NoteName::E), (err.note.octave, err.note.name));
}

#[test]
fn note_registry_order_independent() {
    let a = vec![
        note(2, NoteName::E, 82_400),
        note(2, NoteName::F, 87_300),
        note(2, NoteName::FSharp, 92_500),
    ];
    let b = vec![a[2], a[0], a[1]];
    let ra = NoteRegistry::from_notes(a).unwrap();
    let rb = NoteRegistry::from_notes(b).unwrap();
    let fa: Vec<(i32, NoteName, u64)> = ra.notes().iter().map(|n| (n.octave, n.name, n.frequency)).collect();
    let fb: Vec<(i32, NoteName, u64)> = rb.notes().iter().map(|n| (n.octave, n.name, n.frequency)).collect();
    assert_eq!(fa, fb);
    assert_eq!(82_400, fa[0].2);
}

#[test]
fn test_note_registry_add_semitones_empty() {
    let reg = NoteRegistry::from_notes(vec![]).unwrap();
    let n = note(3, NoteName::C, 75_500);
    assert_eq!(None, reg.add_semitones(&n, 0));
    assert_eq!(None, reg.add_semitones(&n, 1));
    assert_eq!(None, reg.add_semitones(&n, -1));
}

#[test]
fn test_note_registry_add_semitones_out_of_bounds() {
    let notes = vec![
        note(3, NoteName::E, 50_000),
        note(3, NoteName::F, 62_200),
        note(3, NoteName::FSharp, 75_500),
    ];
    let reg = NoteRegistry::from_notes(notes.clone()).unwrap();
    assert_eq!(None, reg.add_semitones(&notes[0], 5));
    assert_eq!(None, reg.add_semitones(&notes[0], -1));
    assert_eq!(None, reg.add_semitones(&notes[1], 5));
    assert_eq!(None, reg.add_semitones(&notes[1], -2));
    assert_eq!(None, reg.add_semitones(&notes[2], 1));
    assert_eq!(None, reg.add_semitones(&notes[2], -3));
}

#[test]
fn test_note_registry_add_semitones_general() {
    let notes = vec![
        note(3, NoteName::E, 50_000),
        note(3, NoteName::F, 62_200),
        note(3, NoteName::FSharp, 75_500),
    ];
    let reg = NoteRegistry::from_notes(notes.clone()).unwrap();
    assert_eq!(Some(&notes[1]), reg.add_semitones(&notes[0], 1));
    assert_eq!(Some(&notes[2]), reg.add_semitones(&notes[0], 2));
    assert_eq!(Some(&notes[2]), reg.add_semitones(&notes[1], 1));
    assert_eq!(Some(&notes[0]), reg.add_semitones(&notes[1], -1));
    assert_eq!(Some(&notes[1]), reg.add_semitones(&notes[2], -1));
    assert_eq!(Some(&notes[0]), reg.add_semitones(&notes[2], -2));
    assert_eq!(62_200, reg.add_semitones(&notes[0], 1).unwrap().frequency);
}

fn spec(string: usize, octave: i32, name: NoteName) -> TuningSpecification {
    TuningSpecification {
        string,
        octave,
        name,
    }
}

fn five_notes() -> Vec<Note> {
    vec![
        note(4, NoteName::E, 35_500),
        note(4, NoteName::A, 36_000),
        note(4, NoteName::F, 36_500),
        note(4, NoteName::B, 37_000),
        note(4, NoteName::G, 37_500),
    ]
}

#[test]
fn test_tuning_empty() {
    let tuning_spec: Vec<TuningSpecification> = vec![];
    let note_reg = NoteRegistry::from_notes(vec![]).unwrap();
    let tuning = Tuning::from_specification(&tuning_spec[..], &note_reg).unwrap();
    assert_eq!(None, tuning.iter().next());
}

#[test]
#[should_panic]
fn test_tuning_empty_panic() {
    let tuning_spec: Vec<TuningSpecification> = vec![];
    let note_reg = NoteRegistry::from_notes(vec![]).unwrap();
    let tuning = Tuning::from_specification(&tuning_spec[..], &note_reg).unwrap();
    tuning.note(1);
}

#[test]
#[should_panic]
fn test_tuning_nonempty_panic_wrong_idx() {
    let tuning_spec = vec![spec(1, 1, NoteName::E)];
    let note_reg = NoteRegistry::from_notes(vec![note(1, NoteName::E, 53_500)]).unwrap();
    let tuning = Tuning::from_specification(&tuning_spec[..], &note_reg).unwrap();
    tuning.note(0);
}

#[test]
#[should_panic]
fn test_tuning_nonempty_panic() {
    let tuning_spec = vec![spec(1, 1, NoteName::E)];
    let note_reg = NoteRegistry::from_notes(vec![note(1, NoteName::E, 53_500)]).unwrap();
    let tuning = Tuning::from_specification(&tuning_spec[..], &note_reg).unwrap();
    tuning.note(2);
}

#[test]
#[should_panic]
fn test_tuning_incorrect_order() {
    let tuning_spec = vec![
        spec(1, 4, NoteName::E),
        spec(3, 4, NoteName::E),
        spec(2, 4, NoteName::E),
    ];
    let note_reg = NoteRegistry::from_notes(vec![
        note(4, NoteName::E, 35_500),
        note(4, NoteName::E, 35_500),
        note(4, NoteName::E, 35_500),
    ])
    .unwrap();
    Tuning::from_specification(&tuning_spec[..], &note_reg).unwrap();
}

#[test]
fn test_tuning_note() {
    let tuning_spec = vec![
        spec(1, 4, NoteName::E),
        spec(2, 4, NoteName::F),
        spec(3, 4, NoteName::G),
    ];
    let note_vec = five_notes();
    let note_reg = NoteRegistry::from_notes(note_vec.clone()).unwrap();
    let tuning = Tuning::from_specification(&tuning_spec[..], &note_reg).unwrap();
    assert_eq!(&note_vec[0], tuning.note(1));
    assert_eq!(&note_vec[2], tuning.note(2));
    assert_eq!(&note_vec[4], tuning.note(3));
    assert_eq!(36_500, tuning.note(2).frequency);
}

#[test]
fn test_tuning_iter() {
    let tuning_spec = vec![
        spec(1, 4, NoteName::E),
        spec(2, 4, NoteName::F),
        spec(3, 4, NoteName::G),
    ];
    let note_vec = five_notes();
    let note_reg = NoteRegistry::from_notes(note_vec.clone()).unwrap();
    let tuning = Tuning::from_specification(&tuning_spec[..], &note_reg).unwrap();
    let mut iter = tuning.iter();
    assert_eq!(Some(&note_vec[0]), iter.next());
    assert_eq!(Some(&note_vec[2]), iter.next());
    assert_eq!(Some(&note_vec[4]), iter.next());
    assert_eq!(None, iter.next());
}

#[test]
fn tuning_errors_name_the_first_bad_row() {
    let note_reg = NoteRegistry::from_notes(five_notes()).unwrap();
    let misnumbered = vec![spec(1, 4, NoteName::E), spec(3, 4, NoteName::F)];
    let e = Tuning::from_specification(&misnumbered[..], &note_reg).err().unwrap();
    assert_eq!((1, TuningFault::StringNumbering), (e.row, e.fault));
    let unknown = vec![spec(1, 4, NoteName::E), spec(2, 5, NoteName::F)];
    let e = Tuning::from_specification(&unknown[..], &note_reg).err().unwrap();
    assert_eq!((1, TuningFault::UnknownNote), (e.row, e.fault));
}
