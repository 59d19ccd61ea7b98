use vstd::prelude::*;
use std::collections::HashMap;
use super::note::{lemma_pitch_identity, Note};
use super::note_name::{pos_in_octave, NoteName};
use super::note_order::{lemma_ordered, lemma_ordered_props, ordered, sort_notes, sorted_notes};

verus! {

broadcast use vstd::std_specs::hash::group_hash_axioms;

/// Some two positions of `s` hold the same note (same octave and pitch class).
pub open spec fn has_duplicate(s: Seq<Note>) -> bool {
    exists|i: int, j: int|
        0 <= i < s.len() && 0 <= j < s.len() && i != j && #[trigger] s[i].same_note(
            #[trigger] s[j],
        )
}

/// No two positions of `s` hold notes of the same absolute pitch.
pub open spec fn distinct_pitches(s: Seq<Note>) -> bool {
    forall|i: int, j: int|
        0 <= i < s.len() && 0 <= j < s.len() && i != j ==> #[trigger] s[i].pitch() != #[trigger] s[j].pitch()
}

/// Some note of `s` has absolute pitch `p`.
pub open spec fn has_pitch(s: Seq<Note>, p: int) -> bool {
    exists|i: int| 0 <= i < s.len() && #[trigger] s[i].pitch() == p
}

/// The note of `s` with absolute pitch `p`, if there is one.
pub open spec fn note_with_pitch(s: Seq<Note>, p: int) -> Option<Note> {
    if has_pitch(s, p) {
        Some(s[choose|i: int| 0 <= i < s.len() && #[trigger] s[i].pitch() == p])
    } else {
        None
    }
}

/// The note that an optional reference points to.
pub open spec fn deref_note(r: Option<&Note>) -> Option<Note> {
    match r {
        Some(n) => Some(*n),
        None => None,
    }
}

proof fn lemma_duplicate_pitch(s: Seq<Note>)
    ensures
        has_duplicate(s) <==> !distinct_pitches(s),
{
    if has_duplicate(s) {
        let (i, j) = choose|i: int, j: int|
            0 <= i < s.len() && 0 <= j < s.len() && i != j && #[trigger] s[i].same_note(
                #[trigger] s[j],
            );
        lemma_pitch_identity(s[i], s[j]);
    }
    if !distinct_pitches(s) {
        let (i, j) = choose|i: int, j: int|
            0 <= i < s.len() && 0 <= j < s.len() && i != j && #[trigger] s[i].pitch()
                == #[trigger] s[j].pitch();
        lemma_pitch_identity(s[i], s[j]);
        assert(s[i].same_note(s[j]));
    }
}

/// Error of a note list that holds the same note twice.
#[derive(Debug)]
pub struct DuplicateNoteError {
    /// One of the notes that occur twice.
    pub note: Note,
}

/// The catalogue of known notes, ordered by frequency, each note at most once.
pub struct NoteRegistry {
    note2idx: HashMap<i64, usize>,
    idx2note: Vec<Note>,
}

impl View for NoteRegistry {
    type V = Seq<Note>;

    closed spec fn view(&self) -> Seq<Note> {
        self.idx2note@
    }
}

/// Absolute pitch of a note, computed.
fn pitch_of(octave: i32, name: NoteName) -> (r: i64)
    ensures
        r == octave * 12 + name.pos(),
{
    octave as i64 * 12 + pos_in_octave(name) as i64
}

impl NoteRegistry {
    /// The index from absolute pitch to position is exact.
    pub closed spec fn index_ok(&self) -> bool {
        &&& forall|k: i64| #[trigger]
            self.note2idx@.contains_key(k) ==> self.note2idx@[k] < self.idx2note@.len()
                && self.idx2note@[self.note2idx@[k] as int].pitch() == k
        &&& forall|i: int|
            0 <= i < self.idx2note@.len() ==> #[trigger] self.note2idx@.contains_key(
                self.idx2note@[i].pitch() as i64,
            )
    }

    /// Well-formed: ordered by frequency, no note twice, index exact.
    pub open spec fn wf(&self) -> bool {
        &&& sorted_notes(self@)
        &&& distinct_pitches(self@)
        &&& self.index_ok()
    }

    /// Builds the registry from a list of notes in any order.
    ///
    /// Fails exactly when two entries share octave and pitch class; otherwise
    /// the registry holds the same notes, ordered by frequency.
    pub fn from_notes(notes: Vec<Note>) -> (r: Result<NoteRegistry, DuplicateNoteError>)
        ensures
            r is Ok <==> !has_duplicate(notes@),
            r matches Ok(reg) ==> {
                &&& reg.wf()
                &&& reg@.to_multiset() == notes@.to_multiset()
                &&& reg@ == ordered(notes@)
            },
            r matches Err(e) ==> exists|i: int, j: int|
                0 <= i < notes@.len() && 0 <= j < notes@.len() && i != j && notes@[i] == e.note
                    && #[trigger] notes@[i].same_note(#[trigger] notes@[j]),
    {
        proof {
            lemma_duplicate_pitch(notes@);
        }
        let mut seen: HashMap<i64, usize> = HashMap::new();
        let mut k: usize = 0;
        while k < notes.len()
            invariant
                k <= notes@.len(),
                distinct_pitches(notes@.subrange(0, k as int)),
                forall|p: i64| #[trigger]
                    seen@.contains_key(p) ==> seen@[p] < k && notes@[seen@[p] as int].pitch() == p,
                forall|i: int|
                    0 <= i < k ==> #[trigger] seen@.contains_key(notes@[i].pitch() as i64),
            decreases notes.len() - k,
        {
            let p = pitch_of(notes[k].octave, notes[k].name);
            match seen.get(&p) {
                Some(j) => {
                    let ghost jj = *j as int;
                    proof {
                        assert(notes@[jj].pitch() == notes@[k as int].pitch());
                        lemma_pitch_identity(notes@[k as int], notes@[jj]);
                        assert(notes@[k as int].same_note(notes@[jj]));
                    }
                    return Err(DuplicateNoteError { note: notes[k] });
                },
                None => {},
            }
            seen.insert(p, k);
            proof {
                let s = notes@.subrange(0, k + 1);
                assert forall|i: int, j: int|
                    0 <= i < s.len() && 0 <= j < s.len() && i != j implies #[trigger] s[i].pitch()
                    != #[trigger] s[j].pitch() by {
                    if i < k && j < k {
                        assert(notes@.subrange(0, k as int)[i] == s[i]);
                        assert(notes@.subrange(0, k as int)[j] == s[j]);
                    } else if i == k {
                        assert(seen@.contains_key(notes@[j].pitch() as i64));
                    } else {
                        assert(seen@.contains_key(notes@[i].pitch() as i64));
                    }
                }
            }
            k += 1;
        }
        assert(notes@.subrange(0, notes@.len() as int) =~= notes@);
        let idx2note = sort_notes(&notes);
        proof {
            lemma_permutation_keeps_distinct(notes@, idx2note@);
            lemma_ordered(notes@, idx2note@);
        }
        let mut note2idx: HashMap<i64, usize> = HashMap::new();
        let mut i: usize = 0;
        while i < idx2note.len()
            invariant
                i <= idx2note@.len(),
                distinct_pitches(idx2note@),
                forall|p: i64| #[trigger]
                    note2idx@.contains_key(p) ==> note2idx@[p] < i && idx2note@[note2idx@[p] as int].pitch()
                        == p,
                forall|j: int|
                    0 <= j < i ==> #[trigger] note2idx@.contains_key(idx2note@[j].pitch() as i64),
            decreases idx2note.len() - i,
        {
            let p = pitch_of(idx2note[i].octave, idx2note[i].name);
            note2idx.insert(p, i);
            i += 1;
        }
        Ok(NoteRegistry { note2idx, idx2note })
    }

    /// All notes, ordered by frequency.
    pub fn notes(&self) -> (r: &Vec<Note>)
        ensures
            r@ == self@,
    {
        &self.idx2note
    }

    /// Position of the note of absolute pitch `p`, if the registry has one.
    fn find_pitch(&self, p: i64) -> (r: Option<usize>)
        requires
            self.wf(),
        ensures
            r matches Some(i) ==> i < self@.len() && self@[i as int].pitch() == p,
            r is None ==> !has_pitch(self@, p as int),
    {
        match self.note2idx.get(&p) {
            Some(i) => Some(*i),
            None => {
                proof {
                    if has_pitch(self@, p as int) {
                        let i = choose|i: int| 0 <= i < self@.len() && #[trigger] self@[i].pitch() == p;
                        assert(self.note2idx@.contains_key(self@[i].pitch() as i64));
                    }
                }
                None
            },
        }
    }

    /// The note of absolute pitch `p`, if the registry has one.
    fn note_at_pitch(&self, p: i64) -> (r: Option<&Note>)
        requires
            self.wf(),
        ensures
            deref_note(r) == note_with_pitch(self@, p as int),
    {
        match self.find_pitch(p) {
            Some(i) => {
                proof {
                    let j = choose|j: int| 0 <= j < self@.len() && #[trigger] self@[j].pitch() == p;
                    assert(self@[i as int].pitch() == self@[j].pitch());
                }
                Some(&self.idx2note[i])
            },
            None => None,
        }
    }

    /// The note with pitch class `note_name` in `octave`, if the registry has it.
    pub fn get(&self, note_name: NoteName, octave: i32) -> (r: Option<&Note>)
        requires
            self.wf(),
        ensures
            deref_note(r) == note_with_pitch(self@, octave * 12 + note_name.pos()),
            r matches Some(n) ==> n.octave == octave && n.name == note_name && self@.contains(*n),
            r is None ==> forall|i: int|
                0 <= i < self@.len() ==> !(#[trigger] self@[i].octave == octave && self@[i].name
                    == note_name),
    {
        let r = self.note_at_pitch(pitch_of(octave, note_name));
        proof {
            let q = Note { octave, name: note_name, frequency: 0 };
            match r {
                Some(n) => {
                    lemma_pitch_identity(*n, q);
                    let i = choose|i: int|
                        0 <= i < self@.len() && #[trigger] self@[i].pitch() == q.pitch();
                    assert(self@[i] == *n);
                },
                None => {
                    assert forall|i: int| 0 <= i < self@.len() implies !(
                    #[trigger] self@[i].octave == octave && self@[i].name == note_name) by {
                        lemma_pitch_identity(self@[i], q);
                    }
                },
            }
        }
        r
    }

    /// The note of the registry `semitones` semitones away from `note`, if the
    /// registry has it.
    pub fn add_semitones(&self, note: &Note, semitones: i32) -> (r: Option<&Note>)
        requires
            self.wf(),
        ensures
            deref_note(r) == note_with_pitch(self@, note.pitch() + semitones),
    {
        let p = pitch_of(note.octave, note.name) + semitones as i64;
        self.note_at_pitch(p)
    }
}

/// A reordering of a list without two notes of one pitch has none either.
proof fn lemma_permutation_keeps_distinct(s: Seq<Note>, t: Seq<Note>)
    requires
        distinct_pitches(s),
        s.to_multiset() == t.to_multiset(),
    ensures
        distinct_pitches(t),
{
    broadcast use vstd::seq_lib::group_to_multiset_ensures;

    assert(s.no_duplicates()) by {
        assert forall|i: int, j: int| 0 <= i < s.len() && 0 <= j < s.len() && i != j implies s[i]
            != s[j] by {
            assert(s[i].pitch() != s[j].pitch());
        }
    }
    s.lemma_multiset_has_no_duplicates();
    t.lemma_multiset_has_no_duplicates_conv();
    assert forall|i: int, j: int|
        0 <= i < t.len() && 0 <= j < t.len() && i != j implies #[trigger] t[i].pitch()
        != #[trigger] t[j].pitch() by {
        assert(t.to_multiset().count(t[i]) > 0);
        assert(t.to_multiset().count(t[j]) > 0);
        assert(s.contains(t[i]));
        assert(s.contains(t[j]));
        let a = choose|a: int| 0 <= a < s.len() && s[a] == t[i];
        let b = choose|b: int| 0 <= b < s.len() && s[b] == t[j];
        assert(a != b);
    }
}

/// A registry does not depend on the order in which its notes are given: two
/// lists holding the same notes are both refused, or both accepted with the
/// same notes in the same order.
pub proof fn lemma_from_notes_order_independent(a: Seq<Note>, b: Seq<Note>)
    requires
        a.to_multiset() == b.to_multiset(),
    ensures
        has_duplicate(a) <==> has_duplicate(b),
        !has_duplicate(a) ==> ordered(a) == ordered(b),
{
    lemma_duplicate_pitch(a);
    lemma_duplicate_pitch(b);
    if distinct_pitches(a) {
        lemma_permutation_keeps_distinct(a, b);
    }
    if distinct_pitches(b) {
        lemma_permutation_keeps_distinct(b, a);
    }
    lemma_ordered_props(a);
    let o = ordered(a);
    lemma_ordered(b, o);
}

} // verus!
