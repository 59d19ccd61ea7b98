use vstd::prelude::*;
use super::note::Note;
use super::note_name::NoteName;
use super::note_registry::{deref_note, has_pitch, note_with_pitch, NoteRegistry};

verus! {

/// One row of a tuning: string number (from 1) and the note of the open string.
#[derive(Clone, Copy, Debug, PartialEq, Eq, Structural)]
pub struct TuningSpecification {
    pub string: usize,
    pub octave: i32,
    pub name: NoteName,
}

impl TuningSpecification {
    /// Absolute pitch of the open-string note of this row.
    pub open spec fn pitch(self) -> int {
        self.octave * 12 + self.name.pos()
    }
}

/// What is wrong with a tuning specification.
#[derive(Clone, Copy, Debug, PartialEq, Eq, Structural)]
pub enum TuningFault {
    /// The strings are not numbered 1, 2, 3, ... in order.
    StringNumbering,
    /// The row names a note that the registry does not hold.
    UnknownNote,
}

/// Error of a tuning specification, with the first row at fault.
#[derive(Clone, Copy, Debug)]
pub struct InvalidTuningError {
    pub row: usize,
    pub fault: TuningFault,
}

/// Row `i` of `spec` is numbered right and names a note of `reg`.
pub open spec fn row_ok(reg: Seq<Note>, spec: Seq<TuningSpecification>, i: int) -> bool {
    spec[i].string == i + 1 && has_pitch(reg, spec[i].pitch())
}

/// The open-string note of each string, in string order (string 1 first).
#[derive(Clone, Debug)]
pub struct Tuning {
    values: Vec<Note>,
}

impl View for Tuning {
    type V = Seq<Note>;

    closed spec fn view(&self) -> Seq<Note> {
        self.values@
    }
}

impl Tuning {
    /// Builds a tuning from rows numbered 1, 2, 3, ..., taking each open-string
    /// note from the registry.
    pub fn from_specification(
        tuning_spec: &[TuningSpecification],
        note_registry: &NoteRegistry,
    ) -> (r: Result<Tuning, InvalidTuningError>)
        requires
            note_registry.wf(),
        ensures
            r is Ok <==> forall|i: int|
                0 <= i < tuning_spec@.len() ==> row_ok(note_registry@, tuning_spec@, i),
            r matches Ok(t) ==> {
                &&& t@.len() == tuning_spec@.len()
                &&& forall|i: int|
                    0 <= i < t@.len() ==> Some(#[trigger] t@[i]) == note_with_pitch(
                        note_registry@,
                        tuning_spec@[i].pitch(),
                    )
            },
            r matches Err(e) ==> {
                &&& e.row < tuning_spec@.len()
                &&& forall|i: int| 0 <= i < e.row ==> row_ok(note_registry@, tuning_spec@, i)
                &&& !row_ok(note_registry@, tuning_spec@, e.row as int)
                &&& (e.fault == TuningFault::StringNumbering) == (tuning_spec@[e.row as int].string
                    != e.row + 1)
            },
    {
        let mut values: Vec<Note> = Vec::new();
        let mut i: usize = 0;
        while i < tuning_spec.len()
            invariant
                i <= tuning_spec@.len(),
                note_registry.wf(),
                values@.len() == i,
                forall|j: int| 0 <= j < i ==> row_ok(note_registry@, tuning_spec@, j),
                forall|j: int|
                    0 <= j < i ==> Some(#[trigger] values@[j]) == note_with_pitch(
                        note_registry@,
                        tuning_spec@[j].pitch(),
                    ),
            decreases tuning_spec@.len() - i,
        {
            let row = tuning_spec[i];
            if row.string != i + 1 {
                assert(!row_ok(note_registry@, tuning_spec@, i as int));
                return Err(InvalidTuningError { row: i, fault: TuningFault::StringNumbering });
            }
            let found = note_registry.get(row.name, row.octave);
            match found {
                Some(note) => {
                    values.push(*note);
                },
                None => {
                    assert(deref_note(found) is None);
                    assert(!row_ok(note_registry@, tuning_spec@, i as int));
                    return Err(InvalidTuningError { row: i, fault: TuningFault::UnknownNote });
                },
            }
            i += 1;
        }
        Ok(Tuning { values })
    }

    /// Number of strings.
    pub fn len(&self) -> (r: usize)
        ensures
            r == self@.len(),
    {
        self.values.len()
    }

    /// The open-string note of string `string_idx` (numbered from 1).
    pub fn note(&self, string_idx: usize) -> (r: &Note)
        requires
            1 <= string_idx <= self@.len(),
        ensures
            *r == self@[string_idx - 1],
    {
        &self.values[string_idx - 1]
    }

    /// The open-string note of string `string_idx` (numbered from 1), if the
    /// tuning has that string.
    pub fn get(&self, string_idx: usize) -> (r: Option<&Note>)
        ensures
            deref_note(r) == (if 1 <= string_idx <= self@.len() {
                Some(self@[string_idx - 1])
            } else {
                None
            }),
    {
        if 1 <= string_idx && string_idx <= self.values.len() {
            Some(&self.values[string_idx - 1])
        } else {
            None
        }
    }

    /// The open-string notes, string 1 first.
    pub fn iter(&self) -> (r: std::slice::Iter<'_, Note>)
        ensures
            vstd::std_specs::iter::IteratorSpec::remaining(&r) == self@.as_ref(),
    {
        broadcast use vstd::std_specs::slice::axiom_spec_slice_iter;

        self.values.as_slice().iter()
    }
}

} // verus!
