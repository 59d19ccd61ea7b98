use vstd::prelude::*;
use vstd::arithmetic::div_mod::lemma_fundamental_div_mod_converse;
use crate::music::fretboard::{FretLoc, FretRange, StringRange};
use crate::music::note::Note;
use crate::music::note_registry::{deref_note, note_with_pitch, NoteRegistry};
use crate::music::tuning::Tuning;

verus! {

/// The note sounded at `loc`: the open-string note of its string raised by
/// its fret number, if the tuning has the string and the registry the note.
pub open spec fn note_at(reg: Seq<Note>, tuning: Seq<Note>, loc: FretLoc) -> Option<Note> {
    if 1 <= loc.string_idx <= tuning.len() {
        note_with_pitch(reg, tuning[loc.string_idx - 1].pitch() + loc.fret_idx)
    } else {
        None
    }
}

/// `loc` lies in the rectangle of the two ranges.
pub open spec fn in_rect(sr: StringRange, fr: FretRange, loc: FretLoc) -> bool {
    sr.start() <= loc.string_idx < sr.end() && fr.start() <= loc.fret_idx < fr.end()
}

/// The `j`-th place of the rectangle, string by string and, on a string, fret
/// by fret.
pub open spec fn rect_loc(sr: StringRange, fr: FretRange, j: int) -> FretLoc {
    let nf = fr.end() - fr.start();
    FretLoc { string_idx: (sr.start() + j / nf) as usize, fret_idx: (fr.start() + j % nf) as usize }
}

/// Number of places in the rectangle.
pub open spec fn rect_size(sr: StringRange, fr: FretRange) -> int {
    (sr.end() - sr.start()) * (fr.end() - fr.start())
}

proof fn lemma_rect_index(sr: StringRange, fr: FretRange, loc: FretLoc)
    requires
        sr.start() < sr.end(),
        fr.start() < fr.end(),
        in_rect(sr, fr, loc),
    ensures
        ({
            let j = (loc.string_idx - sr.start()) * (fr.end() - fr.start()) + (loc.fret_idx
                - fr.start());
            0 <= j < rect_size(sr, fr) && rect_loc(sr, fr, j) == loc
        }),
{
    let nf = fr.end() - fr.start();
    let a = loc.string_idx - sr.start();
    let b = loc.fret_idx - fr.start();
    let ns = sr.end() - sr.start();
    let j = a * nf + b;
    assert(0 <= j < ns * nf) by (nonlinear_arith)
        requires
            0 <= a < ns,
            0 <= b < nf,
            j == a * nf + b,
    ;
    lemma_fundamental_div_mod_converse(j, nf, a, b);
}

proof fn lemma_rect_loc_in(sr: StringRange, fr: FretRange, j: int)
    requires
        sr.start() < sr.end(),
        fr.start() < fr.end(),
        0 <= j < rect_size(sr, fr),
    ensures
        in_rect(sr, fr, rect_loc(sr, fr, j)),
{
    let nf = fr.end() - fr.start();
    let ns = sr.end() - sr.start();
    assert(0 <= j / nf < ns) by (nonlinear_arith)
        requires
            0 <= j < ns * nf,
            nf > 0,
    ;
    assert(0 <= j % nf < nf) by (nonlinear_arith)
        requires
            nf > 0,
    ;
}

/// The places of the rectangle of `string_range` and `fret_range`, string by
/// string and, on a string, fret by fret.
pub fn active_locations(string_range: &StringRange, fret_range: &FretRange) -> (r: Vec<FretLoc>)
    requires
        rect_size(*string_range, *fret_range) <= usize::MAX,
    ensures
        r@.len() == rect_size(*string_range, *fret_range),
        forall|j: int| 0 <= j < r@.len() ==> #[trigger] r@[j] == rect_loc(*string_range, *fret_range, j),
{
    let sr = string_range.r();
    let fr = fret_range.r();
    let ghost nf = fr.end - fr.start;
    let mut out: Vec<FretLoc> = Vec::new();
    let mut string_idx = sr.start;
    while string_idx < sr.end
        invariant
            sr.start <= string_idx <= sr.end,
            sr.start == string_range.start(),
            sr.end == string_range.end(),
            fr.start == fret_range.start(),
            fr.end == fret_range.end(),
            fr.start < fr.end,
            nf == fr.end - fr.start,
            out@.len() == (string_idx - sr.start) * nf,
            forall|j: int| 0 <= j < out@.len() ==> #[trigger] out@[j] == rect_loc(*string_range, *fret_range, j),
        decreases sr.end - string_idx,
    {
        let mut fret_idx = fr.start;
        while fret_idx < fr.end
            invariant
                sr.start <= string_idx < sr.end,
                fr.start <= fret_idx <= fr.end,
                sr.start == string_range.start(),
                sr.end == string_range.end(),
                fr.start == fret_range.start(),
                fr.end == fret_range.end(),
                nf == fr.end - fr.start,
                out@.len() == (string_idx - sr.start) * nf + (fret_idx - fr.start),
                forall|j: int| 0 <= j < out@.len() ==> #[trigger] out@[j] == rect_loc(*string_range, *fret_range, j),
            decreases fr.end - fret_idx,
        {
            proof {
                lemma_fundamental_div_mod_converse(
                    out@.len() as int,
                    nf,
                    string_idx - sr.start,
                    fret_idx - fr.start,
                );
            }
            out.push(FretLoc { string_idx, fret_idx });
            fret_idx += 1;
        }
        proof {
            assert((string_idx - sr.start) * nf + nf == (string_idx + 1 - sr.start) * nf) by (nonlinear_arith);
        }
        string_idx += 1;
    }
    out
}

/// Each place of `locs` with the note sounded there.
pub fn locs2notes(locs: &Vec<FretLoc>, tuning: &Tuning, registry: &NoteRegistry) -> (r: Vec<
    (FretLoc, Option<Note>),
>)
    requires
        registry.wf(),
        forall|j: int| 0 <= j < locs@.len() ==> #[trigger] locs@[j].fret_idx <= i32::MAX,
    ensures
        r@.len() == locs@.len(),
        forall|j: int|
            0 <= j < r@.len() ==> #[trigger] r@[j] == (locs@[j], note_at(registry@, tuning@, locs@[j])),
{
    let mut out: Vec<(FretLoc, Option<Note>)> = Vec::new();
    let mut i: usize = 0;
    while i < locs.len()
        invariant
            i <= locs@.len(),
            registry.wf(),
            forall|j: int| 0 <= j < locs@.len() ==> #[trigger] locs@[j].fret_idx <= i32::MAX,
            out@.len() == i,
            forall|j: int|
                0 <= j < i ==> #[trigger] out@[j] == (locs@[j], note_at(registry@, tuning@, locs@[j])),
        decreases locs@.len() - i,
    {
        let loc = locs[i];
        let note = match tuning.get(loc.string_idx) {
            Some(open_string_note) => {
                let found = registry.add_semitones(open_string_note, loc.fret_idx as i32);
                match found {
                    Some(n) => Some(*n),
                    None => None,
                }
            },
            None => None,
        };
        out.push((loc, note));
        i += 1;
    }
    out
}

/// The note at each place of a rectangle of the fretboard.
pub struct ActiveNotes {
    string_range: StringRange,
    fret_range: FretRange,
    notes: Vec<Option<Note>>,
}

impl ActiveNotes {
    /// The cells hold the rectangle, string by string.
    pub closed spec fn wf(&self) -> bool {
        self.notes@.len() == rect_size(self.string_range, self.fret_range)
            && rect_size(self.string_range, self.fret_range) <= usize::MAX
            && self.string_range.start() < self.string_range.end()
            && self.fret_range.start() < self.fret_range.end()
    }

    pub closed spec fn spec_string_range(&self) -> StringRange {
        self.string_range
    }

    pub closed spec fn spec_fret_range(&self) -> FretRange {
        self.fret_range
    }

    /// The note at `loc`: None outside the rectangle or where no note sounds.
    pub closed spec fn spec_get(&self, loc: FretLoc) -> Option<Note> {
        if in_rect(self.string_range, self.fret_range, loc) {
            self.notes@[(loc.string_idx - self.string_range.start()) * (self.fret_range.end()
                - self.fret_range.start()) + (loc.fret_idx - self.fret_range.start())]
        } else {
            None
        }
    }

    /// The notes of the rectangle of `string_range` and `fret_range`: at each
    /// place, the open-string note transposed by the fret number, where the
    /// tuning has the string and the registry the transposed note.
    pub fn new(
        registry: &NoteRegistry,
        tuning: &Tuning,
        string_range: StringRange,
        fret_range: FretRange,
    ) -> (r: ActiveNotes)
        requires
            registry.wf(),
            rect_size(string_range, fret_range) <= usize::MAX,
            fret_range.end() <= i32::MAX + 1,
        ensures
            r.wf(),
            r.spec_string_range() == string_range,
            r.spec_fret_range() == fret_range,
            forall|loc: FretLoc| #[trigger]
                r.spec_get(loc) == if in_rect(string_range, fret_range, loc) {
                    note_at(registry@, tuning@, loc)
                } else {
                    None
                },
    {
        let sr = string_range.r();
        let fr = fret_range.r();
        let active_locs = active_locations(&string_range, &fret_range);
        proof {
            assert forall|j: int| 0 <= j < active_locs@.len() implies #[trigger] active_locs@[j].fret_idx
                <= i32::MAX by {
                lemma_rect_loc_in(string_range, fret_range, j);
            }
        }
        let locs_and_notes = locs2notes(&active_locs, tuning, registry);
        let mut notes: Vec<Option<Note>> = Vec::new();
        let mut i: usize = 0;
        while i < locs_and_notes.len()
            invariant
                i <= locs_and_notes@.len(),
                locs_and_notes@.len() == active_locs@.len(),
                notes@.len() == i,
                forall|j: int| 0 <= j < i ==> #[trigger] notes@[j] == locs_and_notes@[j].1,
            decreases locs_and_notes@.len() - i,
        {
            notes.push(locs_and_notes[i].1);
            i += 1;
        }
        let r = ActiveNotes { string_range, fret_range, notes };
        proof {
            assert forall|loc: FretLoc| #[trigger]
                r.spec_get(loc) == if in_rect(string_range, fret_range, loc) {
                    note_at(registry@, tuning@, loc)
                } else {
                    None
                } by {
                if in_rect(string_range, fret_range, loc) {
                    lemma_rect_index(string_range, fret_range, loc);
                }
            }
        }
        r
    }

    /// The note at `loc`, if it lies in the rectangle and a note sounds there.
    pub fn get(&self, loc: &FretLoc) -> (r: Option<&Note>)
        requires
            self.wf(),
        ensures
            deref_note(r) == self.spec_get(*loc),
    {
        let sr = self.string_range.r();
        let fr = self.fret_range.r();
        if sr.start <= loc.string_idx && loc.string_idx < sr.end && fr.start <= loc.fret_idx
            && loc.fret_idx < fr.end {
            proof {
                lemma_rect_index(self.string_range, self.fret_range, *loc);
                let a = loc.string_idx - sr.start;
                let nf = fr.end - fr.start;
                assert(a * nf <= a * nf + (loc.fret_idx - fr.start));
            }
            let idx = (loc.string_idx - sr.start) * (fr.end - fr.start) + (loc.fret_idx - fr.start);
            self.notes[idx].as_ref()
        } else {
            None
        }
    }

    /// The strings of the rectangle.
    pub fn string_range(&self) -> (r: &StringRange)
        ensures
            *r == self.spec_string_range(),
    {
        &self.string_range
    }

    /// The frets of the rectangle.
    pub fn fret_range(&self) -> (r: &FretRange)
        ensures
            *r == self.spec_fret_range(),
    {
        &self.fret_range
    }
}

} // verus!
