use vstd::prelude::*;
use crate::sorting::{lemma_sorted_by_unique, sort_by_le};
use super::note::Note;
use super::note_name::{lemma_pos_bijective, pos_in_octave};

verus! {

/// The order in which notes are kept: by frequency, then octave, then pitch
/// class. It is total and, as it reads every field, antisymmetric on values.
pub open spec fn note_le(a: Note, b: Note) -> bool {
    a.frequency < b.frequency || (a.frequency == b.frequency && (a.octave < b.octave || (
    a.octave == b.octave && a.name.pos() <= b.name.pos())))
}

/// The notes of `s` ordered by `note_le`.
pub open spec fn ordered(s: Seq<Note>) -> Seq<Note> {
    s.sort_by(|a: Note, b: Note| note_le(a, b))
}

/// `s` is ordered by `note_le`.
pub open spec fn sorted_notes(s: Seq<Note>) -> bool {
    forall|i: int, j: int| 0 <= i < j < s.len() ==> #[trigger] note_le(s[i], s[j])
}

pub fn note_le_exec(a: &Note, b: &Note) -> (r: bool)
    ensures
        r == note_le(*a, *b),
{
    if a.frequency != b.frequency {
        a.frequency < b.frequency
    } else if a.octave != b.octave {
        a.octave < b.octave
    } else {
        pos_in_octave(a.name) <= pos_in_octave(b.name)
    }
}

proof fn lemma_note_le_antisymmetric(a: Note, b: Note)
    requires
        note_le(a, b),
        note_le(b, a),
    ensures
        a == b,
{
    lemma_pos_bijective();
    assert(a.name == b.name);
}

proof fn lemma_note_le_total()
    ensures
        vstd::relations::total_ordering(|a: Note, b: Note| note_le(a, b)),
{
    lemma_pos_bijective();
    let leq = |a: Note, b: Note| note_le(a, b);
    assert forall|a: Note, b: Note| #[trigger] leq(a, b) && #[trigger] leq(b, a) implies a == b by {
        lemma_note_le_antisymmetric(a, b);
    }
}

/// `ordered(s)` is ordered by `note_le` and holds the notes of `s`.
pub proof fn lemma_ordered_props(s: Seq<Note>)
    ensures
        sorted_notes(ordered(s)),
        ordered(s).to_multiset() == s.to_multiset(),
{
    let leq = |a: Note, b: Note| note_le(a, b);
    lemma_note_le_total();
    s.lemma_sort_by_ensures(leq);
    let o = ordered(s);
    assert forall|i: int, j: int| 0 <= i < j < o.len() implies #[trigger] note_le(o[i], o[j]) by {
        assert(leq(o[i], o[j]));
    }
}

/// `ordered(s)` is the one sequence ordered by `note_le` with the notes of `s`.
pub proof fn lemma_ordered(s: Seq<Note>, t: Seq<Note>)
    requires
        sorted_notes(t),
        t.to_multiset() == s.to_multiset(),
    ensures
        ordered(s) == t,
{
    let leq = |a: Note, b: Note| note_le(a, b);
    lemma_ordered_props(s);
    lemma_note_le_total();
    s.lemma_sort_by_ensures(leq);
    assert forall|i: int, j: int| 0 <= i < j < t.len() implies #[trigger] leq(t[i], t[j]) by {
        assert(note_le(t[i], t[j]));
    }
    lemma_sorted_by_unique(ordered(s), t, leq);
}

/// The notes of `v`, ordered by `note_le`.
pub fn sort_notes(v: &Vec<Note>) -> (r: Vec<Note>)
    ensures
        sorted_notes(r@),
        r@.to_multiset() == v@.to_multiset(),
{
    let ghost leq = |a: Note, b: Note| note_le(a, b);
    proof {
        lemma_note_le_total();
    }
    let cmp = |a: &Note, b: &Note| -> (o: bool)
        ensures
            o == note_le(*a, *b),
        {
            note_le_exec(a, b)
        };
    let r = sort_by_le(v, cmp, Ghost(leq));
    assert forall|i: int, j: int| 0 <= i < j < r@.len() implies #[trigger] note_le(r@[i], r@[j]) by {
        assert(leq(r@[i], r@[j]));
    }
    r
}

} // verus!
