use vstd::prelude::*;
use vstd::arithmetic::div_mod::lemma_fundamental_div_mod_converse;
use vstd::std_specs::cmp::PartialEqSpec;
use super::note_name::{lemma_pos_bijective, name_in_octave, pos_in_octave, NoteName};

verus! {

/// A pitch class in a given octave, with its reference frequency.
///
/// The frequency is given in millihertz. It is descriptive only: two notes
/// are the same note when octave and pitch class agree.
#[derive(Clone, Copy, Debug)]
pub struct Note {
    pub octave: i32,
    pub name: NoteName,
    pub frequency: u64,
}

impl Note {
    /// Absolute pitch in semitones above C of octave 0.
    pub open spec fn pitch(self) -> int {
        self.octave * 12 + self.name.pos()
    }

    /// Identity of a note: octave and pitch class, never the frequency.
    pub open spec fn same_note(self, other: Note) -> bool {
        self.octave == other.octave && self.name == other.name
    }

    /// The octave and pitch class of a transposition by `n` semitones.
    pub open spec fn transposed_octave(self, n: int) -> int {
        (self.pitch() + n) / 12
    }

    pub open spec fn transposed_name(self, n: int) -> NoteName {
        NoteName::at_pos((self.pitch() + n) % 12)
    }

    /// Whether the octave of the transposition by `n` fits in an `i32`.
    pub open spec fn can_transpose(self, n: int) -> bool {
        i32::MIN <= self.transposed_octave(n) <= i32::MAX
    }

    /// The note `semitones` semitones above (or below, if negative) this one.
    ///
    /// The octave carries over as a floor division; the frequency of the result
    /// is unknown and set to zero.
    pub fn add_semitone(&self, semitones: i32) -> (r: Note)
        requires
            self.can_transpose(semitones as int),
        ensures
            r.octave == self.transposed_octave(semitones as int),
            r.name == self.transposed_name(semitones as int),
            r.pitch() == self.pitch() + semitones,
            r.frequency == 0,
    {
        let p: i64 = self.octave as i64 * 12 + pos_in_octave(self.name) as i64 + semitones as i64;
        let (q, rem) = floor_div_12(p);
        let name = name_in_octave(rem);
        proof {
            lemma_pos_bijective();
        }
        Note { octave: q as i32, name, frequency: 0 }
    }
}

/// Floor division and remainder of `x` by twelve.
fn floor_div_12(x: i64) -> (r: (i64, usize))
    ensures
        r.0 == x / 12,
        r.1 == x % 12,
        r.1 < 12,
{
    if x >= 0 {
        let u: u64 = x as u64;
        let q: u64 = u / 12;
        let m: u64 = u % 12;
        (q as i64, m as usize)
    } else {
        let u: u64 = (-(x + 1)) as u64;
        let q: u64 = u / 12;
        let m: u64 = u % 12;
        let rq: i64 = -(q as i64) - 1;
        let rm: usize = 11 - m as usize;
        proof {
            assert(x == 12 * rq + rm);
            lemma_fundamental_div_mod_converse(x as int, 12, rq as int, rm as int);
        }
        (rq, rm)
    }
}

impl PartialEq for Note {
    /// Notes are equal when octave and pitch class agree, whatever their frequency.
    fn eq(&self, other: &Note) -> (r: bool)
        ensures
            r == self.same_note(*other),
    {
        self.octave == other.octave && self.name == other.name
    }
}

impl vstd::std_specs::cmp::PartialEqSpecImpl for Note {
    open spec fn obeys_eq_spec() -> bool {
        true
    }

    open spec fn eq_spec(&self, other: &Note) -> bool {
        self.same_note(*other)
    }
}

impl Eq for Note {
}

/// Octave and pitch class are fixed by the absolute pitch, and the other way round.
pub proof fn lemma_pitch_identity(a: Note, b: Note)
    ensures
        a.same_note(b) <==> a.pitch() == b.pitch(),
{
    lemma_pos_bijective();
    if a.pitch() == b.pitch() {
        lemma_fundamental_div_mod_converse(a.pitch(), 12, a.octave as int, a.name.pos());
        lemma_fundamental_div_mod_converse(b.pitch(), 12, b.octave as int, b.name.pos());
    }
}

/// Two notes are equal as values of `==` exactly when octave and pitch class
/// agree, irrespective of frequency.
pub proof fn lemma_note_eq(a: Note, b: Note)
    ensures
        a.eq_spec(&b) <==> (a.octave, a.name) == (b.octave, b.name),
        a.eq_spec(&b) <==> a.pitch() == b.pitch(),
{
    lemma_pitch_identity(a, b);
}

/// Transposing by `n` then by `-n` gives back the same octave and pitch class.
pub proof fn lemma_transpose_inverse(a: Note, n: int, b: Note)
    requires
        a.can_transpose(n),
        b.octave == a.transposed_octave(n),
        b.name == a.transposed_name(n),
    ensures
        b.can_transpose(-n),
        b.transposed_octave(-n) == a.octave,
        b.transposed_name(-n) == a.name,
{
    lemma_pos_bijective();
    let p = a.pitch() + n;
    lemma_fundamental_div_mod_converse(p, 12, p / 12, p % 12);
    assert(b.pitch() == p);
    lemma_fundamental_div_mod_converse(a.pitch(), 12, a.octave as int, a.name.pos());
}

/// Transposing by twelve semitones raises the octave by one and keeps the
/// pitch class.
pub proof fn lemma_transpose_octave(a: Note)
    ensures
        a.transposed_octave(12) == a.octave + 1,
        a.transposed_name(12) == a.name,
{
    lemma_pos_bijective();
    lemma_fundamental_div_mod_converse(a.pitch() + 12, 12, a.octave + 1, a.name.pos());
}

} // verus!
