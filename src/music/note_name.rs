use vstd::prelude::*;

verus! {

/// One of the twelve pitch classes of the chromatic scale.
#[derive(Clone, Copy, Debug, PartialEq, Eq, Structural, Hash, PartialOrd, Ord)]
pub enum NoteName {
    A,
    ASharp,
    B,
    C,
    CSharp,
    D,
    DSharp,
    E,
    F,
    FSharp,
    G,
    GSharp,
}

impl NoteName {
    /// Position of the pitch class inside an octave, counted from C.
    pub open spec fn pos(self) -> int {
        match self {
            NoteName::C => 0,
            NoteName::CSharp => 1,
            NoteName::D => 2,
            NoteName::DSharp => 3,
            NoteName::E => 4,
            NoteName::F => 5,
            NoteName::FSharp => 6,
            NoteName::G => 7,
            NoteName::GSharp => 8,
            NoteName::A => 9,
            NoteName::ASharp => 10,
            NoteName::B => 11,
        }
    }

    /// The pitch class at position `p` (counted from C) of an octave.
    pub open spec fn at_pos(p: int) -> NoteName {
        if p == 0 {
            NoteName::C
        } else if p == 1 {
            NoteName::CSharp
        } else if p == 2 {
            NoteName::D
        } else if p == 3 {
            NoteName::DSharp
        } else if p == 4 {
            NoteName::E
        } else if p == 5 {
            NoteName::F
        } else if p == 6 {
            NoteName::FSharp
        } else if p == 7 {
            NoteName::G
        } else if p == 8 {
            NoteName::GSharp
        } else if p == 9 {
            NoteName::A
        } else if p == 10 {
            NoteName::ASharp
        } else {
            NoteName::B
        }
    }
}

/// Positions and pitch classes correspond one to one.
pub proof fn lemma_pos_bijective()
    ensures
        forall|n: NoteName| 0 <= #[trigger] n.pos() < 12,
        forall|n: NoteName| #[trigger] NoteName::at_pos(n.pos()) == n,
        forall|p: int| 0 <= p < 12 ==> #[trigger] NoteName::at_pos(p).pos() == p,
{
}

/// Position of `name` inside an octave, counted from C.
pub fn pos_in_octave(name: NoteName) -> (r: usize)
    ensures
        r < 12,
        r == name.pos(),
{
    match name {
        NoteName::C => 0,
        NoteName::CSharp => 1,
        NoteName::D => 2,
        NoteName::DSharp => 3,
        NoteName::E => 4,
        NoteName::F => 5,
        NoteName::FSharp => 6,
        NoteName::G => 7,
        NoteName::GSharp => 8,
        NoteName::A => 9,
        NoteName::ASharp => 10,
        NoteName::B => 11,
    }
}

/// The pitch class at position `pos` (counted from C) of an octave.
pub fn name_in_octave(pos: usize) -> (r: NoteName)
    requires
        pos < 12,
    ensures
        r == NoteName::at_pos(pos as int),
        r.pos() == pos,
{
    match pos {
        0 => NoteName::C,
        1 => NoteName::CSharp,
        2 => NoteName::D,
        3 => NoteName::DSharp,
        4 => NoteName::E,
        5 => NoteName::F,
        6 => NoteName::FSharp,
        7 => NoteName::G,
        8 => NoteName::GSharp,
        9 => NoteName::A,
        10 => NoteName::ASharp,
        _ => NoteName::B,
    }
}

} // verus!
