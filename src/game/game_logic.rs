use vstd::prelude::*;
use crate::audio_analysis::analysis_result::AnalysisResult;
use crate::cfg::GameCfg;
use crate::game::active_notes::{in_rect, note_at, ActiveNotes};
use crate::game::game_state::GameState;
use crate::music::fretboard::{FretLoc, FretRange, StringRange};
use crate::music::note::Note;
use crate::music::note_registry::NoteRegistry;
use crate::music::tuning::Tuning;

verus! {

/// Why the game refused a request.
#[derive(Clone, Copy, Debug, PartialEq, Eq, Structural)]
pub enum GameErrorKind {
    /// The game settings describe no usable rectangle or counts.
    InvalidConfiguration,
    /// The game has not been started.
    NotRunning,
    /// No note sounds at the drawn place of the rectangle.
    NoNoteAtLocation,
}

/// Error of the practice game.
#[derive(Clone, Copy, Debug)]
pub struct GameError {
    pub kind: GameErrorKind,
}

/// Settings the game can run with: non-empty ranges, strings numbered from 1,
/// frets that are semitone offsets, a rectangle whose size fits in memory, and
/// positive counts.
pub open spec fn cfg_ok(c: GameCfg) -> bool {
    &&& c.fret_range.0 < c.fret_range.1
    &&& c.fret_range.1 <= i32::MAX + 1
    &&& 1 <= c.string_range.0 < c.string_range.1
    &&& (c.string_range.1 - c.string_range.0) * (c.fret_range.1 - c.fret_range.0) <= usize::MAX
    &&& c.note_count_for_acceptance > 0
    &&& c.state_update_period > 0
}

/// The state after a recognised note: the count goes up by one exactly when
/// the note is the target (same octave and pitch class).
pub open spec fn counted(st: GameState, analysis: AnalysisResult) -> GameState {
    let hit = match analysis.note {
        Some(n) => n.same_note(st.target_note),
        None => false,
    };
    GameState {
        curr_detection_count: if hit {
            (st.curr_detection_count + 1) as usize
        } else {
            st.curr_detection_count
        },
        ..st
    }
}

/// What the driver of the game does after a recognised note.
#[derive(Clone, Copy, Debug)]
pub struct GameStep {
    /// A state to send to every observer, if one is due.
    pub broadcast: Option<GameState>,
    /// The target was heard often enough: a new target is to be drawn.
    pub target_reached: bool,
}

/// The practice game as a state machine. It starts idle; once started, the
/// driver draws a place, asks for it as the target, and feeds the recognised
/// notes until the target is reached.
pub struct GameLogic {
    fret_range: FretRange,
    string_range: StringRange,
    active_notes: ActiveNotes,
    needed_detection_count: usize,
    state_update_period: usize,
    running: bool,
    state: Option<GameState>,
}

impl GameLogic {
    pub closed spec fn spec_running(&self) -> bool {
        self.running
    }

    /// The round under way, if any.
    pub closed spec fn spec_state(&self) -> Option<GameState> {
        self.state
    }

    pub closed spec fn spec_active_notes(&self) -> ActiveNotes {
        self.active_notes
    }

    pub closed spec fn spec_fret_range(&self) -> FretRange {
        self.fret_range
    }

    pub closed spec fn spec_string_range(&self) -> StringRange {
        self.string_range
    }

    pub closed spec fn spec_needed(&self) -> usize {
        self.needed_detection_count
    }

    pub closed spec fn spec_period(&self) -> usize {
        self.state_update_period
    }

    /// Internal consistency: the notes cover the ranges, counts are positive,
    /// and a round under way has not reached its target.
    pub closed spec fn wf(&self) -> bool {
        &&& self.active_notes.wf()
        &&& self.active_notes.spec_string_range() == self.string_range
        &&& self.active_notes.spec_fret_range() == self.fret_range
        &&& self.needed_detection_count > 0
        &&& self.state_update_period > 0
        &&& self.state matches Some(st) ==> st.curr_detection_count < self.needed_detection_count
            && st.needed_detection_count == self.needed_detection_count
    }

    /// An idle game over the rectangle of `config`, or an error when the
    /// settings are not usable.
    pub fn new(note_registry: &NoteRegistry, tuning: &Tuning, config: &GameCfg) -> (r: Result<
        GameLogic,
        GameError,
    >)
        requires
            note_registry.wf(),
        ensures
            r is Ok <==> cfg_ok(*config),
            r matches Err(e) ==> e.kind == GameErrorKind::InvalidConfiguration,
            r matches Ok(g) ==> {
                &&& g.wf()
                &&& !g.spec_running()
                &&& g.spec_state() is None
                &&& g.spec_needed() == config.note_count_for_acceptance
                &&& g.spec_period() == config.state_update_period
                &&& g.spec_active_notes().spec_string_range().start() == config.string_range.0
                &&& g.spec_active_notes().spec_string_range().end() == config.string_range.1
                &&& g.spec_active_notes().spec_fret_range().start() == config.fret_range.0
                &&& g.spec_active_notes().spec_fret_range().end() == config.fret_range.1
                &&& forall|loc: FretLoc| #[trigger]
                    g.spec_active_notes().spec_get(loc) == if in_rect(
                        g.spec_active_notes().spec_string_range(),
                        g.spec_active_notes().spec_fret_range(),
                        loc,
                    ) {
                        note_at(note_registry@, tuning@, loc)
                    } else {
                        None
                    }
            },
    {
        let (fb, fe) = config.fret_range;
        let (sb, se) = config.string_range;
        if !(fb < fe && fe <= 0x8000_0000 && 1 <= sb && sb < se && config.note_count_for_acceptance
            > 0 && config.state_update_period > 0) {
            return Err(GameError { kind: GameErrorKind::InvalidConfiguration });
        }
        let ns: u128 = (se - sb) as u128;
        let nf: u128 = (fe - fb) as u128;
        assert(ns * nf <= 0xffff_ffff_ffff_ffffu128 * 0xffff_ffff_ffff_ffffu128) by (nonlinear_arith)
            requires
                ns <= 0xffff_ffff_ffff_ffffu128,
                nf <= 0xffff_ffff_ffff_ffffu128,
        ;
        if ns * nf > usize::MAX as u128 {
            return Err(GameError { kind: GameErrorKind::InvalidConfiguration });
        }
        let fret_range = FretRange::new(fb, fe);
        let string_range = StringRange::new(sb, se);
        let active_notes = ActiveNotes::new(note_registry, tuning, string_range, fret_range);
        Ok(
            GameLogic {
                fret_range,
                string_range,
                active_notes,
                needed_detection_count: config.note_count_for_acceptance,
                state_update_period: config.state_update_period,
                running: false,
                state: None,
            },
        )
    }

    /// The frets of the game.
    pub fn fret_range(&self) -> (r: &FretRange)
        ensures
            *r == self.spec_fret_range(),
    {
        &self.fret_range
    }

    /// The strings of the game.
    pub fn string_range(&self) -> (r: &StringRange)
        ensures
            *r == self.spec_string_range(),
    {
        &self.string_range
    }

    /// The notes of the game's rectangle.
    pub fn active_notes(&self) -> (r: &ActiveNotes)
        ensures
            *r == self.spec_active_notes(),
    {
        &self.active_notes
    }

    /// Whether the game has been started.
    pub fn is_running(&self) -> (r: bool)
        ensures
            r == self.spec_running(),
    {
        self.running
    }

    /// Starts the game; starting a running game changes nothing.
    pub fn play(&mut self) -> (r: Result<(), GameError>)
        requires
            old(self).wf(),
        ensures
            r is Ok,
            final(self).wf(),
            final(self).spec_running(),
            final(self).spec_state() == old(self).spec_state(),
            final(self).spec_active_notes() == old(self).spec_active_notes(),
            final(self).spec_needed() == old(self).spec_needed(),
            final(self).spec_period() == old(self).spec_period(),
    {
        self.running = true;
        Ok(())
    }

    /// Starts a round with the note at the drawn place as the target, and
    /// returns the state to send to the observers.
    ///
    /// Fails when the game is not running, or when no note sounds at the place.
    pub fn next_target(&mut self, string_idx: usize, fret_idx: usize) -> (r: Result<
        GameState,
        GameError,
    >)
        requires
            old(self).wf(),
        ensures
            final(self).wf(),
            final(self).spec_running() == old(self).spec_running(),
            final(self).spec_active_notes() == old(self).spec_active_notes(),
            final(self).spec_needed() == old(self).spec_needed(),
            final(self).spec_period() == old(self).spec_period(),
            !old(self).spec_running() ==> (r matches Err(e) && e.kind == GameErrorKind::NotRunning),
            old(self).spec_running() ==> match old(self).spec_active_notes().spec_get(
                FretLoc { string_idx, fret_idx },
            ) {
                Some(n) => r == Ok::<GameState, GameError>(
                    GameState {
                        target_note: n,
                        target_loc: FretLoc { string_idx, fret_idx },
                        needed_detection_count: old(self).spec_needed(),
                        curr_detection_count: 0,
                    },
                ),
                None => (r matches Err(e) && e.kind == GameErrorKind::NoNoteAtLocation),
            },
            r matches Ok(st) ==> final(self).spec_state() == Some(st),
            r is Err ==> final(self).spec_state() == old(self).spec_state(),
    {
        if !self.running {
            return Err(GameError { kind: GameErrorKind::NotRunning });
        }
        match pick_note(&self.active_notes, string_idx, fret_idx) {
            Some((target_note, target_loc)) => {
                let st = GameState {
                    target_note,
                    target_loc,
                    needed_detection_count: self.needed_detection_count,
                    curr_detection_count: 0,
                };
                self.state = Some(st);
                Ok(st)
            },
            None => Err(GameError { kind: GameErrorKind::NoNoteAtLocation }),
        }
    }

    /// Takes one recognised note into the round under way.
    ///
    /// The count goes up exactly when the note is the target; the new state is
    /// to be sent when its count is positive and a multiple of the update
    /// period; when the count reaches the needed count the round ends and a new
    /// target is due. Without a round under way nothing happens.
    pub fn on_analysis(&mut self, analysis: &AnalysisResult) -> (r: GameStep)
        requires
            old(self).wf(),
        ensures
            final(self).wf(),
            final(self).spec_running() == old(self).spec_running(),
            final(self).spec_active_notes() == old(self).spec_active_notes(),
            final(self).spec_needed() == old(self).spec_needed(),
            final(self).spec_period() == old(self).spec_period(),
            match old(self).spec_state() {
                None => r.broadcast is None && !r.target_reached && final(self).spec_state() is None,
                Some(st) => {
                    let next = counted(st, *analysis);
                    &&& r.target_reached == (next.curr_detection_count
                        == old(self).spec_needed())
                    &&& final(self).spec_state() == if r.target_reached {
                        None
                    } else {
                        Some(next)
                    }
                    &&& r.broadcast == if next.curr_detection_count > 0
                        && next.curr_detection_count % old(self).spec_period() == 0 {
                        Some(next)
                    } else {
                        None::<GameState>
                    }
                },
            },
    {
        match self.state {
            None => GameStep { broadcast: None, target_reached: false },
            Some(st) => {
                let mut next = st;
                if let Some(note) = analysis.note {
                    if note == st.target_note {
                        next.curr_detection_count = st.curr_detection_count + 1;
                    }
                }
                let broadcast = if next.curr_detection_count > 0 && next.curr_detection_count
                    % self.state_update_period == 0 {
                    Some(next)
                } else {
                    None
                };
                let target_reached = next.curr_detection_count == self.needed_detection_count;
                self.state = if target_reached {
                    None
                } else {
                    Some(next)
                };
                GameStep { broadcast, target_reached }
            },
        }
    }
}

/// The note at the place drawn by the caller, with the place; None when no
/// note sounds there.
pub fn pick_note(notes: &ActiveNotes, string_idx: usize, fret_idx: usize) -> (r: Option<
    (Note, FretLoc),
>)
    requires
        notes.wf(),
    ensures
        r == match notes.spec_get(FretLoc { string_idx, fret_idx }) {
            Some(n) => Some((n, FretLoc { string_idx, fret_idx })),
            None => None,
        },
{
    let key = FretLoc { string_idx, fret_idx };
    match notes.get(&key) {
        Some(n) => Some((*n, key)),
        None => None,
    }
}

} // verus!
