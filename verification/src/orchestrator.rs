//! The orchestrator's round/phase sequencing: a fixed number of rounds, each
//! passing through pairing, questioning, answering and guessing in order,
//! strictly sequentially, ending in a terminal state after which the final
//! ranking is produced. The caller drives the loop, performing the
//! interaction each phase asks for; the transition decisions live here.

use vstd::prelude::*;

verus! {

/// How many rounds a game runs.
pub const ROUND_COUNT: u8 = 3;

/// Where the game stands. Every non-terminal phase carries the current
/// round number, counted from 1.
#[derive(Clone, Copy, Debug, PartialEq, Eq, Structural)]
pub enum Phase {
    /// Waiting for the round to be opened.
    RoundStart(u8),
    /// Drawing the round's asker/responder rotation.
    Pairing(u8),
    /// Collecting one written prompt per player.
    Questioning(u8),
    /// Collecting one answer per player.
    Answering(u8),
    /// Guessing the answerer of each collected answer and scoring.
    Guessing(u8),
    /// The round is complete.
    RoundEnd(u8),
    /// All rounds are complete: produce the final ranking.
    Finished,
}

/// A phase is well-formed when its round number is one of the game's rounds.
pub open spec fn phase_wf(p: Phase) -> bool {
    match p {
        Phase::RoundStart(r) => 1 <= r <= ROUND_COUNT,
        Phase::Pairing(r) => 1 <= r <= ROUND_COUNT,
        Phase::Questioning(r) => 1 <= r <= ROUND_COUNT,
        Phase::Answering(r) => 1 <= r <= ROUND_COUNT,
        Phase::Guessing(r) => 1 <= r <= ROUND_COUNT,
        Phase::RoundEnd(r) => 1 <= r <= ROUND_COUNT,
        Phase::Finished => true,
    }
}

/// The successor of each phase: the phases of a round in order, then the
/// next round, and after the last round's end the terminal state, which is
/// its own successor.
pub open spec fn next_phase_spec(p: Phase) -> Phase {
    match p {
        Phase::RoundStart(r) => Phase::Pairing(r),
        Phase::Pairing(r) => Phase::Questioning(r),
        Phase::Questioning(r) => Phase::Answering(r),
        Phase::Answering(r) => Phase::Guessing(r),
        Phase::Guessing(r) => Phase::RoundEnd(r),
        Phase::RoundEnd(r) => if r < ROUND_COUNT {
            Phase::RoundStart((r + 1) as u8)
        } else {
            Phase::Finished
        },
        Phase::Finished => Phase::Finished,
    }
}

/// The phase a game opens in.
pub fn initial_phase() -> (p: Phase)
    ensures
        p == Phase::RoundStart(1u8),
        phase_wf(p),
{
    Phase::RoundStart(1)
}

/// Advance to the next phase. Well-formedness is preserved, and only the
/// last round's end reaches the terminal state.
pub fn next_phase(p: Phase) -> (r: Phase)
    requires
        phase_wf(p),
    ensures
        r == next_phase_spec(p),
        phase_wf(r),
{
    match p {
        Phase::RoundStart(r) => Phase::Pairing(r),
        Phase::Pairing(r) => Phase::Questioning(r),
        Phase::Questioning(r) => Phase::Answering(r),
        Phase::Answering(r) => Phase::Guessing(r),
        Phase::Guessing(r) => Phase::RoundEnd(r),
        Phase::RoundEnd(r) => {
            if r < ROUND_COUNT {
                Phase::RoundStart(r + 1)
            } else {
                Phase::Finished
            }
        },
        Phase::Finished => Phase::Finished,
    }
}

/// Law: the phases of a game are strictly sequential — from the opening
/// phase, each round passes through pairing, questioning, answering and
/// guessing in order before the next round starts, and the terminal state
/// is absorbing.
pub proof fn lemma_rounds_sequential(r: u8)
    requires
        1 <= r <= ROUND_COUNT,
    ensures
        next_phase_spec(Phase::RoundStart(r)) == Phase::Pairing(r),
        next_phase_spec(Phase::Pairing(r)) == Phase::Questioning(r),
        next_phase_spec(Phase::Questioning(r)) == Phase::Answering(r),
        next_phase_spec(Phase::Answering(r)) == Phase::Guessing(r),
        next_phase_spec(Phase::Guessing(r)) == Phase::RoundEnd(r),
        r < ROUND_COUNT ==> next_phase_spec(Phase::RoundEnd(r)) == Phase::RoundStart((r + 1) as u8),
        r == ROUND_COUNT ==> next_phase_spec(Phase::RoundEnd(r)) == Phase::Finished,
        next_phase_spec(Phase::Finished) == Phase::Finished,
{
}

} // verus!
