//! Scoring: after the guesses for an answered question are collected, each
//! guess naming the true answerer awards its guesser exactly one point, and
//! nothing else changes.

use vstd::prelude::*;

use crate::game::Game;
use crate::players::AnsweredQuestion;

verus! {

broadcast use crate::game::lemma_players_view, crate::game::lemma_next_id_view;

/// How many of the guesses are by player `p` and name the true answerer.
pub open spec fn correct_count(guesses: Seq<(u8, u8)>, answered_by: u8, p: u8) -> nat
    decreases guesses.len(),
{
    if guesses.len() == 0 {
        0
    } else {
        correct_count(guesses.drop_last(), answered_by, p) + (if guesses.last().0 == p
            && guesses.last().1 == answered_by {
            1nat
        } else {
            0nat
        })
    }
}

/// A player earns at most one point per guess made.
pub proof fn lemma_correct_count_le_len(guesses: Seq<(u8, u8)>, answered_by: u8, p: u8)
    ensures
        correct_count(guesses, answered_by, p) <= guesses.len(),
    decreases guesses.len(),
{
    if guesses.len() > 0 {
        lemma_correct_count_le_len(guesses.drop_last(), answered_by, p);
    }
}

/// The views of the per-question guess lists.
pub open spec fn guess_seqs(all: Seq<Vec<(u8, u8)>>) -> Seq<Seq<(u8, u8)>> {
    all.map_values(|v: Vec<(u8, u8)>| v@)
}

/// The total number of guesses across the question rounds.
pub open spec fn total_guesses(gs: Seq<Seq<(u8, u8)>>) -> nat
    decreases gs.len(),
{
    if gs.len() == 0 {
        0
    } else {
        total_guesses(gs.drop_last()) + gs.last().len()
    }
}

/// The points player `p` earns across the question rounds.
pub open spec fn total_correct(answers: Seq<AnsweredQuestion>, gs: Seq<Seq<(u8, u8)>>, p: u8) -> nat
    recommends
        answers.len() == gs.len(),
    decreases answers.len(),
{
    if answers.len() == 0 || gs.len() == 0 {
        0
    } else {
        total_correct(answers.drop_last(), gs.drop_last(), p) + correct_count(
            gs.last(),
            answers.last().answered_by,
            p,
        )
    }
}

/// A player earns at most one point per guess made, across the whole batch.
pub proof fn lemma_total_correct_le(answers: Seq<AnsweredQuestion>, gs: Seq<Seq<(u8, u8)>>, p: u8)
    requires
        answers.len() == gs.len(),
    ensures
        total_correct(answers, gs, p) <= total_guesses(gs),
    decreases answers.len(),
{
    if answers.len() > 0 {
        lemma_total_correct_le(answers.drop_last(), gs.drop_last(), p);
        lemma_correct_count_le_len(gs.last(), answers.last().answered_by, p);
    }
}

/// A prefix of the question rounds holds at most as many guesses as all of
/// them.
proof fn lemma_total_guesses_prefix(gs: Seq<Seq<(u8, u8)>>, k: int)
    requires
        0 <= k <= gs.len(),
    ensures
        total_guesses(gs.take(k)) <= total_guesses(gs),
    decreases gs.len() - k,
{
    if k < gs.len() {
        assert(gs.take(k + 1).drop_last() =~= gs.take(k));
        assert(gs.take(k + 1).last() == gs[k]);
        lemma_total_guesses_prefix(gs, k + 1);
    } else {
        assert(gs.take(k) =~= gs);
    }
}

impl Game {
    /// Resolve one guess on the answered question of `answered_by`: a guess
    /// naming the true answerer awards the guesser exactly one point; any
    /// other guess changes nothing; no other player's state changes either
    /// way.
    pub fn award_guess(&mut self, guesser: u8, guessed: u8, answered_by: u8)
        requires
            old(self).wf(),
            guesser < old(self).n(),
            old(self).players_seq()[guesser as int].score < u32::MAX,
        ensures
            final(self).wf(),
            final(self).n() == old(self).n(),
            forall|r: int|
                0 <= r < old(self).n() && r != guesser ==> #[trigger] final(self).players_seq()[r]
                    == old(self).players_seq()[r],
            ({
                let p = final(self).players_seq()[guesser as int];
                let q = old(self).players_seq()[guesser as int];
                p.id == q.id && p.nickname == q.nickname && p.question_pending_answer
                    == q.question_pending_answer && p.score == q.score + (if guessed == answered_by {
                    1int
                } else {
                    0int
                })
            }),
            guessed != answered_by ==> *final(self) == *old(self),
    {
        if guessed == answered_by {
            let current = self.players[guesser as usize].score;
            self.players[guesser as usize].score = current + 1;
        }
    }

    /// Resolve all guesses collected for one answered question, in order:
    /// each player's score rises by exactly the number of their guesses that
    /// named the true answerer, and nothing else changes.
    pub fn apply_guesses(&mut self, answered_by: u8, guesses: &Vec<(u8, u8)>)
        requires
            old(self).wf(),
            forall|i: int| 0 <= i < guesses@.len() ==> (#[trigger] guesses@[i]).0 < old(self).n(),
            forall|r: int|
                0 <= r < old(self).n() ==> (#[trigger] old(self).players_seq()[r]).score
                    + guesses@.len() <= u32::MAX,
        ensures
            final(self).wf(),
            final(self).n() == old(self).n(),
            forall|r: int|
                0 <= r < old(self).n() ==> {
                    let p = #[trigger] final(self).players_seq()[r];
                    let q = old(self).players_seq()[r];
                    p.id == q.id && p.nickname == q.nickname && p.question_pending_answer
                        == q.question_pending_answer && p.score == q.score + correct_count(
                        guesses@,
                        answered_by,
                        r as u8,
                    )
                },
    {
        let ghost n = self.n();
        let len = guesses.len();
        for k in 0..len
            invariant
                self.wf(),
                self.n() == n,
                n == old(self).n(),
                len == guesses@.len(),
                forall|i: int| 0 <= i < guesses@.len() ==> (#[trigger] guesses@[i]).0 < n,
                forall|r: int|
                    0 <= r < n ==> (#[trigger] old(self).players_seq()[r]).score + guesses@.len()
                        <= u32::MAX,
                forall|r: int|
                    0 <= r < n ==> {
                        let p = #[trigger] self.players_seq()[r];
                        let q = old(self).players_seq()[r];
                        p.id == q.id && p.nickname == q.nickname && p.question_pending_answer
                            == q.question_pending_answer && p.score == q.score + correct_count(
                            guesses@.take(k as int),
                            answered_by,
                            r as u8,
                        )
                    },
        {
            let guesser = guesses[k].0;
            let guessed = guesses[k].1;
            proof {
                lemma_correct_count_le_len(guesses@.take(k as int), answered_by, guesser);
                assert(guesses@.take(k as int).len() == k);
            }
            self.award_guess(guesser, guessed, answered_by);
            proof {
                assert forall|r: int| 0 <= r < n implies {
                    let p = #[trigger] self.players_seq()[r];
                    let q = old(self).players_seq()[r];
                    p.id == q.id && p.nickname == q.nickname && p.question_pending_answer
                        == q.question_pending_answer && p.score == q.score + correct_count(
                        guesses@.take(k + 1),
                        answered_by,
                        r as u8,
                    )
                } by {
                    assert(guesses@.take(k + 1).drop_last() =~= guesses@.take(k as int));
                    assert(guesses@.take(k + 1).last() == guesses@[k as int]);
                }
            }
        }
        proof {
            assert(guesses@.take(len as int) =~= guesses@);
        }
    }

    /// Resolve the guesses of a whole round, question by question in
    /// collection order: each player's score rises by exactly the number of
    /// their guesses, over all the round's answered questions, that named
    /// the question's true answerer.
    pub fn do_guesses(&mut self, answers: &Vec<AnsweredQuestion>, all_guesses: &Vec<Vec<(u8, u8)>>)
        requires
            old(self).wf(),
            all_guesses@.len() == answers@.len(),
            forall|i: int, j: int|
                0 <= i < all_guesses@.len() && 0 <= j < (#[trigger] all_guesses@[i])@.len() ==> (
                #[trigger] all_guesses@[i]@[j]).0 < old(self).n(),
            forall|r: int|
                0 <= r < old(self).n() ==> (#[trigger] old(self).players_seq()[r]).score
                    + total_guesses(guess_seqs(all_guesses@)) <= u32::MAX,
        ensures
            final(self).wf(),
            final(self).n() == old(self).n(),
            forall|r: int|
                0 <= r < old(self).n() ==> {
                    let p = #[trigger] final(self).players_seq()[r];
                    let q = old(self).players_seq()[r];
                    p.id == q.id && p.nickname == q.nickname && p.question_pending_answer
                        == q.question_pending_answer && p.score == q.score + total_correct(
                        answers@,
                        guess_seqs(all_guesses@),
                        r as u8,
                    )
                },
    {
        let ghost n = self.n();
        let ghost gs = guess_seqs(all_guesses@);
        let len = answers.len();
        for i in 0..len
            invariant
                self.wf(),
                self.n() == n,
                n == old(self).n(),
                len == answers@.len(),
                all_guesses@.len() == answers@.len(),
                gs == guess_seqs(all_guesses@),
                forall|i2: int, j: int|
                    0 <= i2 < all_guesses@.len() && 0 <= j < (#[trigger] all_guesses@[i2])@.len()
                        ==> (#[trigger] all_guesses@[i2]@[j]).0 < n,
                forall|r: int|
                    0 <= r < n ==> (#[trigger] old(self).players_seq()[r]).score + total_guesses(gs)
                        <= u32::MAX,
                forall|r: int|
                    0 <= r < n ==> {
                        let p = #[trigger] self.players_seq()[r];
                        let q = old(self).players_seq()[r];
                        p.id == q.id && p.nickname == q.nickname && p.question_pending_answer
                            == q.question_pending_answer && p.score == q.score + total_correct(
                            answers@.take(i as int),
                            gs.take(i as int),
                            r as u8,
                        )
                    },
        {
            let ghost pre = self.players_seq();
            proof {
                assert forall|r: int|
                    0 <= r < n implies (#[trigger] self.players_seq()[r]).score
                    + all_guesses@[i as int]@.len() <= u32::MAX by {
                    lemma_total_correct_le(
                        answers@.take(i as int),
                        gs.take(i as int),
                        r as u8,
                    );
                    lemma_total_guesses_prefix(gs, i + 1);
                    assert(gs.take(i + 1).drop_last() =~= gs.take(i as int));
                    assert(gs.take(i + 1).last() == gs[i as int]);
                    assert(gs[i as int] == all_guesses@[i as int]@);
                }
                assert(forall|j: int|
                    0 <= j < (#[trigger] all_guesses@[i as int])@.len() ==> (all_guesses@[i as int]@[j]).0
                        < n);
            }
            self.apply_guesses(answers[i].answered_by, &all_guesses[i]);
            proof {
                assert forall|r: int| 0 <= r < n implies {
                    let p = #[trigger] self.players_seq()[r];
                    let q = old(self).players_seq()[r];
                    p.id == q.id && p.nickname == q.nickname && p.question_pending_answer
                        == q.question_pending_answer && p.score == q.score + total_correct(
                        answers@.take(i + 1),
                        gs.take(i + 1),
                        r as u8,
                    )
                } by {
                    assert(answers@.take(i + 1).drop_last() =~= answers@.take(i as int));
                    assert(gs.take(i + 1).drop_last() =~= gs.take(i as int));
                    assert(answers@.take(i + 1).last() == answers@[i as int]);
                    assert(gs.take(i + 1).last() == gs[i as int]);
                    assert(gs[i as int] == all_guesses@[i as int]@);
                    assert(self.players_seq()[r].score == pre[r].score + correct_count(
                        all_guesses@[i as int]@,
                        answers@[i as int].answered_by,
                        r as u8,
                    ));
                }
            }
        }
        proof {
            assert(answers@.take(len as int) =~= answers@);
            assert(gs.take(len as int) =~= gs);
        }
    }
}

} // verus!
