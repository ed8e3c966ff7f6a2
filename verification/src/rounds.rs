//! The question/answer pipeline: attach each player's written prompt to the
//! player designated to answer it, then collect one answer per player,
//! clearing the pending slots.

use vstd::prelude::*;

use crate::game::Game;
use crate::game::id_seq;
use crate::pairing::lemma_rotation_is_pairing;
use crate::pairing::lemma_same_multiset_as_ids;
use crate::pairing::rotation_of;
use crate::pairing::rotation_pairs;
use crate::pairing::shuffle_ids;
use crate::players::AnsweredQuestion;
use crate::players::Question;

verus! {

broadcast use crate::game::lemma_players_view, crate::game::lemma_next_id_view;

/// No two players hold pending questions by the same author.
pub open spec fn pending_authors_distinct(players: Seq<crate::players::Player>) -> bool {
    forall|r1: int, r2: int|
        0 <= r1 < players.len() && 0 <= r2 < players.len() && r1 != r2 ==> match ((
        #[trigger] players[r1]).question_pending_answer, (
        #[trigger] players[r2]).question_pending_answer) {
            (Some(q1), Some(q2)) => q1.author != q2.author,
            _ => true,
        }
}

/// The ids that answered, in collection order.
pub open spec fn answerers_of(answers: Seq<AnsweredQuestion>) -> Seq<u8> {
    answers.map_values(|a: AnsweredQuestion| a.answered_by)
}

/// Law: when the answer collected at each position p is answered by player
/// p, the answerers are exactly the roster's ids, each exactly once.
pub proof fn lemma_answers_cover_roster(answers: Seq<AnsweredQuestion>, n: nat)
    requires
        n <= 255,
        answers.len() == n,
        forall|p: int| 0 <= p < n ==> (#[trigger] answers[p]).answered_by == p,
    ensures
        answerers_of(answers) == id_seq(n),
        answerers_of(answers).no_duplicates(),
        answerers_of(answers).to_multiset() == id_seq(n).to_multiset(),
{
    assert(answerers_of(answers) =~= id_seq(n));
}

impl Game {
    /// Wrap a written prompt as a question by the given author.
    pub fn input_question(&self, author: u8, prompt: String) -> (q: Question)
        ensures
            q.author == author,
            q.prompt == prompt,
    {
        Question::new(author, prompt)
    }

    /// Attach the questions for a round along the rotation built on `order`:
    /// for each consecutive (asker, responder) pair, the responder's pending
    /// slot receives a question authored by the asker with the asker's
    /// prompt. `prompts` holds one prompt per player, indexed by author id.
    pub fn pend_questions_with_order(&mut self, order: &Vec<u8>, prompts: &Vec<String>)
        requires
            old(self).wf(),
            old(self).n() >= 1,
            order@.to_multiset() == id_seq(old(self).n()).to_multiset(),
            prompts@.len() == old(self).n(),
        ensures
            final(self).wf(),
            final(self).n() == old(self).n(),
            forall|r: int|
                0 <= r < final(self).n() ==> {
                    let p = #[trigger] final(self).players_seq()[r];
                    let q = old(self).players_seq()[r];
                    p.id == q.id && p.nickname == q.nickname && p.score == q.score
                },
            forall|i: int|
                0 <= i < order@.len() ==> final(self).players_seq()[(
                #[trigger] rotation_of(order@)[i]).1 as int].question_pending_answer == Some(
                    Question {
                        author: rotation_of(order@)[i].0,
                        prompt: prompts@[rotation_of(order@)[i].0 as int],
                    },
                ),
            forall|r: int|
                0 <= r < final(self).n() ==> match (#[trigger] final(self).players_seq()[r]).question_pending_answer {
                    Some(q) => q.author < final(self).n() && q.prompt == prompts@[q.author as int]
                        && (final(self).n() > 1 ==> q.author != r),
                    None => false,
                },
            pending_authors_distinct(final(self).players_seq()),
    {
        let ghost n = self.n();
        proof {
            lemma_same_multiset_as_ids(order@, n);
            lemma_rotation_is_pairing(order@);
        }
        let pairs = rotation_pairs(order);
        let ghost rot = rotation_of(order@);
        let len = pairs.len();
        for k in 0..len
            invariant
                self.wf(),
                self.n() == n,
                n == old(self).n(),
                len == n,
                n >= 1,
                prompts@.len() == n,
                pairs@ == rot,
                rot == rotation_of(order@),
                order@.to_multiset() == id_seq(n).to_multiset(),
                order@.len() == n,
                order@.no_duplicates(),
                forall|i: int| 0 <= i < n ==> 0 <= #[trigger] order@[i] < n,
                forall|i: int| 0 <= i < n ==> (#[trigger] rot[i]).1 == order@[i],
                forall|i: int| 0 <= i < n ==> 0 <= (#[trigger] rot[i]).0 < n,
                n > 1 ==> forall|i: int| 0 <= i < n ==> (#[trigger] rot[i]).0 != rot[i].1,
                forall|r: int|
                    0 <= r < n ==> {
                        let p = #[trigger] self.players_seq()[r];
                        let q = old(self).players_seq()[r];
                        p.id == q.id && p.nickname == q.nickname && p.score == q.score
                    },
                forall|j: int|
                    0 <= j < k ==> self.players_seq()[(
                    #[trigger] rot[j]).1 as int].question_pending_answer == Some(
                        Question { author: rot[j].0, prompt: prompts@[rot[j].0 as int] },
                    ),
                forall|r: int|
                    0 <= r < n && !order@.subrange(0, k as int).contains(r as u8)
                        ==> #[trigger] self.players_seq()[r] == old(self).players_seq()[r],
        {
            let asker = pairs[k].0;
            let responder = pairs[k].1;
            let question = self.input_question(asker, prompts[asker as usize].clone());
            let ghost before = self.players_seq();
            self.players[responder as usize].question_pending_answer = Some(question);
            proof {
                assert forall|j: int|
                    0 <= j < k + 1 implies self.players_seq()[(
                #[trigger] rot[j]).1 as int].question_pending_answer == Some(
                    Question { author: rot[j].0, prompt: prompts@[rot[j].0 as int] },
                ) by {
                    if j < k {
                        assert(order@[j] != order@[k as int]);
                        assert(before[rot[j].1 as int] == self.players_seq()[rot[j].1 as int]);
                    }
                }
                assert forall|r: int|
                    0 <= r < n && !order@.subrange(0, k + 1).contains(r as u8)
                    implies #[trigger] self.players_seq()[r] == old(self).players_seq()[r] by {
                    assert(order@.subrange(0, k + 1)[k as int] == order@[k as int]);
                    assert(order@.subrange(0, k + 1).contains(order@[k as int]));
                    assert(r != order@[k as int]);
                    assert forall|j: int|
                        0 <= j < k && order@.subrange(0, k as int)[j] == r as u8 implies false by {
                        assert(order@.subrange(0, k + 1)[j] == r as u8);
                    }
                    assert(!order@.subrange(0, k as int).contains(r as u8));
                }
            }
        }
        proof {
            assert forall|r: int| 0 <= r < n implies match (#[trigger] self.players_seq()[r]).question_pending_answer {
                Some(q) => q.author < n && q.prompt == prompts@[q.author as int] && (n > 1
                    ==> q.author != r),
                None => false,
            } by {
                assert(order@.contains(r as u8));
                let i = choose|i: int| 0 <= i < order@.len() && order@[i] == r as u8;
                assert(rot[i].1 == r as u8);
                assert(self.players_seq()[r].question_pending_answer == Some(
                    Question { author: rot[i].0, prompt: prompts@[rot[i].0 as int] },
                ));
            }
            lemma_rotation_is_pairing(order@);
            lemma_same_multiset_as_ids(order@, n);
            assert forall|r1: int, r2: int|
                0 <= r1 < n && 0 <= r2 < n && r1 != r2 implies match ((
            #[trigger] self.players_seq()[r1]).question_pending_answer, (
            #[trigger] self.players_seq()[r2]).question_pending_answer) {
                (Some(q1), Some(q2)) => q1.author != q2.author,
                _ => true,
            } by {
                assert(order@.contains(r1 as u8));
                assert(order@.contains(r2 as u8));
                let i1 = choose|i: int| 0 <= i < order@.len() && order@[i] == r1 as u8;
                let i2 = choose|i: int| 0 <= i < order@.len() && order@[i] == r2 as u8;
                assert(i1 != i2);
                assert(self.players_seq()[r1].question_pending_answer == Some(
                    Question { author: rot[i1].0, prompt: prompts@[rot[i1].0 as int] },
                ));
                assert(self.players_seq()[r2].question_pending_answer == Some(
                    Question { author: rot[i2].0, prompt: prompts@[rot[i2].0 as int] },
                ));
                assert(crate::pairing::askers_of(rot)[i1] == rot[i1].0);
                assert(crate::pairing::askers_of(rot)[i2] == rot[i2].0);
                assert(rot[i1].0 != rot[i2].0);
            }
        }
    }

    /// Attach the questions for a round along a freshly drawn random
    /// rotation. Afterwards every player holds exactly one pending question,
    /// authored by a player of the roster, carrying that author's prompt,
    /// and — with more than one player — never authored by its holder.
    pub fn pend_questions(&mut self, prompts: &Vec<String>)
        requires
            old(self).wf(),
            old(self).n() >= 1,
            prompts@.len() == old(self).n(),
        ensures
            final(self).wf(),
            final(self).n() == old(self).n(),
            forall|r: int|
                0 <= r < final(self).n() ==> {
                    let p = #[trigger] final(self).players_seq()[r];
                    let q = old(self).players_seq()[r];
                    p.id == q.id && p.nickname == q.nickname && p.score == q.score
                },
            forall|r: int|
                0 <= r < final(self).n() ==> match (#[trigger] final(self).players_seq()[r]).question_pending_answer {
                    Some(q) => q.author < final(self).n() && q.prompt == prompts@[q.author as int]
                        && (final(self).n() > 1 ==> q.author != r),
                    None => false,
                },
            pending_authors_distinct(final(self).players_seq()),
    {
        let mut order = self.player_ids();
        shuffle_ids(&mut order);
        self.pend_questions_with_order(&order, prompts);
    }

    /// Collect the answers for a round: for each player in ascending id
    /// order, take the pending question (which must be present) and record
    /// that player's answer text against it. Afterwards no pending question
    /// remains; the answer at position p is answered by player p.
    pub fn input_answers(&mut self, responses: &Vec<String>) -> (answers: Vec<AnsweredQuestion>)
        requires
            old(self).wf(),
            responses@.len() == old(self).n(),
            forall|r: int|
                0 <= r < old(self).n() ==> (#[trigger] old(self).players_seq()[r]).question_pending_answer is Some,
        ensures
            final(self).wf(),
            final(self).n() == old(self).n(),
            forall|r: int|
                0 <= r < final(self).n() ==> {
                    let p = #[trigger] final(self).players_seq()[r];
                    let q = old(self).players_seq()[r];
                    p.id == q.id && p.nickname == q.nickname && p.score == q.score
                        && p.question_pending_answer is None
                },
            answers@.len() == final(self).n(),
            forall|p: int|
                0 <= p < answers@.len() ==> {
                    let a = #[trigger] answers@[p];
                    a.answered_by == p && a.answer == responses@[p] && Some(a.question) == old(self).players_seq()[p].question_pending_answer
                },
    {
        let ghost n = self.n();
        let mut answers: Vec<AnsweredQuestion> = Vec::new();
        let len = self.players.len();
        for p in 0..len
            invariant
                self.wf(),
                self.n() == n,
                n == old(self).n(),
                len == n,
                responses@.len() == n,
                answers@.len() == p,
                forall|r: int|
                    p <= r < n ==> #[trigger] self.players_seq()[r] == old(self).players_seq()[r],
                forall|r: int|
                    0 <= r < n ==> (#[trigger] old(self).players_seq()[r]).question_pending_answer is Some,
                forall|r: int|
                    0 <= r < p ==> {
                        let q = #[trigger] self.players_seq()[r];
                        let o = old(self).players_seq()[r];
                        q.id == o.id && q.nickname == o.nickname && q.score == o.score
                            && q.question_pending_answer is None
                    },
                forall|j: int|
                    0 <= j < p ==> {
                        let a = #[trigger] answers@[j];
                        a.answered_by == j && a.answer == responses@[j] && Some(a.question) == old(self).players_seq()[j].question_pending_answer
                    },
        {
            let question = self.players[p].question_pending_answer.take().unwrap();
            let response = responses[p].clone();
            answers.push(question.respond(p as u8, response));
        }
        answers
    }
}

} // verus!
