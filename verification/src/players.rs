//! The core records of the game: players, questions, and answered questions.

use vstd::prelude::*;

verus! {

/// A question written by one player, waiting to be answered by another.
pub struct Question {
    /// Id of the player who wrote the prompt.
    pub author: u8,
    /// The text of the prompt.
    pub prompt: String,
}

/// A question together with the answer a player supplied for it.
pub struct AnsweredQuestion {
    /// The original question, author included.
    pub question: Question,
    /// Id of the player who supplied the answer (the one who held the
    /// question as pending).
    pub answered_by: u8,
    /// The text of the answer.
    pub answer: String,
}

/// One registered player: a stable id, a display name, a running score, and
/// an optional question assigned to them that they have not answered yet.
pub struct Player {
    pub id: u8,
    pub nickname: String,
    pub score: u32,
    pub question_pending_answer: Option<Question>,
}

impl Question {
    pub fn new(author: u8, prompt: String) -> (q: Question)
        ensures
            q.author == author,
            q.prompt == prompt,
    {
        Question { author, prompt }
    }

    /// Consume the question and record who answered it and with what text.
    pub fn respond(self, answered_by: u8, answer: String) -> (a: AnsweredQuestion)
        ensures
            a.question == self,
            a.answered_by == answered_by,
            a.answer == answer,
    {
        AnsweredQuestion { question: self, answered_by, answer }
    }
}

impl Player {
    /// A fresh player starts with no points and no pending question.
    pub fn new(id: u8, nickname: String) -> (p: Player)
        ensures
            p.id == id,
            p.nickname == nickname,
            p.score == 0,
            p.question_pending_answer is None,
    {
        Player { id, nickname, score: 0, question_pending_answer: None }
    }
}

} // verus!
