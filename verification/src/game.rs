//! The player registry and shared game state: an arena of players indexed by
//! their stable id, owned by the orchestration code and mutated only through
//! the operations here and in the phase modules.

use vstd::prelude::*;

use crate::players::Player;

verus! {

/// The sequence `0, 1, ..., n-1` of player ids for a roster of size `n`.
pub open spec fn id_seq(n: nat) -> Seq<u8>
    recommends
        n <= 256,
{
    Seq::new(n, |i: int| i as u8)
}

/// Within the crate, the abstract view of the arena is the players vector.
pub(crate) broadcast proof fn lemma_players_view(g: Game)
    ensures
        #[trigger] g.players_seq() == g.players@,
{
}

/// Within the crate, the abstract next id is the stored counter.
pub(crate) broadcast proof fn lemma_next_id_view(g: Game)
    ensures
        #[trigger] g.spec_next_player_id() == g.next_player_id,
{
}

/// Authoritative game state: the roster of players with their scores and
/// pending questions. Ids are assigned sequentially from 0 at registration
/// and never reused, so the arena is a vector indexed by id.
pub struct Game {
    pub(crate) next_player_id: u8,
    pub(crate) players: Vec<Player>,
}

impl Game {
    /// The players, in registration (= id) order.
    pub closed spec fn players_seq(self) -> Seq<Player> {
        self.players@
    }

    /// Roster size.
    pub open spec fn n(self) -> nat {
        self.players_seq().len()
    }

    pub closed spec fn spec_next_player_id(self) -> u8 {
        self.next_player_id
    }

    /// Well-formedness: each player sits at the index equal to its id, and
    /// the next id to hand out is the roster size.
    pub open spec fn wf(self) -> bool {
        &&& self.n() <= 255
        &&& self.spec_next_player_id() == self.n()
        &&& forall|i: int|
            0 <= i < self.n() ==> (#[trigger] self.players_seq()[i]).id == i
    }

    /// A game starts with an empty roster.
    pub fn new() -> (g: Game)
        ensures
            g.wf(),
            g.n() == 0,
    {
        Game { next_player_id: 0, players: Vec::new() }
    }

    /// Register a new player under the next sequential id, with score 0 and
    /// no pending question.
    pub fn add_new_player(&mut self, nickname: String)
        requires
            old(self).wf(),
            old(self).n() < 255,
        ensures
            final(self).wf(),
            final(self).players_seq() == old(self).players_seq().push(
                Player {
                    id: old(self).n() as u8,
                    nickname: nickname,
                    score: 0,
                    question_pending_answer: None,
                },
            ),
    {
        let id = self.next_player_id;
        self.next_player_id = self.next_player_id + 1;
        self.players.push(Player::new(id, nickname));
    }

    /// All player ids, in ascending order.
    pub fn player_ids(&self) -> (ids: Vec<u8>)
        requires
            self.wf(),
        ensures
            ids@ == id_seq(self.n()),
    {
        let mut ids: Vec<u8> = Vec::new();
        let n = self.players.len();
        for k in 0..n
            invariant
                n == self.n(),
                n <= 255,
                ids@ =~= id_seq(k as nat),
        {
            ids.push(k as u8);
        }
        proof {
            assert(ids@ =~= id_seq(self.n()));
        }
        ids
    }

    /// The display name of a player; the id must belong to the roster.
    pub fn nickname_of(&self, id: u8) -> (name: String)
        requires
            self.wf(),
            id < self.n(),
        ensures
            name == self.players_seq()[id as int].nickname,
    {
        self.players[id as usize].nickname.clone()
    }

    /// The current score of a player; the id must belong to the roster.
    pub fn score_of(&self, id: u8) -> (score: u32)
        requires
            self.wf(),
            id < self.n(),
        ensures
            score == self.players_seq()[id as int].score,
    {
        self.players[id as usize].score
    }

    /// The prompt of the question currently assigned to a player, if any.
    pub fn pending_prompt(&self, id: u8) -> (prompt: Option<String>)
        requires
            self.wf(),
            id < self.n(),
        ensures
            match self.players_seq()[id as int].question_pending_answer {
                Some(q) => prompt == Some(q.prompt),
                None => prompt is None,
            },
    {
        match &self.players[id as usize].question_pending_answer {
            Some(q) => Some(q.prompt.clone()),
            None => None,
        }
    }
}

} // verus!
