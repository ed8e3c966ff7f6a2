//! The score board's final output: every player's nickname and score,
//! ordered by score descending. Ties keep registration order: the sort
//! inserts each player after all earlier players with the same score.

use vstd::prelude::*;

use crate::game::Game;
use crate::players::Player;

verus! {

broadcast use crate::game::lemma_players_view, crate::game::lemma_next_id_view;

/// The (nickname, score) lines the ranking is drawn from, in id order.
pub open spec fn ranking_entries(players: Seq<Player>) -> Seq<(String, u32)> {
    players.map_values(|p: Player| (p.nickname, p.score))
}

/// Non-increasing by score.
pub open spec fn scores_sorted(ranking: Seq<(String, u32)>) -> bool {
    forall|i: int, j: int|
        0 <= i < j < ranking.len() ==> (#[trigger] ranking[i]).1 >= (#[trigger] ranking[j]).1
}

impl Game {
    /// The final ranking: one line per player, holding exactly the roster's
    /// nicknames and scores, in non-increasing score order.
    pub fn final_ranking(&self) -> (ranking: Vec<(String, u32)>)
        requires
            self.wf(),
        ensures
            ranking@.len() == self.n(),
            scores_sorted(ranking@),
            ranking@.to_multiset() == ranking_entries(self.players_seq()).to_multiset(),
    {
        broadcast use vstd::seq_lib::group_to_multiset_ensures;

        let mut ranking: Vec<(String, u32)> = Vec::new();
        let len = self.players.len();
        for k in 0..len
            invariant
                len == self.n(),
                self.wf(),
                ranking@.len() == k,
                scores_sorted(ranking@),
                ranking@.to_multiset() == ranking_entries(
                    self.players_seq().take(k as int),
                ).to_multiset(),
        {
            let nickname = self.players[k].nickname.clone();
            let score = self.players[k].score;
            let ghost entry = (nickname, score);
            let ghost before = ranking@;
            let mut pos: usize = 0;
            while pos < ranking.len() && ranking[pos].1 >= score
                invariant
                    ranking@ == before,
                    pos <= ranking@.len(),
                    forall|j: int| 0 <= j < pos ==> (#[trigger] ranking@[j]).1 >= score,
                decreases ranking@.len() - pos,
            {
                pos = pos + 1;
            }
            ranking.insert(pos, (nickname, score));
            proof {
                before.insert_ensures(pos as int, entry);
                assert(scores_sorted(ranking@)) by {
                    assert forall|x: int, y: int|
                        0 <= x < y < ranking@.len() implies (#[trigger] ranking@[x]).1 >= (
                    #[trigger] ranking@[y]).1 by {
                        if y <= pos {
                        } else if x >= pos {
                            if x > pos {
                                assert(ranking@[x] == before[x - 1]);
                            }
                            assert(ranking@[y] == before[y - 1]);
                            if x == pos && pos < before.len() {
                                assert(before[pos as int].1 < score);
                            }
                        } else {
                            assert(ranking@[x] == before[x]);
                            assert(ranking@[y] == before[y - 1]);
                            if pos < before.len() {
                                assert(before[pos as int].1 < score);
                            }
                        }
                    }
                }
                assert(ranking@.to_multiset() == ranking_entries(
                    self.players_seq().take(k + 1),
                ).to_multiset()) by {
                    assert(ranking@ == before.insert(pos as int, entry));
                    assert(ranking_entries(self.players_seq().take(k + 1)) =~= ranking_entries(
                        self.players_seq().take(k as int),
                    ).push(entry));
                    vstd::seq_lib::to_multiset_insert(before, pos as int, entry);
                    vstd::seq_lib::to_multiset_build(
                        ranking_entries(self.players_seq().take(k as int)),
                        entry,
                    );
                }
            }
        }
        proof {
            assert(self.players_seq().take(len as int) =~= self.players_seq());
        }
        ranking
    }
}

} // verus!
