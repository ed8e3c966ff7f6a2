//! The guessing phase for one answered question: players take turns in a
//! shuffled order; the answerer's turn is an inert placeholder so that turn
//! order reveals nothing; every other player is asked for a guess, which is
//! re-requested until it parses as an id of the roster other than the
//! guesser's own.

use vstd::prelude::*;

use crate::game::Game;
use crate::game::id_seq;
use crate::pairing::lemma_same_multiset_as_ids;
use crate::pairing::shuffle_ids;

verus! {

broadcast use crate::game::lemma_players_view, crate::game::lemma_next_id_view;

/// True when every byte of `s` is an ASCII digit.
pub open spec fn all_digits(s: Seq<u8>) -> bool {
    forall|i: int| 0 <= i < s.len() ==> 48 <= #[trigger] s[i] <= 57
}

/// The number denoted by a digit string, most significant digit first.
pub open spec fn digits_val(s: Seq<u8>) -> int
    recommends
        all_digits(s),
    decreases s.len(),
{
    if s.len() == 0 {
        0
    } else {
        digits_val(s.drop_last()) * 10 + s.last() - 48
    }
}

/// How a player id is read from a typed line, exactly as `u8::from_str`
/// accepts it: an optional leading '+', then at least one ASCII digit, all
/// of the line, denoting a value of at most 255.
pub open spec fn parse_id_spec(s: Seq<u8>) -> Option<u8> {
    let t = if s.len() > 0 && s[0] == 43 {
        s.drop_first()
    } else {
        s
    };
    if t.len() > 0 && all_digits(t) && 0 <= digits_val(t) <= 255 {
        Some(digits_val(t) as u8)
    } else {
        None
    }
}

/// The value of a digit string is non-negative.
proof fn lemma_digits_val_nonneg(s: Seq<u8>)
    requires
        all_digits(s),
    ensures
        digits_val(s) >= 0,
    decreases s.len(),
{
    if s.len() > 0 {
        assert(all_digits(s.drop_last()));
        lemma_digits_val_nonneg(s.drop_last());
    }
}

/// Extending a digit string never decreases its value.
proof fn lemma_digits_val_prefix_le(s: Seq<u8>, k: int)
    requires
        all_digits(s),
        0 <= k <= s.len(),
    ensures
        digits_val(s.take(k)) <= digits_val(s),
    decreases s.len() - k,
{
    if k < s.len() {
        assert(s.take(k + 1).drop_last() =~= s.take(k));
        assert(s.take(k + 1).last() == s[k]);
        assert(all_digits(s.take(k)));
        assert(all_digits(s.take(k + 1)));
        lemma_digits_val_nonneg(s.take(k));
        assert(digits_val(s.take(k)) <= digits_val(s.take(k + 1)));
        lemma_digits_val_prefix_le(s, k + 1);
    } else {
        assert(s.take(k) =~= s);
    }
}

/// Read a player id from a typed line, accepting exactly what
/// `u8::from_str` accepts: an optional leading '+', then one or more ASCII
/// digits denoting a value that fits in a `u8`.
pub fn parse_player_id(input: &Vec<u8>) -> (r: Option<u8>)
    ensures
        r == parse_id_spec(input@),
{
    let ghost s = input@;
    let len = input.len();
    let start: usize = if len > 0 && input[0] == 43 {
        1
    } else {
        0
    };
    let ghost t = s.subrange(start as int, len as int);
    proof {
        assert(t =~= if s.len() > 0 && s[0] == 43 {
            s.drop_first()
        } else {
            s
        });
    }
    if len == start {
        return None;
    }
    let mut acc: u32 = 0;
    for i in start..len
        invariant
            s == input@,
            len == s.len(),
            start == (if s.len() > 0 && s[0] == 43 {
                1int
            } else {
                0int
            }),
            start <= i <= len,
            t == s.subrange(start as int, len as int),
            t == (if s.len() > 0 && s[0] == 43 {
                s.drop_first()
            } else {
                s
            }),
            all_digits(t.take(i - start)),
            acc == digits_val(t.take(i - start)),
            acc <= 255,
    {
        let b = input[i];
        proof {
            assert(t.take(i + 1 - start).drop_last() =~= t.take(i - start));
            assert(t.take(i + 1 - start).last() == s[i as int]);
        }
        if b < 48 || b > 57 {
            proof {
                assert(t[i - start] == b);
                assert(!all_digits(t));
            }
            return None;
        }
        let d = (b - 48) as u32;
        acc = acc * 10 + d;
        if acc > 255 {
            proof {
                assert(all_digits(t.take(i + 1 - start)));
                assert(digits_val(t.take(i + 1 - start)) == acc);
                if all_digits(t) {
                    lemma_digits_val_prefix_le(t, i + 1 - start);
                    assert(digits_val(t) > 255);
                }
            }
            return None;
        }
    }
    proof {
        assert(t.take(len - start) =~= t);
    }
    Some(acc as u8)
}

/// The outcome of offering one typed line during a guessing turn.
#[derive(Clone, Copy, Debug, PartialEq, Eq, Structural)]
pub enum GuessOutcome {
    /// The line named a registered player other than the guesser: the guess
    /// stands and the turn is over.
    Valid(u8),
    /// The line named the guesser: players may not guess themselves.
    SelfGuess,
    /// The line did not parse as the id of a registered player.
    NotAnId,
    /// The player at turn is the answerer: the line is discarded unread and
    /// the turn is over.
    Ignored,
}

/// How one typed line is judged for a guessing player: it must parse as an
/// id, the id must be registered, and it must differ from the guesser's own.
pub open spec fn guess_outcome(n: nat, guesser: u8, input: Seq<u8>) -> GuessOutcome {
    match parse_id_spec(input) {
        Option::None => GuessOutcome::NotAnId,
        Option::Some(g) => if g >= n {
            GuessOutcome::NotAnId
        } else if g == guesser {
            GuessOutcome::SelfGuess
        } else {
            GuessOutcome::Valid(g)
        },
    }
}

impl Game {
    /// Judge one typed line as a guess by `guesser`, exactly as
    /// `guess_outcome` says.
    pub fn validate_guess(&self, guesser: u8, input: &Vec<u8>) -> (r: GuessOutcome)
        requires
            self.wf(),
        ensures
            r == guess_outcome(self.n(), guesser, input@),
    {
        match parse_player_id(input) {
            None => GuessOutcome::NotAnId,
            Some(g) => {
                if (g as usize) >= self.players.len() {
                    GuessOutcome::NotAnId
                } else if g == guesser {
                    GuessOutcome::SelfGuess
                } else {
                    GuessOutcome::Valid(g)
                }
            },
        }
    }
}

/// The players who made the guesses, in turn order.
pub open spec fn guessers_of(guesses: Seq<(u8, u8)>) -> Seq<u8> {
    guesses.map_values(|g: (u8, u8)| g.0)
}

/// Holds of every player but the answerer.
pub open spec fn non_answerer(answered_by: u8) -> spec_fn(u8) -> bool {
    |p: u8| p != answered_by
}

/// The guessing phase for one answered question, stepped one turn at a time
/// by the caller, who performs the surrounding interaction.
pub struct GuessingRound {
    answered_by: u8,
    order: Vec<u8>,
    pos: usize,
    guesses: Vec<(u8, u8)>,
}

impl GuessingRound {
    /// The id of the player who answered the question under discussion.
    pub closed spec fn spec_answered_by(self) -> u8 {
        self.answered_by
    }

    /// The shuffled order in which players take their turns.
    pub closed spec fn order_seq(self) -> Seq<u8> {
        self.order@
    }

    /// How many turns have been completed.
    pub closed spec fn spec_pos(self) -> int {
        self.pos as int
    }

    /// The (guesser, guessed) pairs collected so far, in turn order.
    pub closed spec fn guesses_seq(self) -> Seq<(u8, u8)> {
        self.guesses@
    }

    /// Well-formedness against a roster of `n` players: the turn order
    /// visits every id exactly once; the guessers so far are exactly the
    /// players already visited other than the answerer, in turn order; and
    /// every collected guess was made by a registered player other than the
    /// answerer, names a registered player, and is no self-guess.
    pub open spec fn wf(self, n: nat) -> bool {
        &&& n <= 255
        &&& self.spec_answered_by() < n
        &&& self.order_seq().to_multiset() == id_seq(n).to_multiset()
        &&& 0 <= self.spec_pos() <= self.order_seq().len()
        &&& guessers_of(self.guesses_seq()) == self.order_seq().take(self.spec_pos()).filter(
            non_answerer(self.spec_answered_by()),
        )
        &&& forall|i: int|
            0 <= i < self.guesses_seq().len() ==> {
                let g = #[trigger] self.guesses_seq()[i];
                g.0 < n && g.1 < n && g.0 != self.spec_answered_by() && g.1 != g.0
            }
    }

    /// Open a guessing round for the answered question of `answered_by`,
    /// drawing a fresh random turn order over the roster.
    pub fn new(game: &Game, answered_by: u8) -> (r: GuessingRound)
        requires
            game.wf(),
            game.n() >= 1,
            answered_by < game.n(),
        ensures
            r.wf(game.n()),
            r.spec_answered_by() == answered_by,
            r.spec_pos() == 0,
            r.order_seq().len() == game.n(),
            r.guesses_seq() == Seq::<(u8, u8)>::empty(),
    {
        let mut order = game.player_ids();
        shuffle_ids(&mut order);
        proof {
            lemma_same_multiset_as_ids(order@, game.n());
            reveal(Seq::filter);
            assert(order@.take(0).filter(non_answerer(answered_by)) =~= Seq::<u8>::empty());
            assert(guessers_of(Seq::<(u8, u8)>::empty()) =~= Seq::<u8>::empty());
        }
        GuessingRound { answered_by, order, pos: 0, guesses: Vec::new() }
    }

    /// The player whose turn it is, or None when every turn is over.
    pub fn current(&self) -> (r: Option<u8>)
        ensures
            r == if self.spec_pos() < self.order_seq().len() {
                Some(self.order_seq()[self.spec_pos()])
            } else {
                None::<u8>
            },
    {
        if self.pos < self.order.len() {
            Some(self.order[self.pos])
        } else {
            None
        }
    }

    /// Offer one typed line for the current turn. The answerer's line is
    /// discarded unread and their turn ends. A guessing player's line is
    /// judged by `guess_outcome`: a valid guess is recorded and ends the
    /// turn; anything else leaves the round unchanged so the same player
    /// can be asked again.
    pub fn submit(&mut self, game: &Game, input: &Vec<u8>) -> (r: GuessOutcome)
        requires
            game.wf(),
            old(self).wf(game.n()),
            old(self).spec_pos() < old(self).order_seq().len(),
        ensures
            final(self).wf(game.n()),
            final(self).spec_answered_by() == old(self).spec_answered_by(),
            final(self).order_seq() == old(self).order_seq(),
            ({
                let p = old(self).order_seq()[old(self).spec_pos()];
                if p == old(self).spec_answered_by() {
                    r == GuessOutcome::Ignored
                        && final(self).guesses_seq() == old(self).guesses_seq()
                        && final(self).spec_pos() == old(self).spec_pos() + 1
                } else {
                    r == guess_outcome(game.n(), p, input@) && match r {
                        GuessOutcome::Valid(g) => {
                            final(self).guesses_seq() == old(self).guesses_seq().push((p, g))
                                && final(self).spec_pos() == old(self).spec_pos() + 1
                        },
                        _ => *final(self) == *old(self),
                    }
                }
            }),
    {
        proof {
            lemma_same_multiset_as_ids(self.order@, game.n());
        }
        let ghost ord = self.order@;
        let ghost pos0 = self.pos as int;
        let ghost gs0 = self.guesses@;
        let ghost ab = self.answered_by;
        let ghost pred = non_answerer(ab);
        let p = self.order[self.pos];
        if p == self.answered_by {
            self.pos = self.pos + 1;
            proof {
                reveal(Seq::filter);
                assert(ord.take(pos0 + 1).drop_last() =~= ord.take(pos0));
                assert(ord.take(pos0 + 1).last() == p);
                assert(!pred(p));
                assert(ord.take(pos0 + 1).filter(pred) == ord.take(pos0).filter(pred));
            }
            GuessOutcome::Ignored
        } else {
            let outcome = game.validate_guess(p, input);
            match outcome {
                GuessOutcome::Valid(g) => {
                    self.guesses.push((p, g));
                    self.pos = self.pos + 1;
                    proof {
                        reveal(Seq::filter);
                        assert(ord.take(pos0 + 1).drop_last() =~= ord.take(pos0));
                        assert(ord.take(pos0 + 1).last() == p);
                        assert(pred(p));
                        assert(ord.take(pos0 + 1).filter(pred) == ord.take(pos0).filter(
                            pred,
                        ).push(p));
                        assert(guessers_of(gs0.push((p, g))) =~= guessers_of(gs0).push(p));
                    }
                },
                _ => {},
            }
            outcome
        }
    }

    /// Whether every player has taken their turn.
    pub fn done(&self) -> (r: bool)
        ensures
            r == (self.spec_pos() == self.order_seq().len()),
    {
        self.pos == self.order.len()
    }

    /// Close the round and hand back the collected guesses.
    pub fn into_guesses(self) -> (r: Vec<(u8, u8)>)
        ensures
            r@ == self.guesses_seq(),
    {
        self.guesses
    }
}

/// Law: the answering player is never among the guessers of their own
/// answered question — no collected guess of a well-formed round was made
/// by the answerer.
pub proof fn lemma_answerer_never_guesses(r: GuessingRound, n: nat)
    requires
        r.wf(n),
    ensures
        forall|i: int|
            0 <= i < r.guesses_seq().len() ==> (#[trigger] r.guesses_seq()[i]).0
                != r.spec_answered_by(),
{
}

} // verus!
