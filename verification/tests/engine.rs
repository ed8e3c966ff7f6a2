use whowroteit::game::Game;
use whowroteit::guessing::GuessOutcome;
use whowroteit::guessing::GuessingRound;
use whowroteit::guessing::parse_player_id;
use whowroteit::orchestrator::Phase;
use whowroteit::orchestrator::ROUND_COUNT;
use whowroteit::orchestrator::initial_phase;
use whowroteit::orchestrator::next_phase;
use whowroteit::pairing::rotation_pairs;
use whowroteit::players::Question;

fn roster(names: &[&str]) -> Game {
    let mut game = Game::new();
    for name in names {
        game.add_new_player(name.to_string());
    }
    game
}

#[test]
fn registry_assigns_sequential_ids() {
    let game = roster(&["Joe", "Bob", "Fred"]);
    assert_eq!(game.player_ids(), vec![0, 1, 2]);
    assert_eq!(game.nickname_of(0), "Joe");
    assert_eq!(game.nickname_of(1), "Bob");
    assert_eq!(game.nickname_of(2), "Fred");
    assert_eq!(game.score_of(0), 0);
    assert_eq!(game.score_of(1), 0);
    assert_eq!(game.score_of(2), 0);
    assert_eq!(game.pending_prompt(0), None);
}

#[test]
fn rotation_follows_the_permutation() {
    // The permutation [2, 0, 1] pairs asker 2 with responder 0, asker 0
    // with responder 1, and asker 1 with responder 2.
    let pairs = rotation_pairs(&vec![2, 0, 1]);
    assert_eq!(pairs, vec![(1, 2), (2, 0), (0, 1)]);
}

#[test]
fn rotation_of_single_player_self_pairs() {
    let pairs = rotation_pairs(&vec![0]);
    assert_eq!(pairs, vec![(0, 0)]);
}

#[test]
fn random_pairing_is_a_rotation() {
    let game = roster(&["Joe", "Bob", "Fred", "Ann"]);
    let pairs = game.generate_player_pairs();
    assert_eq!(pairs.len(), 4);
    let mut askers: Vec<u8> = pairs.iter().map(|p| p.0).collect();
    let mut responders: Vec<u8> = pairs.iter().map(|p| p.1).collect();
    askers.sort();
    responders.sort();
    assert_eq!(askers, vec![0, 1, 2, 3]);
    assert_eq!(responders, vec![0, 1, 2, 3]);
    for (asker, responder) in pairs {
        assert_ne!(asker, responder);
    }
}

#[test]
fn two_player_pairing_never_self_pairs() {
    let game = roster(&["Joe", "Bob"]);
    for _ in 0..20 {
        for (asker, responder) in game.generate_player_pairs() {
            assert_ne!(asker, responder);
        }
    }
}

#[test]
fn pend_questions_assigns_every_player_a_foreign_question() {
    let mut game = roster(&["Joe", "Bob", "Fred"]);
    let prompts = vec!["a?".to_string(), "b?".to_string(), "c?".to_string()];
    game.pend_questions(&prompts);
    for id in game.player_ids() {
        let prompt = game.pending_prompt(id).expect("every player holds a question");
        assert!(prompts.contains(&prompt));
    }
}

#[test]
fn answers_cover_the_roster_once_each() {
    let mut game = roster(&["Joe", "Bob", "Fred"]);
    let prompts = vec!["a?".to_string(), "b?".to_string(), "c?".to_string()];
    game.pend_questions_with_order(&vec![2, 0, 1], &prompts);
    let responses = vec!["ra".to_string(), "rb".to_string(), "rc".to_string()];
    let answers = game.input_answers(&responses);
    assert_eq!(answers.len(), 3);
    for (i, answer) in answers.iter().enumerate() {
        assert_eq!(answer.answered_by as usize, i);
        assert_eq!(answer.answer, responses[i]);
    }
    for id in game.player_ids() {
        assert_eq!(game.pending_prompt(id), None);
    }
}

#[test]
fn end_to_end_round_awards_the_correct_guesser() {
    // Roster Joe, Bob, Fred -> ids 0, 1, 2; permutation [2, 0, 1], so
    // player 0's question goes to player 1, player 1's to player 2, and
    // player 2's to player 0.
    let mut game = roster(&["Joe", "Bob", "Fred"]);
    let prompts = vec![
        "What's your favorite color?".to_string(),
        "b?".to_string(),
        "c?".to_string(),
    ];
    game.pend_questions_with_order(&vec![2, 0, 1], &prompts);
    assert_eq!(game.pending_prompt(1).unwrap(), "What's your favorite color?");
    let responses = vec!["ra".to_string(), "Blue".to_string(), "rc".to_string()];
    let answers = game.input_answers(&responses);
    let answered = &answers[1];
    assert_eq!(answered.question.author, 0);
    assert_eq!(answered.question.prompt, "What's your favorite color?");
    assert_eq!(answered.answered_by, 1);
    assert_eq!(answered.answer, "Blue");
    // Player 2 guesses 1 (correct), player 0 guesses 2 (incorrect).
    game.apply_guesses(answered.answered_by, &vec![(2, 1), (0, 2)]);
    assert_eq!(game.score_of(2), 1);
    assert_eq!(game.score_of(0), 0);
    assert_eq!(game.score_of(1), 0);
    assert_eq!(game.nickname_of(answered.answered_by), "Bob");
}

#[test]
fn invalid_guesses_are_rejected_until_a_valid_id_arrives() {
    // Guesser is player 1: "x" and "99" name no player, "1" is a
    // disallowed self-guess; only then is a distinct id accepted.
    let game = roster(&["Joe", "Bob", "Fred"]);
    assert_eq!(game.validate_guess(1, &b"x".to_vec()), GuessOutcome::NotAnId);
    assert_eq!(game.validate_guess(1, &b"99".to_vec()), GuessOutcome::NotAnId);
    assert_eq!(game.validate_guess(1, &b"1".to_vec()), GuessOutcome::SelfGuess);
    assert_eq!(game.validate_guess(1, &b"2".to_vec()), GuessOutcome::Valid(2));
}

#[test]
fn guessing_round_skips_the_answerer_and_reprompts() {
    let game = roster(&["Joe", "Bob", "Fred"]);
    let mut round = GuessingRound::new(&game, 0);
    while !round.done() {
        let player = round.current().unwrap();
        if player == 0 {
            // The answerer types a decoy line; it is discarded unread.
            assert_eq!(round.submit(&game, &b"7".to_vec()), GuessOutcome::Ignored);
        } else {
            // An unparsable line is rejected and the same player stays at
            // turn, then a valid guess ends the turn.
            assert_eq!(round.submit(&game, &b"zz".to_vec()), GuessOutcome::NotAnId);
            assert_eq!(round.current().unwrap(), player);
            assert_eq!(round.submit(&game, &b"0".to_vec()), GuessOutcome::Valid(0));
        }
    }
    let mut guesses = round.into_guesses();
    guesses.sort();
    assert_eq!(guesses, vec![(1, 0), (2, 0)]);
}

#[test]
fn each_correct_guess_scores_exactly_one_point() {
    let mut game = roster(&["Joe", "Bob", "Fred"]);
    game.apply_guesses(2, &vec![(0, 2), (1, 0)]);
    assert_eq!(game.score_of(0), 1);
    assert_eq!(game.score_of(1), 0);
    assert_eq!(game.score_of(2), 0);
}

#[test]
fn do_guesses_accumulates_over_the_round() {
    let mut game = roster(&["Joe", "Bob", "Fred"]);
    let answers = vec![
        Question::new(0, "a?".to_string()).respond(1, "ra".to_string()),
        Question::new(1, "b?".to_string()).respond(2, "rb".to_string()),
    ];
    let all_guesses = vec![
        vec![(0, 1), (2, 1)],  // both guess answerer 1: two correct
        vec![(0, 2), (1, 0)],  // player 0 finds answerer 2, player 1 misses
    ];
    game.do_guesses(&answers, &all_guesses);
    assert_eq!(game.score_of(0), 2);
    assert_eq!(game.score_of(1), 0);
    assert_eq!(game.score_of(2), 1);
}

#[test]
fn parse_accepts_exactly_u8_literals() {
    assert_eq!(parse_player_id(&b"0".to_vec()), Some(0));
    assert_eq!(parse_player_id(&b"2".to_vec()), Some(2));
    assert_eq!(parse_player_id(&b"007".to_vec()), Some(7));
    assert_eq!(parse_player_id(&b"+2".to_vec()), Some(2));
    assert_eq!(parse_player_id(&b"255".to_vec()), Some(255));
    assert_eq!(parse_player_id(&b"256".to_vec()), None);
    assert_eq!(parse_player_id(&b"999999999999999999".to_vec()), None);
    assert_eq!(parse_player_id(&b"".to_vec()), None);
    assert_eq!(parse_player_id(&b"+".to_vec()), None);
    assert_eq!(parse_player_id(&b"12a".to_vec()), None);
    assert_eq!(parse_player_id(&b"-1".to_vec()), None);
    assert_eq!(parse_player_id(&b" 1".to_vec()), None);
}

#[test]
fn final_ranking_is_sorted_by_score_descending() {
    let mut game = roster(&["Joe", "Bob", "Fred"]);
    // Bob earns two points, Fred one.
    game.apply_guesses(0, &vec![(1, 0)]);
    game.apply_guesses(0, &vec![(1, 0), (2, 0)]);
    let ranking = game.final_ranking();
    assert_eq!(
        ranking,
        vec![
            ("Bob".to_string(), 2),
            ("Fred".to_string(), 1),
            ("Joe".to_string(), 0),
        ]
    );
}

#[test]
fn final_ranking_keeps_registration_order_on_ties() {
    let game = roster(&["Joe", "Bob", "Fred"]);
    let ranking = game.final_ranking();
    assert_eq!(
        ranking,
        vec![
            ("Joe".to_string(), 0),
            ("Bob".to_string(), 0),
            ("Fred".to_string(), 0),
        ]
    );
}

#[test]
fn roster_holds_up_to_255_players() {
    let mut game = Game::new();
    for i in 0..255u32 {
        game.add_new_player(format!("p{}", i));
    }
    let ids = game.player_ids();
    assert_eq!(ids.len(), 255);
    assert_eq!(ids[254], 254);
    assert_eq!(game.nickname_of(254), "p254");
}

#[test]
fn two_player_questions_cross_over() {
    let mut game = roster(&["Joe", "Bob"]);
    let prompts = vec!["from joe?".to_string(), "from bob?".to_string()];
    game.pend_questions_with_order(&vec![0, 1], &prompts);
    // Rotation on [0, 1]: 1 asks 0, 0 asks 1.
    assert_eq!(game.pending_prompt(0).unwrap(), "from bob?");
    assert_eq!(game.pending_prompt(1).unwrap(), "from joe?");
}

#[test]
fn phases_run_three_strictly_sequential_rounds() {
    assert_eq!(ROUND_COUNT, 3);
    let mut phase = initial_phase();
    for round in 1..=3u8 {
        assert_eq!(phase, Phase::RoundStart(round));
        phase = next_phase(phase);
        assert_eq!(phase, Phase::Pairing(round));
        phase = next_phase(phase);
        assert_eq!(phase, Phase::Questioning(round));
        phase = next_phase(phase);
        assert_eq!(phase, Phase::Answering(round));
        phase = next_phase(phase);
        assert_eq!(phase, Phase::Guessing(round));
        phase = next_phase(phase);
        assert_eq!(phase, Phase::RoundEnd(round));
        phase = next_phase(phase);
    }
    assert_eq!(phase, Phase::Finished);
    assert_eq!(next_phase(phase), Phase::Finished);
}
