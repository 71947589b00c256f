use match_server::mancala::play_match::{
    play_match, PlayerResponse, PlayerResponseError, Referee, Reply, Winner,
    CONNECTION_RETRY_COUNT, QUERY_RETRY_COUNT,
};
use match_server::mancala::{Board, Game};

fn answer(value: u8) -> Reply {
    Ok(PlayerResponse { value })
}

const SILENCES: [PlayerResponseError; 3] = [
    PlayerResponseError::SendFailed,
    PlayerResponseError::ReceiveFailed,
    PlayerResponseError::DidNotReceiveResponse,
];

#[test]
fn budgets_are_eight_and_two() {
    assert_eq!(CONNECTION_RETRY_COUNT, 8);
    assert_eq!(QUERY_RETRY_COUNT, 2);
}

#[test]
fn a_new_match_starts_on_the_standard_board_with_seat_zero() {
    let referee = Referee::new();
    assert_eq!(*referee.game(), Game::default());
    assert_eq!(referee.current_player(), 0);
    assert_eq!(referee.connection_retries(), 8);
    assert_eq!(referee.querying_retries(), 2);
    assert_eq!(referee.verdict(), None);
}

#[test]
fn a_bot_that_never_answers_is_given_up_after_exactly_eight_failures() {
    for silence in SILENCES {
        let mut referee = Referee::new();
        for failure in 1..8u8 {
            assert_eq!(referee.handle(Err(silence)), None);
            assert_eq!(referee.connection_retries(), 8 - failure);
            assert_eq!(referee.querying_retries(), 2);
            assert_eq!(referee.current_player(), 0);
            assert_eq!(*referee.game(), Game::default());
        }
        assert_eq!(referee.handle(Err(silence)), Some(Winner::ByDisqualification(0, true)));
    }
}

#[test]
fn recorded_silence_ends_the_match_with_the_eighth_failure() {
    for count in 0..8 {
        let replies: Vec<Reply> = vec![Err(PlayerResponseError::DidNotReceiveResponse); count];
        assert_eq!(play_match(&replies), None);
    }
    let replies: Vec<Reply> = vec![Err(PlayerResponseError::DidNotReceiveResponse); 8];
    assert_eq!(play_match(&replies), Some(Winner::ByDisqualification(0, true)));
    // What is recorded after the end of the match is not looked at.
    let mut replies: Vec<Reply> = vec![Err(PlayerResponseError::SendFailed); 8];
    replies.push(answer(0));
    assert_eq!(play_match(&replies), Some(Winner::ByDisqualification(0, true)));
}

#[test]
fn different_failures_to_answer_count_together() {
    let replies: Vec<Reply> = vec![
        Err(PlayerResponseError::SendFailed),
        Err(PlayerResponseError::ReceiveFailed),
        Err(PlayerResponseError::DidNotReceiveResponse),
        Err(PlayerResponseError::SendFailed),
        Err(PlayerResponseError::ReceiveFailed),
        Err(PlayerResponseError::DidNotReceiveResponse),
        Err(PlayerResponseError::SendFailed),
    ];
    assert_eq!(play_match(&replies), None);
    let mut replies = replies;
    replies.push(Err(PlayerResponseError::ReceiveFailed));
    assert_eq!(play_match(&replies), Some(Winner::ByDisqualification(0, true)));
}

#[test]
fn a_bot_that_never_sends_a_move_forfeits_after_exactly_two_answers() {
    let mut referee = Referee::new();
    assert_eq!(referee.handle(Err(PlayerResponseError::InvalidResponse)), None);
    assert_eq!(referee.querying_retries(), 1);
    assert_eq!(referee.connection_retries(), 2);
    assert_eq!(
        referee.handle(Err(PlayerResponseError::InvalidResponse)),
        Some(Winner::ByDisqualification(0, false))
    );

    let one: Vec<Reply> = vec![Err(PlayerResponseError::InvalidResponse)];
    assert_eq!(play_match(&one), None);
    let two: Vec<Reply> = vec![Err(PlayerResponseError::InvalidResponse); 2];
    assert_eq!(play_match(&two), Some(Winner::ByDisqualification(0, false)));
}

#[test]
fn an_unusable_answer_shortens_the_patience_with_silence() {
    // Seven failures leave one; the unusable answer then sets the budget to
    // two, so the second failure after it is the last.
    let mut replies: Vec<Reply> = vec![Err(PlayerResponseError::SendFailed); 3];
    replies.push(Err(PlayerResponseError::InvalidResponse));
    replies.push(Err(PlayerResponseError::SendFailed));
    assert_eq!(play_match(&replies), None);
    replies.push(Err(PlayerResponseError::SendFailed));
    assert_eq!(play_match(&replies), Some(Winner::ByDisqualification(0, true)));
}

#[test]
fn the_seat_that_fails_is_the_seat_that_loses() {
    // Seat 0 plays pit 0 and hands the turn to seat 1, which never answers.
    let mut replies: Vec<Reply> = vec![answer(0)];
    for _ in 0..8 {
        replies.push(Err(PlayerResponseError::DidNotReceiveResponse));
    }
    assert_eq!(play_match(&replies), Some(Winner::ByDisqualification(1, true)));

    let replies: Vec<Reply> = vec![
        answer(0),
        Err(PlayerResponseError::InvalidResponse),
        Err(PlayerResponseError::InvalidResponse),
    ];
    assert_eq!(play_match(&replies), Some(Winner::ByDisqualification(1, false)));
}

#[test]
fn failing_to_write_the_position_ends_the_match_in_a_tie() {
    let mut referee = Referee::new();
    assert_eq!(referee.handle(Err(PlayerResponseError::CouldNotSerialize)), Some(Winner::Tie));
    assert_eq!(referee.connection_retries(), 8);
    assert_eq!(referee.querying_retries(), 2);
    assert_eq!(*referee.game(), Game::default());

    let replies: Vec<Reply> = vec![answer(2), Err(PlayerResponseError::CouldNotSerialize)];
    assert_eq!(play_match(&replies), Some(Winner::Tie));
}

#[test]
fn a_valid_move_is_played_and_starts_a_new_turn() {
    let mut referee = Referee::new();
    assert_eq!(referee.handle(Err(PlayerResponseError::SendFailed)), None);
    assert_eq!(referee.handle(answer(9)), None);
    assert_eq!(referee.connection_retries(), 7);
    assert_eq!(referee.querying_retries(), 1);

    assert_eq!(referee.handle(answer(0)), None);
    assert_eq!(referee.current_player(), 1);
    assert_eq!(referee.connection_retries(), 8);
    assert_eq!(referee.querying_retries(), 2);
    assert_eq!(referee.game().boards, [Board([0, 5, 5, 5, 5, 4]), Board([4; 6])]);
    assert_eq!(referee.game().points, [0, 0]);
}

#[test]
fn a_combo_keeps_the_mover_in_turn() {
    let mut referee = Referee::new();
    assert_eq!(referee.handle(answer(2)), None);
    assert_eq!(referee.current_player(), 0);
    assert_eq!(referee.game().points, [1, 0]);
    assert_eq!(referee.game().boards, [Board([4, 4, 0, 5, 5, 5]), Board([4; 6])]);
}

#[test]
fn moves_against_the_rules_never_end_the_match() {
    let mut referee = Referee::new();
    for _ in 0..1000 {
        assert_eq!(referee.handle(answer(6)), None);
        assert_eq!(referee.handle(answer(255)), None);
    }
    assert_eq!(referee.querying_retries(), 0);
    assert_eq!(referee.connection_retries(), 8);
    assert_eq!(referee.current_player(), 0);
    assert_eq!(*referee.game(), Game::default());
    // A move that the rules allow is still taken.
    assert_eq!(referee.handle(answer(5)), None);
    assert_eq!(referee.current_player(), 1);
    assert_eq!(referee.querying_retries(), 2);
}

#[test]
fn one_move_against_the_rules_leaves_one_unusable_answer() {
    let replies: Vec<Reply> = vec![answer(12), Err(PlayerResponseError::InvalidResponse)];
    assert_eq!(play_match(&replies), Some(Winner::ByDisqualification(0, false)));
}

#[test]
fn an_unusable_answer_with_nothing_left_is_a_forfeit() {
    let replies: Vec<Reply> =
        vec![answer(12), answer(13), answer(14), Err(PlayerResponseError::InvalidResponse)];
    assert_eq!(play_match(&replies), Some(Winner::ByDisqualification(0, false)));
}

fn highest_valid_move(game: &Game, player: usize) -> u8 {
    (0..12u8).rev().find(|cell| game.is_move_valid(player as u8, *cell)).unwrap()
}

#[test]
fn a_game_played_to_the_end_is_won_by_points() {
    let mut game = Game::default();
    let mut player: usize = 0;
    let mut replies: Vec<Reply> = Vec::new();
    while !game.is_finished() {
        let cell = highest_valid_move(&game, player);
        replies.push(answer(cell));
        player = game.play(player, cell as usize);
        assert!(replies.len() < 100_000);
    }
    let expected = if game.points[0] == game.points[1] {
        Winner::Tie
    } else if game.points[0] > game.points[1] {
        Winner::FairAndSquare(0, game.points[0] - game.points[1])
    } else {
        Winner::FairAndSquare(1, game.points[1] - game.points[0])
    };
    assert_eq!(game.points[0] as u32 + game.points[1] as u32, 48);

    assert_eq!(play_match(&replies), Some(expected));
    // While a move is missing, the match is on.
    let all_but_one = replies[..replies.len() - 1].to_vec();
    assert_eq!(play_match(&all_but_one), None);
    // Failures in between do not change the game.
    let mut with_noise: Vec<Reply> = Vec::new();
    for reply in &replies {
        with_noise.push(Err(PlayerResponseError::ReceiveFailed));
        with_noise.push(answer(200));
        with_noise.push(*reply);
    }
    assert_eq!(play_match(&with_noise), Some(expected));
}

#[test]
fn the_referee_steps_through_a_whole_game() {
    let mut referee = Referee::new();
    let mut turns = 0;
    while referee.verdict().is_none() {
        let cell = highest_valid_move(referee.game(), referee.current_player());
        assert_eq!(referee.handle(answer(cell)), None);
        turns += 1;
        assert!(turns < 100_000);
    }
    assert!(referee.game().is_finished());
    let points = referee.game().points;
    match referee.verdict() {
        Some(Winner::Tie) => assert_eq!(points[0], points[1]),
        Some(Winner::FairAndSquare(0, delta)) => assert_eq!(points[0] - points[1], delta),
        Some(Winner::FairAndSquare(1, delta)) => assert_eq!(points[1] - points[0], delta),
        other => panic!("no result by points: {other:?}"),
    }
}

#[test]
fn a_match_can_start_from_any_board_that_bytes_can_count() {
    let referee = Referee::start(Game::with_stones(21)).unwrap();
    assert_eq!(*referee.game(), Game::with_stones(21));
    assert_eq!(referee.current_player(), 0);
    assert_eq!(referee.connection_retries(), 8);
    assert_eq!(referee.querying_retries(), 2);

    assert!(Referee::start(Game::with_stones(22)).is_none());
    let mut game = Game::with_stones(21);
    game.points = [2, 1];
    assert!(Referee::start(game).is_some());
    game.points = [2, 2];
    assert!(Referee::start(game).is_none());
}

#[test]
fn a_match_on_an_empty_board_is_a_tie_at_once() {
    let mut referee = Referee::start(Game::with_stones(0)).unwrap();
    assert_eq!(referee.verdict(), Some(Winner::Tie));
    // No move is valid any more; asking on is of no use.
    assert_eq!(referee.handle(answer(0)), None);
    assert_eq!(referee.querying_retries(), 1);
}

#[test]
fn a_finished_game_is_won_by_the_seat_with_more_points() {
    let mut game = Game::with_stones(0);
    game.points = [30, 18];
    assert_eq!(Referee::start(game).unwrap().verdict(), Some(Winner::FairAndSquare(0, 12)));
    game.points = [3, 45];
    assert_eq!(Referee::start(game).unwrap().verdict(), Some(Winner::FairAndSquare(1, 42)));
    game.points = [24, 24];
    assert_eq!(Referee::start(game).unwrap().verdict(), Some(Winner::Tie));
    game.points = [0, 255];
    assert_eq!(Referee::start(game).unwrap().verdict(), Some(Winner::FairAndSquare(1, 255)));
}

#[test]
fn the_mover_is_shown_its_own_side_first() {
    let mut referee = Referee::new();
    assert_eq!(referee.handle(answer(3)), None);
    assert_eq!(referee.current_player(), 1);
    assert_eq!(referee.game().boards, [Board([4, 4, 4, 0, 5, 5]), Board([5, 4, 4, 4, 4, 4])]);
    assert_eq!(referee.game().points, [1, 0]);

    let shown = referee.shown_to_mover();
    assert_eq!(shown.boards, [Board([5, 4, 4, 4, 4, 4]), Board([4, 4, 4, 0, 5, 5])]);
    assert_eq!(shown.points, [0, 1]);
}
