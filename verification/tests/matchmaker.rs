use match_server::mancala::play_match::Winner;
use match_server::mancala::Game;
use match_server::matchmaker::{
    can_launch, handle_match_ending_fair_and_square, is_anomaly, run_matches, settle, Rating,
    Settlement,
};
use match_server::server::app_state::{position_of, AppState, Bot, Match};

fn bot(id: u16, elo: u16) -> Bot {
    Bot { name: format!("bot-{id}"), id, elo, connected: true }
}

fn ids(bots: &Vec<Bot>) -> Vec<u16> {
    bots.iter().map(|bot| bot.id).collect()
}

fn seatings(matches: &Vec<Match>) -> Vec<(u16, u16)> {
    matches.iter().map(|seated| (seated.players[0].id, seated.players[1].id)).collect()
}

#[test]
fn bots_are_the_same_bot_by_id() {
    let mut renamed = bot(3, 1000);
    renamed.name = String::from("another name");
    renamed.elo = 7;
    renamed.connected = false;
    assert!(bot(3, 1000) == renamed);
    assert!(bot(3, 1000) != bot(4, 1000));
    let copy = renamed.clone();
    assert_eq!(copy.name, "another name");
    assert_eq!((copy.id, copy.elo, copy.connected), (3, 7, false));
}

#[test]
fn new_pools_are_empty() {
    let mut state = AppState::new();
    assert!(state.pending_bots().is_empty());
    assert!(state.connected_bots().is_empty());
    assert!(!state.is_logged_in(0));
    assert!(run_matches(&mut state).is_empty());
    assert!(!state.evict(0));
}

#[test]
fn a_bot_waits_once() {
    let mut state = AppState::new();
    assert!(state.enqueue(bot(1, 1000)));
    assert!(state.enqueue(bot(2, 1000)));
    assert!(!state.enqueue(bot(1, 50)));
    assert_eq!(ids(state.pending_bots()), vec![1, 2]);
    assert_eq!(state.pending_bots()[0].elo, 1000);
    assert!(state.is_logged_in(1));
    assert!(state.is_logged_in(2));
    assert!(!state.is_logged_in(3));

    assert!(run_matches(&mut state).is_empty());
    assert!(!state.enqueue(bot(2, 1000)));
    assert!(state.pending_bots().is_empty());
    assert_eq!(ids(state.connected_bots()), vec![1, 2]);
    assert!(state.is_logged_in(1));
}

#[test]
fn a_newcomer_meets_one_bot_twice_once_on_each_side() {
    let mut state = AppState::new();
    assert!(state.enqueue(bot(20, 1000)));
    assert!(run_matches(&mut state).is_empty());
    assert!(state.enqueue(bot(10, 1000)));

    let launched = run_matches(&mut state);

    assert_eq!(seatings(&launched), vec![(10, 20), (20, 10)]);
    for seated in &launched {
        assert_eq!(seated.game, Game::default());
    }
    assert!(state.pending_bots().is_empty());
    assert_eq!(ids(state.connected_bots()), vec![20, 10]);
}

#[test]
fn newcomers_meet_every_bot_of_the_pool_but_not_each_other() {
    let mut state = AppState::new();
    for id in [1, 2, 3] {
        assert!(state.enqueue(bot(id, 1000)));
    }
    assert!(run_matches(&mut state).is_empty());
    assert_eq!(ids(state.connected_bots()), vec![1, 2, 3]);
    for id in [7, 8] {
        assert!(state.enqueue(bot(id, 1000)));
    }

    let launched = run_matches(&mut state);

    assert_eq!(
        seatings(&launched),
        vec![
            (7, 1), (1, 7), (7, 2), (2, 7), (7, 3), (3, 7),
            (8, 1), (1, 8), (8, 2), (2, 8), (8, 3), (3, 8),
        ]
    );
    assert!(seatings(&launched).iter().all(|(first, second)| first != second));
    assert!(state.pending_bots().is_empty());
    assert_eq!(ids(state.connected_bots()), vec![1, 2, 3, 7, 8]);

    // Nobody waits: the next pass launches nothing and changes nothing.
    assert!(run_matches(&mut state).is_empty());
    assert_eq!(ids(state.connected_bots()), vec![1, 2, 3, 7, 8]);
}

#[test]
fn matches_carry_the_bots_as_they_are() {
    let mut state = AppState::new();
    assert!(state.enqueue(Bot { name: String::from("old"), id: 5, elo: 900, connected: true }));
    run_matches(&mut state);
    assert!(state.enqueue(Bot { name: String::from("new"), id: 6, elo: 1100, connected: false }));

    let launched = run_matches(&mut state);

    assert_eq!(launched.len(), 2);
    let seated = &launched[0];
    assert_eq!(seated.players[0].name, "new");
    assert_eq!(seated.players[0].elo, 1100);
    assert!(!seated.players[0].connected);
    assert_eq!(seated.players[1].name, "old");
    assert_eq!(seated.players[1].elo, 900);
    assert!(!can_launch(&seated.players[0], &seated.players[1]));
    assert!(!can_launch(&seated.players[1], &seated.players[0]));
    assert!(can_launch(&seated.players[1], &seated.players[1]));
}

#[test]
fn eviction_takes_a_bot_out_of_the_pool_only() {
    let mut state = AppState::new();
    for id in [1, 2, 3] {
        assert!(state.enqueue(bot(id, 1000)));
    }
    run_matches(&mut state);
    assert!(state.enqueue(bot(4, 1000)));

    // A bot that still waits is not in the pool yet.
    assert!(!state.evict(4));
    assert_eq!(ids(state.pending_bots()), vec![4]);
    assert_eq!(ids(state.connected_bots()), vec![1, 2, 3]);

    assert!(state.evict(2));
    assert_eq!(ids(state.connected_bots()), vec![1, 3]);
    assert_eq!(ids(state.pending_bots()), vec![4]);
    assert!(!state.is_logged_in(2));
    assert!(!state.evict(2));

    // After the next pass it is, and the evicted bot may come back.
    assert_eq!(seatings(&run_matches(&mut state)), vec![(4, 1), (1, 4), (4, 3), (3, 4)]);
    assert!(state.evict(4));
    assert!(state.enqueue(bot(2, 1000)));
    assert_eq!(ids(state.connected_bots()), vec![1, 3]);
    assert_eq!(ids(state.pending_bots()), vec![2]);
}

#[test]
fn position_of_finds_the_bot_with_the_id() {
    let bots = vec![bot(9, 1), bot(4, 2), bot(7, 3)];
    assert_eq!(position_of(&bots, 9), Some(0));
    assert_eq!(position_of(&bots, 4), Some(1));
    assert_eq!(position_of(&bots, 7), Some(2));
    assert_eq!(position_of(&bots, 5), None);
    assert_eq!(position_of(&Vec::new(), 5), None);
}

#[test]
fn winner_gains_and_loser_loses_the_margin() {
    let ratings = handle_match_ending_fair_and_square(&bot(1, 1000), &bot(2, 990), 12);
    assert_eq!(ratings, (Rating { id: 1, elo: 1012 }, Rating { id: 2, elo: 978 }));
}

#[test]
fn ratings_stop_at_the_ends_of_the_range() {
    let ratings = handle_match_ending_fair_and_square(&bot(1, u16::MAX), &bot(2, 0), 48);
    assert_eq!(ratings, (Rating { id: 1, elo: u16::MAX }, Rating { id: 2, elo: 0 }));

    let ratings = handle_match_ending_fair_and_square(&bot(1, u16::MAX - 5), &bot(2, 5), 6);
    assert_eq!(ratings, (Rating { id: 1, elo: u16::MAX }, Rating { id: 2, elo: 0 }));

    let ratings = handle_match_ending_fair_and_square(&bot(1, u16::MAX - 5), &bot(2, 5), 5);
    assert_eq!(ratings, (Rating { id: 1, elo: u16::MAX }, Rating { id: 2, elo: 0 }));

    let ratings = handle_match_ending_fair_and_square(&bot(1, u16::MAX - 5), &bot(2, 5), 4);
    assert_eq!(ratings, (Rating { id: 1, elo: u16::MAX - 1 }, Rating { id: 2, elo: 1 }));

    let ratings = handle_match_ending_fair_and_square(&bot(1, 0), &bot(2, u16::MAX), 255);
    assert_eq!(ratings, (Rating { id: 1, elo: 255 }, Rating { id: 2, elo: u16::MAX - 255 }));
}

#[test]
fn a_win_by_points_rates_both_bots() {
    let first = bot(11, 1000);
    let second = bot(22, 1500);
    assert_eq!(
        settle(&first, &second, Winner::FairAndSquare(0, 10)),
        Settlement::Rate(Rating { id: 11, elo: 1010 }, Rating { id: 22, elo: 1490 })
    );
    assert_eq!(
        settle(&first, &second, Winner::FairAndSquare(1, 10)),
        Settlement::Rate(Rating { id: 22, elo: 1510 }, Rating { id: 11, elo: 990 })
    );
}

#[test]
fn a_tie_changes_nothing() {
    assert_eq!(settle(&bot(11, 1000), &bot(22, 1500), Winner::Tie), Settlement::Nothing);
}

#[test]
fn a_bot_that_was_given_up_leaves_only_if_the_outcome_says_so() {
    let first = bot(11, 1000);
    let second = bot(22, 1500);
    assert_eq!(settle(&first, &second, Winner::ByDisqualification(0, true)), Settlement::Evict(11));
    assert_eq!(settle(&first, &second, Winner::ByDisqualification(1, true)), Settlement::Evict(22));
    assert_eq!(settle(&first, &second, Winner::ByDisqualification(0, false)), Settlement::Nothing);
    assert_eq!(settle(&first, &second, Winner::ByDisqualification(1, false)), Settlement::Nothing);
}

#[test]
fn only_one_changed_record_is_in_order() {
    assert!(is_anomaly(0));
    assert!(!is_anomaly(1));
    assert!(is_anomaly(2));
    assert!(is_anomaly(usize::MAX));
}

#[test]
fn a_match_seats_two_bots_at_a_fresh_board() {
    let seated = Match::new(bot(1, 1000), bot(2, 1200));
    assert_eq!(seated.game, Game::default());
    assert_eq!((seated.players[0].id, seated.players[0].elo), (1, 1000));
    assert_eq!((seated.players[1].id, seated.players[1].elo), (2, 1200));

    let copy = seated.clone();
    assert_eq!(copy.game, seated.game);
    assert_eq!(copy.players[0].name, "bot-1");
    assert_eq!(copy.players[1].name, "bot-2");
    assert_eq!((copy.players[1].id, copy.players[1].elo), (2, 1200));
}
