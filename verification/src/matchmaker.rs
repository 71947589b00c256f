//! Pairing bots for matches, and what a finished match does to ratings and
//! pools.
//!
//! A pass of the matchmaker takes every bot that waits for its first matches,
//! seats it against every bot that has had them, once on each side of the
//! board, and then lets it join those bots. Two bots that come in the same
//! pass are not seated against each other.

use vstd::prelude::*;

use crate::mancala::play_match::{opening, Winner};
use crate::server::app_state::{distinct, holds, position_of, AppState, Bot, Match};

verus! {

/// The two games of `newcomer` against each of `others`: first with the
/// newcomer moving first, then with the other bot moving first.
pub open spec fn against(newcomer: Bot, others: Seq<Bot>) -> Seq<(Bot, Bot)>
    decreases others.len(),
{
    if others.len() == 0 {
        Seq::empty()
    } else {
        against(newcomer, others.drop_last()).push((newcomer, others.last())).push(
            (others.last(), newcomer),
        )
    }
}

/// The games that a pass launches, in order: those of the first newcomer
/// against all of `others`, then those of the second, and so on.
pub open spec fn pairings(newcomers: Seq<Bot>, others: Seq<Bot>) -> Seq<(Bot, Bot)>
    decreases newcomers.len(),
{
    if newcomers.len() == 0 {
        Seq::empty()
    } else {
        pairings(newcomers.drop_last(), others) + against(newcomers.last(), others)
    }
}

/// Who sits where in each of `matches`: the first mover, then the second.
pub open spec fn seats(matches: Seq<Match>) -> Seq<(Bot, Bot)> {
    matches.map_values(|seated: Match| (seated.players[0], seated.players[1]))
}

/// One pass of the matchmaker. Returns the matches to launch, in order.
///
/// Every bot that waited joins the bots that newcomers are matched against,
/// behind those that are there, and nobody waits any more.
pub fn run_matches(state: &mut AppState) -> (launched: Vec<Match>)
    requires
        old(state).wf(),
    ensures
        final(state).wf(),
        final(state).pending() == Seq::<Bot>::empty(),
        final(state).connected() == old(state).connected() + old(state).pending(),
        seats(launched@) == pairings(old(state).pending(), old(state).connected()),
        forall|k: int|
            0 <= k < launched.len() ==> (#[trigger] launched[k]).game@ == opening().position,
{
    proof {
        state.lemma_pools();
    }
    let mut pending_bots: Vec<Bot> = Vec::new();
    core::mem::swap(&mut state.pending_bots, &mut pending_bots);
    let ghost newcomers = pending_bots@;
    let ghost others = state.connected_bots@;
    let known: usize = state.connected_bots.len();

    let mut launched: Vec<Match> = Vec::new();
    assert(seats(launched@) =~= Seq::<(Bot, Bot)>::empty());
    assert(state.connected_bots@ =~= others + newcomers.take(0));
    let mut i: usize = 0;
    while i < pending_bots.len()
        invariant
            i <= pending_bots.len(),
            pending_bots@ == newcomers,
            state.pending_bots@ == Seq::<Bot>::empty(),
            known == others.len(),
            distinct(newcomers),
            distinct(others),
            forall|id: u16| !(holds(newcomers, id) && holds(others, id)),
            state.connected_bots@ == others + newcomers.take(i as int),
            seats(launched@) == pairings(newcomers.take(i as int), others),
            forall|k: int|
                0 <= k < launched.len() ==> (#[trigger] launched[k]).game@ == opening().position,
        decreases pending_bots.len() - i,
    {
        let ghost before = seats(launched@);
        let mut j: usize = 0;
        while j < known
            invariant
                i < pending_bots.len(),
                j <= known,
                known == others.len(),
                pending_bots@ == newcomers,
                state.connected_bots@ == others + newcomers.take(i as int),
                seats(launched@) == before + against(newcomers[i as int], others.take(j as int)),
                forall|k: int|
                    0 <= k < launched.len() ==> (#[trigger] launched[k]).game@
                        == opening().position,
            decreases known - j,
        {
            let ghost so_far = launched@;
            let bot_a = &pending_bots[i];
            let bot_b = &state.connected_bots[j];
            launched.push(Match::new(bot_a.clone(), bot_b.clone()));
            launched.push(Match::new(bot_b.clone(), bot_a.clone()));
            proof {
                let a = newcomers[i as int];
                let b = others[j as int];
                assert(others.take(j + 1).drop_last() =~= others.take(j as int));
                assert(others.take(j + 1).last() == b);
                assert(seats(launched@) =~= seats(so_far).push((a, b)).push((b, a)));
                assert(seats(launched@) =~= before + against(a, others.take(j + 1)));
            }
            j += 1;
        }
        proof {
            assert(others.take(known as int) =~= others);
            assert(newcomers.take(i + 1).drop_last() =~= newcomers.take(i as int));
            assert(newcomers.take(i + 1).last() == newcomers[i as int]);
        }
        let newcomer = pending_bots[i].clone();
        proof {
            lemma_newcomer_is_new(newcomers, others, i as int);
        }
        if position_of(&state.connected_bots, newcomer.id).is_none() {
            state.connected_bots.push(newcomer);
        }
        assert(state.connected_bots@ =~= others + newcomers.take(i + 1));
        i += 1;
    }
    proof {
        state.lemma_pools();
        assert(newcomers.take(pending_bots.len() as int) =~= newcomers);
        lemma_joined_pools_distinct(newcomers, others);
        assert forall|id: u16|
            !(holds(Seq::<Bot>::empty(), id) && holds(others + newcomers, id)) by {
        }
    }
    launched
}

/// A newcomer is none of the bots it is matched against, and none of the
/// newcomers before it.
proof fn lemma_newcomer_is_new(newcomers: Seq<Bot>, others: Seq<Bot>, at: int)
    requires
        0 <= at < newcomers.len(),
        distinct(newcomers),
        forall|id: u16| !(holds(newcomers, id) && holds(others, id)),
    ensures
        !holds(others + newcomers.take(at), newcomers[at].id),
{
    let id = newcomers[at].id;
    let joined = others + newcomers.take(at);
    if holds(joined, id) {
        let i = choose|i: int| 0 <= i < joined.len() && (#[trigger] joined[i]).id == id;
        if i < others.len() {
            assert(others[i].id == id);
            assert(holds(others, id));
            assert(holds(newcomers, id));
        } else {
            assert(joined[i] == newcomers[i - others.len()]);
            assert(newcomers[i - others.len()].id != newcomers[at].id);
        }
    }
}

/// Two pools that share no bot make one pool without doubles.
proof fn lemma_joined_pools_distinct(newcomers: Seq<Bot>, others: Seq<Bot>)
    requires
        distinct(newcomers),
        distinct(others),
        forall|id: u16| !(holds(newcomers, id) && holds(others, id)),
    ensures
        distinct(others + newcomers),
{
    let joined = others + newcomers;
    assert forall|i: int, j: int| 0 <= i < j < joined.len() implies (#[trigger] joined[i]).id != (
    #[trigger] joined[j]).id by {
        if j < others.len() {
            assert(others[i].id != others[j].id);
        } else if i >= others.len() {
            assert(newcomers[i - others.len()].id != newcomers[j - others.len()].id);
        } else {
            let id = others[i].id;
            if newcomers[j - others.len()].id == id {
                assert(holds(others, id));
                assert(holds(newcomers, id));
            }
        }
    }
}

/// A newcomer that finds one bot in the pool gets exactly two games against
/// it, one with each of them moving first.
pub proof fn lemma_pairing_is_fair(newcomer: Bot, other: Bot)
    ensures
        pairings(seq![newcomer], seq![other]) == seq![(newcomer, other), (other, newcomer)],
{
    let newcomers = seq![newcomer];
    let others = seq![other];
    assert(others.drop_last() =~= Seq::<Bot>::empty());
    assert(against(newcomer, others.drop_last()) =~= Seq::<(Bot, Bot)>::empty());
    assert(against(newcomer, others) =~= seq![(newcomer, other), (other, newcomer)]);
    assert(newcomers.drop_last() =~= Seq::<Bot>::empty());
    assert(pairings(newcomers.drop_last(), others) =~= Seq::<(Bot, Bot)>::empty());
    assert(pairings(newcomers, others) =~= against(newcomer, others));
}

/// A newcomer plays every bot of the pool twice: the games against the bot
/// at place `at` are games `2 * at` and `2 * at + 1`, the newcomer moving
/// first in the one and second in the other.
pub proof fn lemma_against_each(newcomer: Bot, others: Seq<Bot>, at: int)
    requires
        0 <= at < others.len(),
    ensures
        against(newcomer, others).len() == 2 * others.len(),
        against(newcomer, others)[2 * at] == (newcomer, others[at]),
        against(newcomer, others)[2 * at + 1] == (others[at], newcomer),
    decreases others.len(),
{
    lemma_against_len(newcomer, others.drop_last());
    if at < others.len() - 1 {
        lemma_against_each(newcomer, others.drop_last(), at);
    }
}

/// A newcomer plays two games for every bot in the pool.
pub proof fn lemma_against_len(newcomer: Bot, others: Seq<Bot>)
    ensures
        against(newcomer, others).len() == 2 * others.len(),
    decreases others.len(),
{
    if others.len() > 0 {
        lemma_against_len(newcomer, others.drop_last());
    }
}

/// A pass launches two games for every newcomer and every bot in the pool.
pub proof fn lemma_pairings_len(newcomers: Seq<Bot>, others: Seq<Bot>)
    ensures
        pairings(newcomers, others).len() == 2 * newcomers.len() * others.len(),
    decreases newcomers.len(),
{
    let n = newcomers.len() as int;
    let o = others.len() as int;
    if n > 0 {
        lemma_pairings_len(newcomers.drop_last(), others);
        lemma_against_len(newcomers.last(), others);
        assert(newcomers.drop_last().len() == n - 1);
        assert((2 * (n - 1)) * o + 2 * o == (2 * n) * o) by (nonlinear_arith);
    } else {
        assert((2 * n) * o == 0) by (nonlinear_arith)
            requires
                n == 0,
        ;
    }
}

/// In every game of a pass a newcomer meets a bot of the pool, on one side
/// of the board or the other.
pub proof fn lemma_pairings_seat_newcomers(newcomers: Seq<Bot>, others: Seq<Bot>, game: int)
    requires
        0 <= game < pairings(newcomers, others).len(),
    ensures
        ({
            let (first, second) = pairings(newcomers, others)[game];
            exists|i: int, j: int|
                0 <= i < newcomers.len() && 0 <= j < others.len() && ((first, second) == (
                    #[trigger] newcomers[i],
                    #[trigger] others[j],
                ) || (first, second) == (others[j], newcomers[i]))
        }),
    decreases newcomers.len(),
{
    let earlier = pairings(newcomers.drop_last(), others);
    if game < earlier.len() {
        lemma_pairings_seat_newcomers(newcomers.drop_last(), others, game);
        let (first, second) = earlier[game];
        let (i, j) = choose|i: int, j: int|
            0 <= i < newcomers.drop_last().len() && 0 <= j < others.len() && ((first, second) == (
                #[trigger] newcomers.drop_last()[i],
                #[trigger] others[j],
            ) || (first, second) == (others[j], newcomers.drop_last()[i]));
        assert(newcomers[i] == newcomers.drop_last()[i]);
        assert((first, second) == (newcomers[i], others[j]) || (first, second) == (
            others[j],
            newcomers[i],
        ));
    } else {
        let newcomer = newcomers.last();
        let place = game - earlier.len();
        lemma_against_len(newcomer, others);
        let j = place / 2;
        lemma_against_each(newcomer, others, j);
        let i = newcomers.len() - 1;
        assert(newcomers[i] == newcomer);
        if place % 2 == 0 {
            assert(pairings(newcomers, others)[game] == (newcomers[i], others[j]));
        } else {
            assert(pairings(newcomers, others)[game] == (others[j], newcomers[i]));
        }
    }
}

/// No bot is seated against itself, as long as no newcomer is in the pool
/// already.
pub proof fn lemma_no_bot_meets_itself(newcomers: Seq<Bot>, others: Seq<Bot>, game: int)
    requires
        forall|id: u16| !(holds(newcomers, id) && holds(others, id)),
        0 <= game < pairings(newcomers, others).len(),
    ensures
        pairings(newcomers, others)[game].0.id != pairings(newcomers, others)[game].1.id,
{
    lemma_pairings_seat_newcomers(newcomers, others, game);
    let (first, second) = pairings(newcomers, others)[game];
    let (i, j) = choose|i: int, j: int|
        0 <= i < newcomers.len() && 0 <= j < others.len() && ((first, second) == (
            #[trigger] newcomers[i],
            #[trigger] others[j],
        ) || (first, second) == (others[j], newcomers[i]));
    if newcomers[i].id == others[j].id {
        assert(holds(newcomers, newcomers[i].id));
        assert(holds(others, newcomers[i].id));
    }
}

/// Whether a match between the two can be played at all: both bots must
/// have an open channel.
pub fn can_launch(bot_a: &Bot, bot_b: &Bot) -> (ready: bool)
    ensures
        ready == (bot_a.connected && bot_b.connected),
{
    bot_a.connected && bot_b.connected
}

/// A rating to write down for a bot.
#[derive(Clone, Copy, Debug, PartialEq, Eq, Structural)]
pub struct Rating {
    pub id: u16,
    pub elo: u16,
}

/// What a finished match asks of the matchmaker.
#[derive(Clone, Copy, Debug, PartialEq, Eq, Structural)]
pub enum Settlement {
    /// Nothing: ratings and pools stay as they are.
    Nothing,
    /// The two ratings are to be written down together: the winner's first,
    /// then the loser's.
    Rate(Rating, Rating),
    /// The bot with this id is to leave the bots that newcomers are matched
    /// against.
    Evict(u16),
}

/// The ratings after a win by `delta` points: the winner gains them and the
/// loser loses them, but no rating leaves the range of the type.
pub open spec fn rated(winner_elo: u16, loser_elo: u16, delta: u8) -> (u16, u16) {
    (
        if winner_elo + delta > u16::MAX {
            u16::MAX
        } else {
            (winner_elo + delta) as u16
        },
        if loser_elo < delta {
            0u16
        } else {
            (loser_elo - delta) as u16
        },
    )
}

/// What the outcome of a match between `bot_a`, who moved first, and `bot_b`
/// asks for.
///
/// A win by points rates both bots. A tie changes nothing. A bot that was
/// given up leaves the pool if the outcome says so; else nothing changes.
pub open spec fn settled(bot_a: Bot, bot_b: Bot, winner: Winner) -> Settlement {
    match winner {
        Winner::Tie => Settlement::Nothing,
        Winner::ByDisqualification(seat, should_kick) => if !should_kick {
            Settlement::Nothing
        } else if seat == 0 {
            Settlement::Evict(bot_a.id)
        } else {
            Settlement::Evict(bot_b.id)
        },
        Winner::FairAndSquare(seat, delta) => if seat == 0 {
            Settlement::Rate(
                Rating { id: bot_a.id, elo: rated(bot_a.elo, bot_b.elo, delta).0 },
                Rating { id: bot_b.id, elo: rated(bot_a.elo, bot_b.elo, delta).1 },
            )
        } else {
            Settlement::Rate(
                Rating { id: bot_b.id, elo: rated(bot_b.elo, bot_a.elo, delta).0 },
                Rating { id: bot_a.id, elo: rated(bot_b.elo, bot_a.elo, delta).1 },
            )
        },
    }
}

/// The ratings of winner and loser after a win by `delta` points.
pub fn handle_match_ending_fair_and_square(winner: &Bot, loser: &Bot, delta: u8) -> (ratings: (
    Rating,
    Rating,
))
    ensures
        ratings.0 == (Rating { id: winner.id, elo: rated(winner.elo, loser.elo, delta).0 }),
        ratings.1 == (Rating { id: loser.id, elo: rated(winner.elo, loser.elo, delta).1 }),
        winner.elo == u16::MAX ==> ratings.0.elo == u16::MAX,
        loser.elo == 0 ==> ratings.1.elo == 0,
{
    (
        Rating { id: winner.id, elo: winner.elo.saturating_add(delta as u16) },
        Rating { id: loser.id, elo: loser.elo.saturating_sub(delta as u16) },
    )
}

/// What the outcome of a match between `bot_a`, who moved first, and `bot_b`
/// asks of the matchmaker.
pub fn settle(bot_a: &Bot, bot_b: &Bot, winner: Winner) -> (settlement: Settlement)
    ensures
        settlement == settled(*bot_a, *bot_b, winner),
{
    match winner {
        Winner::Tie => Settlement::Nothing,
        Winner::ByDisqualification(bot_index, should_kick) => {
            if !should_kick {
                Settlement::Nothing
            } else if bot_index == 0 {
                Settlement::Evict(bot_a.id)
            } else {
                Settlement::Evict(bot_b.id)
            }
        },
        Winner::FairAndSquare(bot_index, delta) => {
            let (winner, loser) = if bot_index == 0 {
                (bot_a, bot_b)
            } else {
                (bot_b, bot_a)
            };
            let ratings = handle_match_ending_fair_and_square(winner, loser, delta);
            Settlement::Rate(ratings.0, ratings.1)
        },
    }
}

/// A rating is written down as it should be when the store reports exactly
/// one record changed. Any other count is an anomaly.
pub fn is_anomaly(updated_row_count: usize) -> (odd: bool)
    ensures
        odd == (updated_row_count != 1),
{
    updated_row_count != 1
}

/// A rating at the top of the range stays there after a win, and a rating of
/// zero stays zero after a loss, whatever the margin. No rating ever leaves
/// the range.
pub proof fn lemma_ratings_saturate(winner_elo: u16, loser_elo: u16, delta: u8)
    ensures
        winner_elo == u16::MAX ==> rated(winner_elo, loser_elo, delta).0 == u16::MAX,
        loser_elo == 0 ==> rated(winner_elo, loser_elo, delta).1 == 0,
        rated(winner_elo, loser_elo, delta).0 >= winner_elo,
        rated(winner_elo, loser_elo, delta).1 <= loser_elo,
        winner_elo + delta <= u16::MAX ==> rated(winner_elo, loser_elo, delta).0 == winner_elo
            + delta,
        loser_elo >= delta ==> rated(winner_elo, loser_elo, delta).1 == loser_elo - delta,
{
}

} // verus!
