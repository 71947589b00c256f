//! What holds of every game, whatever is played.

use vstd::prelude::*;

use crate::mancala::rules::{
    captured, captures, finished, fits, is_position, landing, lane, move_valid, next_player,
    origin, pit, playable, played, replayed, row_is_empty, sown, total,
};
use crate::mancala::sowing::{lemma_partly, lemma_partly_next, partly};

verus! {

/// One more stone in one cell is one more stone in the position.
proof fn lemma_total_drop(ring: Seq<nat>, target: int)
    requires
        is_position(ring),
        0 <= target < 14,
    ensures
        total(ring.update(target, ring[target] + 1)) == total(ring) + 1,
{
}

/// Emptying a cell takes its stones out of the position.
proof fn lemma_total_pick(ring: Seq<nat>, start: int)
    requires
        is_position(ring),
        0 <= start < 14,
    ensures
        total(ring.update(start, 0)) + ring[start] == total(ring),
{
}

/// A capture moves stones from one pit to another.
proof fn lemma_total_capture(after: Seq<nat>, player: int, last: int)
    requires
        is_position(after),
        0 <= player < 2,
        0 <= last < 6,
    ensures
        is_position(captured(after, player, last)),
        total(captured(after, player, last)) == total(after),
{
    let own = pit(player, last);
    let facing = pit(1 - player, 5 - last);
    let moved = after.update(own, after[own] + after[facing]);
    assert(total(moved) == total(after) + after[facing]);
    assert(moved[facing] == after[facing]);
    lemma_total_pick(moved, facing);
}

/// The stones sown so far are on the board, and the pit they were picked up
/// from is empty of the stones it held.
proof fn lemma_partly_total(ring: Seq<nat>, player: int, start: int, done: nat)
    requires
        is_position(ring),
        0 <= player < 2,
        0 <= start < 14,
        lane(player, start) != 13,
    ensures
        total(partly(ring, player, start, done)) + ring[start] == total(ring) + done,
    decreases done,
{
    if done == 0 {
        lemma_partly(ring, player, start, 0);
        lemma_total_pick(ring, start);
    } else {
        let fewer = (done - 1) as nat;
        lemma_partly_total(ring, player, start, fewer);
        lemma_partly(ring, player, start, fewer);
        let target = lemma_partly_next(ring, player, start, fewer);
        lemma_total_drop(partly(ring, player, start, fewer), target);
    }
}

/// The same of the sown position of the rules.
proof fn lemma_sown_total(ring: Seq<nat>, player: int, start: int, count: nat)
    requires
        is_position(ring),
        0 <= player < 2,
        0 <= start < 14,
        lane(player, start) != 13,
    ensures
        is_position(sown(ring, player, start, count)),
        total(sown(ring, player, start, count)) + ring[start] == total(ring) + count,
{
    lemma_partly_total(ring, player, start, count);
    lemma_partly(ring, player, start, count);
}

/// A move keeps every stone: the pits and the two stores together hold as
/// many stones after it as before it. It also leaves the seat to move next
/// one of the two seats.
pub proof fn lemma_play_conserves_stones(ring: Seq<nat>, player: int, attempted_move: int)
    requires
        is_position(ring),
        0 <= player < 2,
        finished(ring) || move_valid(ring, player, attempted_move),
    ensures
        is_position(played(ring, player, attempted_move)),
        total(played(ring, player, attempted_move)) == total(ring),
        0 <= next_player(ring, player, attempted_move) < 2,
{
    if !finished(ring) {
        let start = origin(ring, player, attempted_move);
        let after = sown(ring, player, start, ring[start]);
        lemma_sown_total(ring, player, start, ring[start]);
        if captures(ring, player, start) {
            lemma_total_capture(after, player, landing(player, start, ring[start]));
        }
    }
}

/// Stones are conserved over any run of moves that `play` accepts: the
/// position reached holds as many stones as the position the run started
/// from.
pub proof fn lemma_replay_conserves_stones(ring: Seq<nat>, player: int, moves: Seq<int>)
    requires
        is_position(ring),
        0 <= player < 2,
        playable(ring, player, moves),
    ensures
        is_position(replayed(ring, player, moves).0),
        total(replayed(ring, player, moves).0) == total(ring),
        0 <= replayed(ring, player, moves).1 < 2,
    decreases moves.len(),
{
    if moves.len() > 0 {
        lemma_replay_conserves_stones(ring, player, moves.drop_last());
        let (reached, mover) = replayed(ring, player, moves.drop_last());
        lemma_play_conserves_stones(reached, mover, moves.last());
    }
}

/// A finished game stays finished: a move in it changes nothing and leaves
/// the turn where it was.
pub proof fn lemma_finished_is_final(ring: Seq<nat>, player: int, attempted_move: int)
    requires
        finished(ring),
    ensures
        played(ring, player, attempted_move) == ring,
        next_player(ring, player, attempted_move) == player,
        finished(played(ring, player, attempted_move)),
{
}

/// Once a game is finished, it is finished after any further moves, and the
/// position no longer changes.
pub proof fn lemma_finished_stays_finished(ring: Seq<nat>, player: int, moves: Seq<int>)
    requires
        finished(ring),
    ensures
        replayed(ring, player, moves) == (ring, player),
        finished(replayed(ring, player, moves).0),
    decreases moves.len(),
{
    if moves.len() > 0 {
        lemma_finished_stays_finished(ring, player, moves.drop_last());
    }
}

/// A position with at most 255 stones in all has every counter within a
/// byte.
pub proof fn lemma_small_total_fits(ring: Seq<nat>)
    requires
        is_position(ring),
        total(ring) <= u8::MAX,
    ensures
        fits(ring),
{
}

/// In a position with at most 255 stones in all, every move that `play`
/// accepts leads to a position whose counters fit in bytes.
pub proof fn lemma_small_total_plays(ring: Seq<nat>, player: int, attempted_move: int)
    requires
        is_position(ring),
        0 <= player < 2,
        finished(ring) || move_valid(ring, player, attempted_move),
        total(ring) <= u8::MAX,
    ensures
        fits(played(ring, player, attempted_move)),
{
    lemma_play_conserves_stones(ring, player, attempted_move);
    lemma_small_total_fits(played(ring, player, attempted_move));
}

/// Which pits a seat may pick from depends on its own side alone: a seat
/// whose side is empty may only name pits 6 to 11, which are the opponent's,
/// and a seat with stones on its side may only name pits 0 to 5, which are
/// its own.
pub proof fn lemma_move_names_one_side(ring: Seq<nat>, player: int, attempted_move: int)
    requires
        move_valid(ring, player, attempted_move),
    ensures
        row_is_empty(ring, player) ==> 6 <= attempted_move < 12 && ring[pit(
            1 - player,
            attempted_move - 6,
        )] > 0,
        !row_is_empty(ring, player) ==> 0 <= attempted_move < 6 && ring[pit(player, attempted_move)]
            > 0,
{
}

/// In a finished game no seat has a valid move.
pub proof fn lemma_finished_has_no_move(ring: Seq<nat>, player: int, attempted_move: int)
    requires
        finished(ring),
        0 <= player < 2,
    ensures
        !move_valid(ring, player, attempted_move),
{
}

/// While the game is on, each seat has a valid move, whether its own side
/// holds stones or not.
pub proof fn lemma_some_move_is_valid(ring: Seq<nat>, player: int) -> (attempted_move: int)
    requires
        is_position(ring),
        0 <= player < 2,
        !finished(ring),
    ensures
        0 <= attempted_move < 12,
        move_valid(ring, player, attempted_move),
{
    if row_is_empty(ring, player) {
        let other = 1 - player;
        if ring[pit(other, 0)] != 0 {
            6
        } else if ring[pit(other, 1)] != 0 {
            7
        } else if ring[pit(other, 2)] != 0 {
            8
        } else if ring[pit(other, 3)] != 0 {
            9
        } else if ring[pit(other, 4)] != 0 {
            10
        } else {
            11
        }
    } else if ring[pit(player, 0)] != 0 {
        0
    } else if ring[pit(player, 1)] != 0 {
        1
    } else if ring[pit(player, 2)] != 0 {
        2
    } else if ring[pit(player, 3)] != 0 {
        3
    } else if ring[pit(player, 4)] != 0 {
        4
    } else {
        5
    }
}

} // verus!
