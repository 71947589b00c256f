//! Sowing, one stone at a time.
//!
//! [`Game::play`](crate::mancala::Game::play) drops the stones of a move one
//! by one. The lemmas here say what each drop does to the position, and that
//! the last drop ends in the position that the rules give for the whole move.

use vstd::prelude::*;

use crate::mancala::laws::lemma_play_conserves_stones;
use crate::mancala::rules::{
    captured, captures, drops, finished, fits, is_position, landing, lane, move_valid,
    next_player, origin, pit, played, sown, store, total,
};

verus! {

/// `player` is about to play `cell` in `ring`: the game is on, the move is
/// valid, it picks up `count` stones at ring index `start`, and the position
/// that it leads to fits in bytes.
pub closed spec fn sowing(ring: Seq<nat>, player: int, cell: int, start: int, count: nat) -> bool {
    &&& is_position(ring)
    &&& 0 <= player < 2
    &&& !finished(ring)
    &&& move_valid(ring, player, cell)
    &&& fits(played(ring, player, cell))
    &&& start == origin(ring, player, cell)
    &&& count == ring[start]
}

/// The position of a move under way, `done` of its stones sown.
pub closed spec fn partly(ring: Seq<nat>, player: int, start: int, done: nat) -> Seq<nat> {
    sown(ring, player, start, done)
}

/// After `done` stones, the next one goes to the cell at `index` on the side
/// of `row`, where index 6 stands for the cell that follows the side: the
/// mover's store after the mover's pits, the mover's first pit after the
/// opponent's. That first pit is never named in any other way.
pub closed spec fn cursor_at(player: int, start: int, done: nat, row: int, index: int) -> bool {
    &&& 0 <= row < 2
    &&& 0 <= index <= 6
    &&& row == player ==> index != 0
    &&& (if row == player {
        index
    } else {
        7 + index
    }) % 13 == (lane(player, start) + done + 1) % 13
}

/// The position that the whole move leads to.
pub closed spec fn goal(ring: Seq<nat>, player: int, cell: int) -> Seq<nat> {
    played(ring, player, cell)
}

/// The seat that moves after the whole move.
pub closed spec fn turn(ring: Seq<nat>, player: int, cell: int) -> int {
    next_player(ring, player, cell)
}

/// The stone after the first `count` lands on the cell `count + 1` steps
/// after `from`, and on no other.
proof fn lemma_drops_next(from: int, count: nat, to: int)
    requires
        0 <= from < 13,
        0 <= to < 13,
    ensures
        drops(from, count + 1, to) == drops(from, count, to) + (if (from + count + 1) % 13 == to {
            1nat
        } else {
            0nat
        }),
{
}

/// More stones sown never means fewer stones on a cell.
proof fn lemma_drops_grow(from: int, fewer: nat, more: nat, to: int)
    requires
        0 <= from < 13,
        0 <= to < 13,
        fewer <= more,
    ensures
        drops(from, fewer, to) <= drops(from, more, to),
{
}

/// Sowing one more stone adds one to the cell that follows the cells sown so
/// far, and changes no other cell.
proof fn lemma_sown_next(ring: Seq<nat>, player: int, start: int, count: nat, target: int)
    requires
        is_position(ring),
        0 <= player < 2,
        0 <= start < 14,
        0 <= target < 14,
        lane(player, start) != 13,
        lane(player, target) == (lane(player, start) + count + 1) % 13,
    ensures
        sown(ring, player, start, count + 1) == sown(ring, player, start, count).update(
            target,
            sown(ring, player, start, count)[target] + 1,
        ),
{
    let now = sown(ring, player, start, count);
    let then = sown(ring, player, start, count + 1);
    assert forall|k: int| 0 <= k < 14 implies then[k] == now.update(target, now[target] + 1)[k] by {
        if lane(player, k) != 13 {
            lemma_drops_next(lane(player, start), count, lane(player, k));
        }
    }
    assert(then =~= now.update(target, now[target] + 1));
}

/// No cell holds more during sowing than when all stones are sown.
proof fn lemma_sown_grow(ring: Seq<nat>, player: int, start: int, fewer: nat, more: nat)
    requires
        is_position(ring),
        0 <= player < 2,
        0 <= start < 14,
        lane(player, start) != 13,
        fewer <= more,
    ensures
        forall|k: int|
            0 <= k < 14 ==> #[trigger] sown(ring, player, start, fewer)[k] <= sown(
                ring,
                player,
                start,
                more,
            )[k],
{
    assert forall|k: int| 0 <= k < 14 implies #[trigger] sown(ring, player, start, fewer)[k]
        <= sown(ring, player, start, more)[k] by {
        if lane(player, k) != 13 {
            lemma_drops_grow(lane(player, start), fewer, more, lane(player, k));
        }
    }
}

/// If the position after the capture fits in bytes, so does the sown position
/// before it.
proof fn lemma_capture_fits(after: Seq<nat>, player: int, last: int)
    requires
        after.len() == 14,
        0 <= player < 2,
        0 <= last < 6,
        fits(captured(after, player, last)),
    ensures
        fits(after),
{
    let own = pit(player, last);
    let facing = pit(1 - player, 5 - last);
    let done = captured(after, player, last);
    assert(done[own] == after[own] + after[facing]);
    assert forall|k: int| 0 <= k < 14 implies #[trigger] after[k] <= u8::MAX by {
        if k != own && k != facing {
            assert(done[k] == after[k]);
        }
    }
}

/// The fully sown position of a move fits in bytes.
proof fn lemma_sown_fits(ring: Seq<nat>, player: int, cell: int, start: int, count: nat)
    requires
        sowing(ring, player, cell, start, count),
    ensures
        fits(sown(ring, player, start, count)),
        0 <= start < 14,
        lane(player, start) != 13,
        count >= 1,
{
    if captures(ring, player, start) {
        lemma_capture_fits(sown(ring, player, start, count), player, landing(player, start, count));
    }
}

/// Ring index of the cell that a cursor names.
pub open spec fn cell_under(player: int, row: int, index: int) -> int {
    if index < 6 {
        pit(row, index)
    } else if row == player {
        store(player)
    } else {
        pit(player, 0)
    }
}

/// Picking up the stones: the pit at `start` is one of the twelve pits, at
/// `index` on the side of `row`; emptying it starts the sowing, and the first
/// stone goes to the cell after it.
pub proof fn lemma_pick_up(ring: Seq<nat>, player: int, cell: int, row: int, index: int)
    requires
        is_position(ring),
        0 <= player < 2,
        !finished(ring),
        move_valid(ring, player, cell),
        fits(played(ring, player, cell)),
        pit(row, index) == origin(ring, player, cell),
        0 <= row < 2,
        0 <= index < 6,
    ensures
        sowing(ring, player, cell, pit(row, index), ring[pit(row, index)]),
        ring[pit(row, index)] >= 1,
        partly(ring, player, pit(row, index), 0) == ring.update(pit(row, index), 0),
        cursor_at(player, pit(row, index), 0, row, index + 1),
{
    let start = pit(row, index);
    assert(sown(ring, player, start, 0) =~= ring.update(start, 0));
}

/// The drop of stone `done + 1`: it changes the cell under the cursor alone,
/// and that cell has room for the stone.
pub proof fn lemma_drop(
    ring: Seq<nat>,
    player: int,
    cell: int,
    start: int,
    count: nat,
    done: nat,
    row: int,
    index: int,
)
    requires
        sowing(ring, player, cell, start, count),
        done < count,
        cursor_at(player, start, done, row, index),
    ensures
        ({
            let now = partly(ring, player, start, done);
            let target = cell_under(player, row, index);
            &&& now[target] < u8::MAX
            &&& partly(ring, player, start, done + 1) == now.update(target, now[target] + 1)
        }),
{
    let target = cell_under(player, row, index);
    assert(0 <= target < 14);
    assert(lane(player, target) == (lane(player, start) + done + 1) % 13);
    lemma_sown_fits(ring, player, cell, start, count);
    lemma_sown_next(ring, player, start, done, target);
    lemma_sown_grow(ring, player, start, done + 1, count);
    assert(sown(ring, player, start, done + 1)[target] <= sown(ring, player, start, count)[target]);
}

/// Where the cursor goes after a drop: along the side; from the end of the
/// mover's side, over the store, to the opponent's first pit; from the end of
/// the opponent's side, over the mover's first pit, to the mover's second.
pub proof fn lemma_cursor_moves(player: int, start: int, done: nat, row: int, index: int)
    requires
        0 <= player < 2,
        cursor_at(player, start, done, row, index),
    ensures
        cursor_at(
            player,
            start,
            done + 1,
            if index < 6 {
                row
            } else {
                1 - row
            },
            if index < 6 {
                index + 1
            } else if row == player {
                0
            } else {
                1
            },
        ),
{
}

/// The lane cell under the cursor before the last drop is the landing cell
/// of the move.
proof fn lemma_cursor_lands(player: int, start: int, count: nat, row: int, index: int)
    requires
        0 <= player < 2,
        count >= 1,
        cursor_at(player, start, (count - 1) as nat, row, index),
    ensures
        landing(player, start, count) == (if row == player {
            index
        } else if index < 6 {
            7 + index
        } else {
            0
        }),
{
}

/// The rules, read off the landing cell of the last stone.
proof fn lemma_rules_at_end(ring: Seq<nat>, player: int, cell: int, start: int, count: nat)
    requires
        sowing(ring, player, cell, start, count),
    ensures
        ({
            let last = landing(player, start, count);
            let full = sown(ring, player, start, count);
            &&& next_player(ring, player, cell) == (if last == 6 {
                player
            } else {
                1 - player
            })
            &&& played(ring, player, cell) == (if 0 < last < 6 && full[pit(player, last)] == 1 {
                captured(full, player, last)
            } else {
                full
            })
        }),
{
}

/// What the rules give once the last stone has been dropped under the
/// cursor.
///
/// The mover moves again if the stone went into the store, else the opponent
/// moves. The stone captures if it was sown along the mover's own side into a
/// pit that was empty.
pub proof fn lemma_last_stone(
    ring: Seq<nat>,
    player: int,
    cell: int,
    start: int,
    count: nat,
    row: int,
    index: int,
)
    requires
        sowing(ring, player, cell, start, count),
        count >= 1,
        cursor_at(player, start, (count - 1) as nat, row, index),
    ensures
        ({
            let full = partly(ring, player, start, count);
            &&& full.len() == 14
            &&& fits(goal(ring, player, cell))
            &&& turn(ring, player, cell) == (if index == 6 && row == player {
                player
            } else {
                1 - player
            })
            &&& goal(ring, player, cell) == (if index < 6 && row == player && full[pit(row, index)]
                == 1 {
                captured(full, player, index)
            } else {
                full
            })
        }),
{
    lemma_cursor_lands(player, start, count, row, index);
    lemma_rules_at_end(ring, player, cell, start, count);
}

/// The capture rule, written as the two updates that carry it out.
pub proof fn lemma_capture_moves(after: Seq<nat>, player: int, last: int)
    requires
        after.len() == 14,
        0 <= player < 2,
        0 <= last < 6,
        after[pit(player, last)] == 1,
    ensures
        captured(after, player, last) == after.update(pit(1 - player, 5 - last), 0).update(
            pit(player, last),
            1 + after[pit(1 - player, 5 - last)],
        ),
        fits(captured(after, player, last)) ==> after[pit(1 - player, 5 - last)] < u8::MAX,
{
    let own = pit(player, last);
    let facing = pit(1 - player, 5 - last);
    let end = captured(after, player, last);
    assert(end[own] == after[own] + after[facing]);
    assert(end =~= after.update(facing, 0).update(own, 1 + after[facing]));
}

/// Converting a ring index to a lane cell and back gives the ring index.
proof fn lemma_lane_back(player: int, k: int)
    requires
        0 <= player < 2,
        0 <= k < 14,
    ensures
        0 <= lane(player, k) < 14,
        lane(player, lane(player, k)) == k,
{
}

/// One more stone sown is one more stone in exactly one cell.
pub proof fn lemma_partly_next(ring: Seq<nat>, player: int, start: int, done: nat) -> (target: int)
    requires
        is_position(ring),
        0 <= player < 2,
        0 <= start < 14,
        lane(player, start) != 13,
    ensures
        0 <= target < 14,
        partly(ring, player, start, done + 1) == partly(ring, player, start, done).update(
            target,
            partly(ring, player, start, done)[target] + 1,
        ),
{
    let cell = (lane(player, start) + done + 1) % 13;
    let target = lane(player, cell);
    lemma_lane_back(player, cell);
    lemma_sown_next(ring, player, start, done, target);
    target
}

/// What this module calls the position of a move under way is the sown
/// position of the rules. With no stone sown yet, it is the position with
/// the pit picked up emptied.
pub proof fn lemma_partly(ring: Seq<nat>, player: int, start: int, done: nat)
    requires
        is_position(ring),
        0 <= start < 14,
    ensures
        partly(ring, player, start, done) == sown(ring, player, start, done),
        is_position(partly(ring, player, start, done)),
        lane(player, start) != 13 ==> partly(ring, player, start, 0) == ring.update(start, 0),
{
    assert(lane(player, start) != 13 ==> sown(ring, player, start, 0) =~= ring.update(start, 0));
}

/// What the lemmas of this module call the goal and the turn of a move are
/// the position and the seat that the rules give.
pub proof fn lemma_goal(ring: Seq<nat>, player: int, cell: int)
    ensures
        goal(ring, player, cell) == played(ring, player, cell),
        turn(ring, player, cell) == next_player(ring, player, cell),
{
}

/// The goal of a move holds as many stones as the position before it, and
/// the turn goes to one of the two seats.
pub proof fn lemma_goal_conserves_stones(ring: Seq<nat>, player: int, cell: int)
    requires
        is_position(ring),
        0 <= player < 2,
        finished(ring) || move_valid(ring, player, cell),
    ensures
        total(goal(ring, player, cell)) == total(ring),
        0 <= turn(ring, player, cell) < 2,
{
    lemma_play_conserves_stones(ring, player, cell);
}

} // verus!
