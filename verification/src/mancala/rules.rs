//! The rules of the game as mathematics.
//!
//! A position is a ring of fourteen counters. Seat `p` owns the six pits at
//! ring indices `7 * p .. 7 * p + 6` and the store at `7 * p + 6`. Stones are
//! sown along the ring, skipping the opponent's store, so every seat plays on a
//! lane of thirteen cells: its own pits (lane cells 0 to 5), its store (lane
//! cell 6) and the opponent's pits (lane cells 7 to 12).

use vstd::prelude::*;

verus! {

/// Ring index of pit `index` on the side of `player`.
pub open spec fn pit(player: int, index: int) -> int {
    7 * player + index
}

/// Ring index of the store of `player`.
pub open spec fn store(player: int) -> int {
    7 * player + 6
}

/// A position has exactly fourteen counters.
pub open spec fn is_position(ring: Seq<nat>) -> bool {
    ring.len() == 14
}

/// Every counter of the position fits in one byte.
pub open spec fn fits(ring: Seq<nat>) -> bool {
    forall|k: int| 0 <= k < 14 ==> #[trigger] ring[k] <= u8::MAX
}

/// All stones of the position: the twelve pits and both stores.
pub open spec fn total(ring: Seq<nat>) -> nat {
    ring[0] + ring[1] + ring[2] + ring[3] + ring[4] + ring[5] + ring[6] + ring[7] + ring[8]
        + ring[9] + ring[10] + ring[11] + ring[12] + ring[13]
}

/// The six pits of `player` hold no stone.
pub open spec fn row_is_empty(ring: Seq<nat>, player: int) -> bool {
    &&& ring[pit(player, 0)] == 0
    &&& ring[pit(player, 1)] == 0
    &&& ring[pit(player, 2)] == 0
    &&& ring[pit(player, 3)] == 0
    &&& ring[pit(player, 4)] == 0
    &&& ring[pit(player, 5)] == 0
}

/// No pit on either side holds a stone.
pub open spec fn finished(ring: Seq<nat>) -> bool {
    row_is_empty(ring, 0) && row_is_empty(ring, 1)
}

/// A seat with stones on its own side picks one of its pits, named 0 to 5. A
/// seat whose side is empty picks a pit of the opponent, named 6 to 11. The
/// pit picked holds at least one stone.
pub open spec fn move_valid(ring: Seq<nat>, player: int, attempted_move: int) -> bool {
    if row_is_empty(ring, player) {
        6 <= attempted_move < 12 && ring[pit(1 - player, attempted_move - 6)] != 0
    } else {
        0 <= attempted_move < 6 && ring[pit(player, attempted_move)] != 0
    }
}

/// Ring index of the pit that `attempted_move` picks up.
pub open spec fn origin(ring: Seq<nat>, player: int, attempted_move: int) -> int {
    if row_is_empty(ring, player) {
        pit(1 - player, attempted_move - 6)
    } else {
        pit(player, attempted_move)
    }
}

/// Converts between ring indices and the lane cells of `player`, in both
/// directions. Lane cell 13 is the opponent's store, which is never sown.
pub open spec fn lane(player: int, k: int) -> int {
    (k + 7 * player) % 14
}

/// How many of `count` stones, sown one per cell starting right after lane
/// cell `from`, land on lane cell `to`.
pub open spec fn drops(from: int, count: nat, to: int) -> nat {
    let gap = (to + 13 - from) % 13;
    if gap == 0 {
        count / 13
    } else {
        ((count + 13 - gap) / 13) as nat
    }
}

/// Lane cell that receives the last of `count` stones picked up at ring index
/// `start`.
pub open spec fn landing(player: int, start: int, count: nat) -> int {
    (lane(player, start) + count) % 13
}

/// The position once the pit at ring index `start` has been emptied and
/// `count` stones have been sown from it by `player`, before any capture.
pub open spec fn sown(ring: Seq<nat>, player: int, start: int, count: nat) -> Seq<nat> {
    Seq::new(
        14,
        |k: int|
            if lane(player, k) == 13 {
                ring[k]
            } else {
                (if k == start { 0nat } else { ring[k] })
                    + drops(lane(player, start), count, lane(player, k))
            },
    )
}

/// The last stone of the move was sown along the mover's own side into a pit
/// that was empty until then. The first pit of the side never counts: a stone
/// reaches it only by crossing over from the opponent's side.
pub open spec fn captures(ring: Seq<nat>, player: int, start: int) -> bool {
    let last = landing(player, start, ring[start]);
    0 < last < 6 && sown(ring, player, start, ring[start])[pit(player, last)] == 1
}

/// The position after the capture rule has been applied to a sown position:
/// the opponent's pit that faces the landing pit is emptied into it.
pub open spec fn captured(after: Seq<nat>, player: int, last: int) -> Seq<nat> {
    let own = pit(player, last);
    let facing = pit(1 - player, 5 - last);
    after.update(own, after[own] + after[facing]).update(facing, 0)
}

/// The position after `player` has played `attempted_move`. A finished game
/// stays as it is.
pub open spec fn played(ring: Seq<nat>, player: int, attempted_move: int) -> Seq<nat> {
    if finished(ring) {
        ring
    } else {
        let start = origin(ring, player, attempted_move);
        let after = sown(ring, player, start, ring[start]);
        if captures(ring, player, start) {
            captured(after, player, landing(player, start, ring[start]))
        } else {
            after
        }
    }
}

/// The seat that moves next: the mover again if the last stone went into the
/// mover's store, else the opponent. In a finished game nobody is asked again,
/// and the seat stays.
pub open spec fn next_player(ring: Seq<nat>, player: int, attempted_move: int) -> int {
    if finished(ring) {
        player
    } else {
        let start = origin(ring, player, attempted_move);
        if landing(player, start, ring[start]) == 6 {
            player
        } else {
            1 - player
        }
    }
}

/// The position and the seat to move after `moves` have been played one after
/// the other, the first of them by `player` and each later one by the seat
/// that the move before it hands the turn to.
pub open spec fn replayed(ring: Seq<nat>, player: int, moves: Seq<int>) -> (Seq<nat>, int)
    decreases moves.len(),
{
    if moves.len() == 0 {
        (ring, player)
    } else {
        let (reached, mover) = replayed(ring, player, moves.drop_last());
        (played(reached, mover, moves.last()), next_player(reached, mover, moves.last()))
    }
}

/// Every move of `moves` is one that `play` accepts when its turn comes: the
/// game is finished by then, or the move is valid for the seat that makes it.
pub open spec fn playable(ring: Seq<nat>, player: int, moves: Seq<int>) -> bool
    decreases moves.len(),
{
    if moves.len() == 0 {
        true
    } else {
        let (reached, mover) = replayed(ring, player, moves.drop_last());
        &&& playable(ring, player, moves.drop_last())
        &&& finished(reached) || move_valid(reached, mover, moves.last())
    }
}

} // verus!
