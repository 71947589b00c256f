//! The board and its rules in executable form.

use vstd::prelude::*;

pub mod laws;
pub mod play_match;
pub mod rules;
mod sowing;

use crate::mancala::rules::{finished, fits, lane, move_valid, next_player, pit, played, store, total};
use crate::mancala::sowing::{
    cursor_at, goal, lemma_capture_moves, lemma_cursor_moves, lemma_drop, lemma_goal,
    lemma_goal_conserves_stones, lemma_last_stone, lemma_pick_up, partly, sowing, turn,
};

verus! {

/// Stones in every pit when a game starts.
pub const STARTING_STONES: u8 = 4;

/// One side of the board: six pits, each holding a count of stones.
#[derive(Clone, Copy, Debug, PartialEq, Eq)]
pub struct Board(pub [u8; 6]);

/// Both sides of the board and the points of both seats.
#[derive(Clone, Copy, Debug, PartialEq, Eq)]
pub struct Game {
    pub boards: [Board; 2],
    pub points: [u8; 2],
}

impl View for Game {
    type V = Seq<nat>;

    /// The position as a ring: seat 0's pits, seat 0's points, seat 1's pits,
    /// seat 1's points.
    open spec fn view(&self) -> Seq<nat> {
        Seq::new(
            14,
            |k: int|
                if k % 7 == 6 {
                    self.points[k / 7] as nat
                } else {
                    self.boards[k / 7].0[k % 7] as nat
                },
        )
    }
}

impl Board {
    /// A side with the same number of stones in every pit.
    pub fn filled(stones: u8) -> (board: Board)
        ensures
            forall|i: int| 0 <= i < 6 ==> board.0[i] == stones,
    {
        Board([stones; 6])
    }

    /// Whether the side holds no stone at all.
    pub fn is_empty(&self) -> (empty: bool)
        ensures
            empty == (forall|i: int| 0 <= i < 6 ==> self.0[i] == 0),
    {
        self.0[0] == 0 && self.0[1] == 0 && self.0[2] == 0 && self.0[3] == 0 && self.0[4] == 0
            && self.0[5] == 0
    }
}

impl Default for Board {
    fn default() -> (board: Board)
        ensures
            forall|i: int| 0 <= i < 6 ==> board.0[i] == STARTING_STONES,
    {
        Board::filled(STARTING_STONES)
    }
}

impl Game {
    /// A fresh game with `stones` in each of the twelve pits and no points.
    pub fn with_stones(stones: u8) -> (game: Game)
        ensures
            forall|k: int|
                0 <= k < 14 ==> game@[k] == (if k % 7 == 6 {
                    0nat
                } else {
                    stones as nat
                }),
    {
        Game { boards: [Board::filled(stones), Board::filled(stones)], points: [0, 0] }
    }

    /// All stones of the game: those in the twelve pits and the points of
    /// both seats.
    pub fn stones(&self) -> (count: u16)
        ensures
            count == total(self@),
    {
        let first = &self.boards[0].0;
        let second = &self.boards[1].0;
        assert(self@[0] == first[0] && self@[1] == first[1] && self@[2] == first[2] && self@[3]
            == first[3] && self@[4] == first[4] && self@[5] == first[5] && self@[6]
            == self.points[0]);
        assert(self@[7] == second[0] && self@[8] == second[1] && self@[9] == second[2] && self@[10]
            == second[3] && self@[11] == second[4] && self@[12] == second[5] && self@[13]
            == self.points[1]);
        first[0] as u16 + first[1] as u16 + first[2] as u16 + first[3] as u16 + first[4] as u16
            + first[5] as u16 + self.points[0] as u16 + second[0] as u16 + second[1] as u16
            + second[2] as u16 + second[3] as u16 + second[4] as u16 + second[5] as u16
            + self.points[1] as u16
    }

    /// Whether the game is over: no pit on either side holds a stone.
    pub fn is_finished(&self) -> (done: bool)
        ensures
            done == finished(self@),
    {
        self.boards[0].is_empty() && self.boards[1].is_empty()
    }

    /// Whether `player` may play `attempted_move` in this position.
    pub fn is_move_valid(&self, player: u8, attempted_move: u8) -> (valid: bool)
        requires
            player < 2,
        ensures
            valid == move_valid(self@, player as int, attempted_move as int),
    {
        let own: usize = player as usize;
        if self.boards[own].is_empty() {
            if attempted_move < 6 || attempted_move >= 12 {
                false
            } else {
                self.boards[1 - own].0[attempted_move as usize - 6] != 0
            }
        } else if attempted_move >= 6 {
            false
        } else {
            self.boards[own].0[attempted_move as usize] != 0
        }
    }

    /// The game as `player` is shown it: the side and the points of `player`
    /// come first, the opponent's second.
    pub fn seen_by(&self, player: usize) -> (shown: Game)
        requires
            player < 2,
        ensures
            shown.boards[0] == self.boards[player as int],
            shown.boards[1] == self.boards[1 - player],
            shown.points[0] == self.points[player as int],
            shown.points[1] == self.points[1 - player],
            forall|k: int| 0 <= k < 14 ==> #[trigger] shown@[k] == self@[lane(player as int, k)],
    {
        Game {
            boards: [self.boards[player], self.boards[1 - player]],
            points: [self.points[player], self.points[1 - player]],
        }
    }

    /// Stones in pit `index` on the side of seat `row`.
    fn stones_at(&self, row: usize, index: usize) -> (stones: u8)
        requires
            row < 2,
            index < 6,
        ensures
            stones == self@[pit(row as int, index as int)],
    {
        self.boards[row].0[index]
    }

    /// Puts `stones` into pit `index` on the side of seat `row`, replacing
    /// what it held.
    fn put_stones(&mut self, row: usize, index: usize, stones: u8)
        requires
            row < 2,
            index < 6,
        ensures
            final(self)@ == old(self)@.update(pit(row as int, index as int), stones as nat),
    {
        self.boards[row].0[index] = stones;
        assert(self@ =~= old(self)@.update(pit(row as int, index as int), stones as nat));
    }

    /// Gives seat `player` one point.
    fn score_point(&mut self, player: usize)
        requires
            player < 2,
            old(self)@[store(player as int)] < u8::MAX,
        ensures
            final(self)@ == old(self)@.update(
                store(player as int),
                old(self)@[store(player as int)] + 1,
            ),
    {
        self.points[player] += 1;
        assert(self@ =~= old(self)@.update(
            store(player as int),
            old(self)@[store(player as int)] + 1,
        ));
    }

    /// Plays `cell` for `player` and returns the seat that moves next.
    ///
    /// All stones of the chosen pit are picked up and sown one by one into
    /// the cells that follow it. The mover scores a point whenever a stone
    /// passes from the mover's side to the opponent's. If the last stone
    /// scores, the mover moves again. If it lands in a pit of the mover's own
    /// side that was empty, the stones of the facing pit are captured into
    /// it. In a finished game nothing changes.
    pub fn play(&mut self, player: usize, cell: usize) -> (next: usize)
        requires
            player < 2,
            finished(old(self)@) || move_valid(old(self)@, player as int, cell as int),
            fits(played(old(self)@, player as int, cell as int)),
        ensures
            final(self)@ == played(old(self)@, player as int, cell as int),
            next == next_player(old(self)@, player as int, cell as int),
            next < 2,
            total(final(self)@) == total(old(self)@),
    {
        if self.is_finished() {
            return player;
        }
        let ghost before = self@;
        let ghost seat = player as int;
        let ghost choice = cell as int;
        let (mut board_index, mut stone_index) = if self.boards[player].is_empty() {
            (1 - player, cell - 6)
        } else {
            (player, cell)
        };
        let ghost start = pit(board_index as int, stone_index as int);
        let stone_count: u8 = self.stones_at(board_index, stone_index);
        proof {
            lemma_pick_up(before, seat, choice, board_index as int, stone_index as int);
            lemma_goal(before, seat, choice);
            lemma_goal_conserves_stones(before, seat, choice);
        }
        self.put_stones(board_index, stone_index, 0);
        stone_index += 1;

        let mut i: u8 = 0;
        while i < stone_count
            invariant
                player < 2,
                seat == player,
                choice == cell,
                before == old(self)@,
                total(goal(before, seat, choice)) == total(before),
                i <= stone_count,
                1 <= stone_count,
                sowing(before, seat, choice, start, stone_count as nat),
                cursor_at(seat, start, i as nat, board_index as int, stone_index as int),
                board_index < 2,
                stone_index <= 6,
                i < stone_count ==> self@ == partly(before, seat, start, i as nat),
                i == stone_count ==> self@ == goal(before, seat, choice),
                i == stone_count ==> turn(before, seat, choice) == 1 - seat,
            ensures
                self@ == goal(before, seat, choice),
                turn(before, seat, choice) == 1 - seat,
            decreases stone_count - i,
        {
            let last: bool = i == stone_count - 1;
            proof {
                let row = board_index as int;
                let index = stone_index as int;
                lemma_drop(before, seat, choice, start, stone_count as nat, i as nat, row, index);
                lemma_cursor_moves(seat, start, i as nat, row, index);
                if last {
                    lemma_last_stone(before, seat, choice, start, stone_count as nat, row, index);
                }
            }
            if stone_index < 6 {
                let held: u8 = self.stones_at(board_index, stone_index);
                self.put_stones(board_index, stone_index, held + 1);
                if board_index == player && last && held == 0 {
                    proof {
                        lemma_capture_moves(self@, seat, stone_index as int);
                    }
                    let stones_to_take: u8 = self.stones_at(1 - board_index, 5 - stone_index);
                    self.put_stones(1 - board_index, 5 - stone_index, 0);
                    self.put_stones(board_index, stone_index, 1 + stones_to_take);
                }
                stone_index += 1;
            } else {
                board_index = 1 - board_index;
                if board_index == player {
                    let held: u8 = self.stones_at(board_index, 0);
                    self.put_stones(board_index, 0, held + 1);
                    stone_index = 1;
                } else {
                    self.score_point(player);
                    stone_index = 0;
                    if last {
                        proof {
                            lemma_goal(before, seat, choice);
                        }
                        return player;
                    }
                }
            }
            i += 1;
        }
        1 - player
    }
}

impl Default for Game {
    fn default() -> (game: Game)
        ensures
            forall|k: int|
                0 <= k < 14 ==> game@[k] == (if k % 7 == 6 {
                    0nat
                } else {
                    STARTING_STONES as nat
                }),
    {
        Game::with_stones(STARTING_STONES)
    }
}

} // verus!
