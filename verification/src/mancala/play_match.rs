//! One match between two bots, turn by turn.
//!
//! The referee holds the game and the patience left with the bot whose turn
//! it is. Whoever runs the match asks that bot for a move, hands the reply to
//! the referee, and goes on until the referee names a winner. Talking to the
//! bots is not done here: a reply arrives as a plain value.

use vstd::prelude::*;

use crate::mancala::laws::{
    lemma_play_conserves_stones, lemma_replay_conserves_stones, lemma_small_total_plays,
};
use crate::mancala::rules::{
    finished, is_position, lane, move_valid, next_player, playable, played, replayed, store, total,
};
use crate::mancala::Game;

verus! {

/// How often in one turn a bot may fail to answer before it is given up.
pub const CONNECTION_RETRY_COUNT: u8 = 8;

/// How often in one turn a bot may send back something unusable.
pub const QUERY_RETRY_COUNT: u8 = 2;

/// How a match ended.
#[derive(Clone, Copy, Debug, PartialEq, Eq, Structural)]
pub enum Winner {
    /// A bot was given up: it did not answer, or what it answered was not a
    /// move. The seat named is the one that loses, so the other seat wins.
    /// The flag says whether the loser is to be removed from the bots that
    /// are matched.
    ByDisqualification(u8, bool),
    /// The game was played to its end. The seat named has more points than
    /// the other, by the margin given.
    FairAndSquare(u8, u8),
    /// The game was played to its end with equal points, or it was called
    /// off through no fault of either bot.
    Tie,
}

/// The move that a bot answers with.
#[derive(Clone, Copy, Debug, PartialEq, Eq, Structural)]
pub struct PlayerResponse {
    pub value: u8,
}

/// Why asking a bot for its move gave no move.
#[derive(Clone, Copy, Debug, PartialEq, Eq, Structural)]
pub enum PlayerResponseError {
    /// The position could not be sent to the bot.
    SendFailed,
    /// Reading the bot's answer failed.
    ReceiveFailed,
    /// The connection closed before an answer came.
    DidNotReceiveResponse,
    /// An answer came, but it cannot be read as a move.
    InvalidResponse,
    /// The position could not be put into words on this side.
    CouldNotSerialize,
}

/// What one exchange with a bot brings back.
pub type Reply = Result<PlayerResponse, PlayerResponseError>;

/// The state of a match as the rules of the protocol see it.
pub struct Turn {
    /// The position, as a ring of fourteen counters.
    pub position: Seq<nat>,
    /// The seat whose move is awaited.
    pub mover: int,
    /// Failures to answer that the mover still has left in this turn.
    pub connection_retries: nat,
    /// Unusable answers that the mover still has left in this turn.
    pub querying_retries: nat,
}

/// The bot could not be reached, or the connection broke.
pub open spec fn is_transport_failure(error: PlayerResponseError) -> bool {
    error is SendFailed || error is ReceiveFailed || error is DidNotReceiveResponse
}

/// A budget after one more use. A used up budget stays used up.
pub open spec fn spent(budget: nat) -> nat {
    if budget > 0 {
        (budget - 1) as nat
    } else {
        0
    }
}

/// The state of the match after `reply` has come in.
///
/// A valid move is played, and the next turn starts with both budgets full.
/// A move that the rules forbid costs one unusable answer. An answer that is
/// not a move costs one unusable answer too, and since the bot was reached,
/// its budget of failures to answer is set to the small starting value of the
/// other budget. A failure to answer costs one of those. Failing to put the
/// position into words changes nothing.
pub open spec fn after_reply(turn: Turn, reply: Reply) -> Turn {
    match reply {
        Ok(response) => if move_valid(turn.position, turn.mover, response.value as int) {
            Turn {
                position: played(turn.position, turn.mover, response.value as int),
                mover: next_player(turn.position, turn.mover, response.value as int),
                connection_retries: CONNECTION_RETRY_COUNT as nat,
                querying_retries: QUERY_RETRY_COUNT as nat,
            }
        } else {
            Turn { querying_retries: spent(turn.querying_retries), ..turn }
        },
        Err(PlayerResponseError::InvalidResponse) => Turn {
            connection_retries: QUERY_RETRY_COUNT as nat,
            querying_retries: spent(turn.querying_retries),
            ..turn
        },
        Err(PlayerResponseError::CouldNotSerialize) => turn,
        Err(_) => Turn { connection_retries: spent(turn.connection_retries), ..turn },
    }
}

/// Whether `reply` ends the match, and how.
///
/// The mover loses and is to be removed once it has no failure to answer
/// left. It loses and stays once an answer that is not a move has used up its
/// unusable answers. A move that the rules forbid never ends the match by
/// itself, however many of them come. Failing to put the position into words
/// ends the match in a tie.
pub open spec fn ruling(turn: Turn, reply: Reply) -> Option<Winner> {
    match reply {
        Ok(_) => None,
        Err(PlayerResponseError::InvalidResponse) => if spent(turn.querying_retries) == 0 {
            Some(Winner::ByDisqualification(turn.mover as u8, false))
        } else {
            None
        },
        Err(PlayerResponseError::CouldNotSerialize) => Some(Winner::Tie),
        Err(_) => if spent(turn.connection_retries) == 0 {
            Some(Winner::ByDisqualification(turn.mover as u8, true))
        } else {
            None
        },
    }
}

/// The result of a game by its points, once no pit holds a stone.
pub open spec fn verdict(position: Seq<nat>) -> Option<Winner> {
    let first = position[store(0)];
    let second = position[store(1)];
    if !finished(position) {
        None
    } else if first == second {
        Some(Winner::Tie)
    } else if first > second {
        Some(Winner::FairAndSquare(0, (first - second) as u8))
    } else {
        Some(Winner::FairAndSquare(1, (second - first) as u8))
    }
}

/// How the match ends when the bots send `replies`, one after the other, each
/// to the question that the match then asks. `None` means that the match is
/// still on when the replies run out. Replies that come after the end of the
/// match are not looked at.
pub open spec fn outcome(turn: Turn, replies: Seq<Reply>) -> Option<Winner>
    decreases replies.len(),
{
    if finished(turn.position) {
        verdict(turn.position)
    } else if replies.len() == 0 {
        None
    } else if ruling(turn, replies[0]) is Some {
        ruling(turn, replies[0])
    } else {
        outcome(after_reply(turn, replies[0]), replies.skip(1))
    }
}

/// The first turn of a match on the standard board: seat 0 moves, and both
/// budgets are full.
pub open spec fn opening() -> Turn {
    Turn {
        position: Seq::new(
            14,
            |k: int|
                if k % 7 == 6 {
                    0nat
                } else {
                    crate::mancala::STARTING_STONES as nat
                },
        ),
        mover: 0,
        connection_retries: CONNECTION_RETRY_COUNT as nat,
        querying_retries: QUERY_RETRY_COUNT as nat,
    }
}

/// Runs one match: keeps the game, knows whose turn it is, and counts what
/// the mover has got wrong in this turn.
#[derive(Clone, Copy, Debug)]
pub struct Referee {
    game: Game,
    current_player: usize,
    connection_retries: u8,
    querying_retries: u8,
}

impl View for Referee {
    type V = Turn;

    closed spec fn view(&self) -> Turn {
        Turn {
            position: self.game@,
            mover: self.current_player as int,
            connection_retries: self.connection_retries as nat,
            querying_retries: self.querying_retries as nat,
        }
    }
}

impl Referee {
    /// What every referee keeps true: the mover is one of the two seats, and
    /// the stones of the game are few enough to be counted in bytes wherever
    /// they go.
    pub open spec fn wf(&self) -> bool {
        &&& is_position(self@.position)
        &&& 0 <= self@.mover < 2
        &&& total(self@.position) <= u8::MAX
    }

    /// A referee for a match on the standard board.
    pub fn new() -> (referee: Referee)
        ensures
            referee.wf(),
            referee@ == opening(),
    {
        let referee = Referee {
            game: Game::default(),
            current_player: 0,
            connection_retries: CONNECTION_RETRY_COUNT,
            querying_retries: QUERY_RETRY_COUNT,
        };
        assert(referee@.position =~= opening().position);
        referee
    }

    /// A referee for a match that starts from `game`, with seat 0 to move.
    /// `None` if the game holds more stones than a byte can count: then a pit
    /// might overflow as the game goes on.
    pub fn start(game: Game) -> (referee: Option<Referee>)
        ensures
            referee is Some <==> total(game@) <= u8::MAX,
            referee matches Some(started) ==> started.wf() && started@ == (Turn {
                position: game@,
                mover: 0,
                connection_retries: CONNECTION_RETRY_COUNT as nat,
                querying_retries: QUERY_RETRY_COUNT as nat,
            }),
    {
        if game.stones() > 255 {
            return None;
        }
        Some(
            Referee {
                game,
                current_player: 0,
                connection_retries: CONNECTION_RETRY_COUNT,
                querying_retries: QUERY_RETRY_COUNT,
            },
        )
    }

    /// The game as it stands.
    pub fn game(&self) -> (game: &Game)
        ensures
            game@ == self@.position,
    {
        &self.game
    }

    /// The seat whose move is awaited.
    pub fn current_player(&self) -> (player: usize)
        ensures
            player == self@.mover,
    {
        self.current_player
    }

    /// Failures to answer that the mover still has left in this turn.
    pub fn connection_retries(&self) -> (left: u8)
        ensures
            left == self@.connection_retries,
    {
        self.connection_retries
    }

    /// Unusable answers that the mover still has left in this turn.
    pub fn querying_retries(&self) -> (left: u8)
        ensures
            left == self@.querying_retries,
    {
        self.querying_retries
    }

    /// The game as the mover is to be shown it: the mover's own side and
    /// points first.
    pub fn shown_to_mover(&self) -> (shown: Game)
        requires
            self.wf(),
        ensures
            forall|k: int|
                0 <= k < 14 ==> #[trigger] shown@[k] == self@.position[lane(self@.mover, k)],
    {
        self.game.seen_by(self.current_player)
    }

    /// The result by points if the game is over, `None` while it is on.
    pub fn verdict(&self) -> (result: Option<Winner>)
        ensures
            result == verdict(self@.position),
    {
        if !self.game.is_finished() {
            return None;
        }
        let first: u8 = self.game.points[0];
        let second: u8 = self.game.points[1];
        assert(first == self@.position[store(0)]);
        assert(second == self@.position[store(1)]);
        if first == second {
            Some(Winner::Tie)
        } else if first > second {
            Some(Winner::FairAndSquare(0, first - second))
        } else {
            Some(Winner::FairAndSquare(1, second - first))
        }
    }

    /// Takes in what one exchange with the mover brought back. Returns the
    /// winner if the reply ends the match, `None` if the match goes on: then
    /// the mover of the new state is to be asked.
    pub fn handle(&mut self, reply: Reply) -> (result: Option<Winner>)
        requires
            old(self).wf(),
        ensures
            final(self).wf(),
            final(self)@ == after_reply(old(self)@, reply),
            result == ruling(old(self)@, reply),
            total(final(self)@.position) == total(old(self)@.position),
    {
        match reply {
            Ok(response) => {
                if self.game.is_move_valid(self.current_player as u8, response.value) {
                    proof {
                        lemma_small_total_plays(
                            self.game@,
                            self.current_player as int,
                            response.value as int,
                        );
                        lemma_play_conserves_stones(
                            self.game@,
                            self.current_player as int,
                            response.value as int,
                        );
                    }
                    self.current_player = self.game.play(
                        self.current_player,
                        response.value as usize,
                    );
                    self.connection_retries = CONNECTION_RETRY_COUNT;
                    self.querying_retries = QUERY_RETRY_COUNT;
                } else {
                    self.querying_retries = self.querying_retries.saturating_sub(1);
                }
                None
            },
            Err(PlayerResponseError::InvalidResponse) => {
                self.connection_retries = QUERY_RETRY_COUNT;
                self.querying_retries = self.querying_retries.saturating_sub(1);
                if self.querying_retries == 0 {
                    Some(Winner::ByDisqualification(self.current_player as u8, false))
                } else {
                    None
                }
            },
            Err(PlayerResponseError::CouldNotSerialize) => Some(Winner::Tie),
            Err(_) => {
                self.connection_retries = self.connection_retries.saturating_sub(1);
                if self.connection_retries == 0 {
                    Some(Winner::ByDisqualification(self.current_player as u8, true))
                } else {
                    None
                }
            },
        }
    }
}

/// How the match ends from `turn` on, when the bots send `replies`. This is
/// [`outcome`], kept folded while the match is played.
#[verifier::opaque]
spec fn rest(turn: Turn, replies: Seq<Reply>) -> Option<Winner> {
    outcome(turn, replies)
}

/// What the next reply does to the rest of the match: nothing if the game
/// is over; it ends the match if the referee rules so; else the match goes
/// on from the state after it, with the replies that follow.
proof fn lemma_rest(turn: Turn, replies: Seq<Reply>, asked: int)
    requires
        0 <= asked <= replies.len(),
    ensures
        asked == 0 ==> rest(turn, replies.skip(asked)) == outcome(turn, replies),
        finished(turn.position) ==> rest(turn, replies.skip(asked)) == verdict(turn.position),
        !finished(turn.position) && asked == replies.len() ==> rest(turn, replies.skip(asked))
            is None,
        !finished(turn.position) && asked < replies.len() ==> rest(turn, replies.skip(asked)) == (
        if ruling(turn, replies[asked]) is Some {
            ruling(turn, replies[asked])
        } else {
            rest(after_reply(turn, replies[asked]), replies.skip(asked + 1))
        }),
{
    reveal(rest);
    assert(replies.skip(0) =~= replies);
    if asked < replies.len() {
        assert(replies.skip(asked).skip(1) =~= replies.skip(asked + 1));
        assert(replies.skip(asked)[0] == replies[asked]);
    }
}

/// Plays a match on the standard board against recorded replies: the first
/// reply answers the first question, and so on. Returns how the match ends,
/// or `None` if it is still on when the replies run out.
pub fn play_match(replies: &Vec<Reply>) -> (result: Option<Winner>)
    ensures
        result == outcome(opening(), replies@),
{
    let mut referee = Referee::new();
    let ghost expected = outcome(opening(), replies@);
    let mut result: Option<Winner> = None;
    let mut asked: usize = 0;
    proof {
        lemma_rest(opening(), replies@, 0);
    }
    loop
        invariant_except_break
            referee.wf(),
            asked <= replies.len(),
            expected == rest(referee@, replies@.skip(asked as int)),
        ensures
            result == expected,
        decreases replies.len() - asked,
    {
        proof {
            lemma_rest(referee@, replies@, asked as int);
        }
        result = referee.verdict();
        if result.is_some() || asked >= replies.len() {
            break;
        }
        result = referee.handle(replies[asked]);
        if result.is_some() {
            break;
        }
        asked += 1;
    }
    result
}

/// A match on the standard board has 48 stones in play, whatever has been
/// played.
pub proof fn lemma_standard_match_keeps_its_stones(moves: Seq<int>)
    requires
        playable(opening().position, 0, moves),
    ensures
        total(opening().position) == 48,
        total(replayed(opening().position, 0, moves).0) == 48,
{
    assert(opening().position[0] == crate::mancala::STARTING_STONES);
    lemma_replay_conserves_stones(opening().position, 0, moves);
}

/// Every one of `replies` is a failure to answer.
pub open spec fn all_silent(replies: Seq<Reply>) -> bool {
    forall|i: int|
        0 <= i < replies.len() ==> (#[trigger] replies[i]) is Err && is_transport_failure(
            replies[i]->Err_0,
        )
}

/// Every one of `replies` is an answer that is not a move.
pub open spec fn all_garbled(replies: Seq<Reply>) -> bool {
    forall|i: int|
        0 <= i < replies.len() ==> #[trigger] replies[i] == Err::<PlayerResponse, _>(
            PlayerResponseError::InvalidResponse,
        )
}

/// A bot that never answers loses with exactly its last failure to answer,
/// not before, and is then to be removed: while fewer failures have come than
/// it had left, the match is on.
pub proof fn lemma_silence_is_given_up(turn: Turn, replies: Seq<Reply>)
    requires
        !finished(turn.position),
        0 <= turn.mover < 2,
        turn.connection_retries >= 1,
        replies.len() <= turn.connection_retries,
        all_silent(replies),
    ensures
        outcome(turn, replies) == (if replies.len() == turn.connection_retries {
            Some(Winner::ByDisqualification(turn.mover as u8, true))
        } else {
            None
        }),
    decreases replies.len(),
{
    if replies.len() > 0 {
        let first = replies[0];
        assert(first is Err && is_transport_failure(first->Err_0));
        if turn.connection_retries > 1 {
            let rest = replies.skip(1);
            assert forall|i: int| 0 <= i < rest.len() implies (#[trigger] rest[i]) is Err
                && is_transport_failure(rest[i]->Err_0) by {
                assert(rest[i] == replies[i + 1]);
            }
            lemma_silence_is_given_up(after_reply(turn, first), rest);
        }
    }
}

/// A bot whose answers are never moves loses with exactly its last unusable
/// answer, not before, and is not removed: while fewer such answers have come
/// than it had left, the match is on.
pub proof fn lemma_garbage_is_forfeit(turn: Turn, replies: Seq<Reply>)
    requires
        !finished(turn.position),
        0 <= turn.mover < 2,
        turn.querying_retries >= 1,
        replies.len() <= turn.querying_retries,
        all_garbled(replies),
    ensures
        outcome(turn, replies) == (if replies.len() == turn.querying_retries {
            Some(Winner::ByDisqualification(turn.mover as u8, false))
        } else {
            None
        }),
    decreases replies.len(),
{
    if replies.len() > 0 {
        let first = replies[0];
        assert(first == Err::<PlayerResponse, _>(PlayerResponseError::InvalidResponse));
        if turn.querying_retries > 1 {
            let rest = replies.skip(1);
            assert forall|i: int| 0 <= i < rest.len() implies #[trigger] rest[i] == Err::<
                PlayerResponse,
                _,
            >(PlayerResponseError::InvalidResponse) by {
                assert(rest[i] == replies[i + 1]);
            }
            lemma_garbage_is_forfeit(after_reply(turn, first), rest);
        }
    }
}

/// Every one of `replies` is a move that the rules forbid the mover of `turn`
/// in its position.
pub open spec fn all_against_rules(turn: Turn, replies: Seq<Reply>) -> bool {
    forall|i: int|
        0 <= i < replies.len() ==> (#[trigger] replies[i]) is Ok && !move_valid(
            turn.position,
            turn.mover,
            replies[i]->Ok_0.value as int,
        )
}

/// Moves that the rules forbid never end a match, however many of them come:
/// a bot that answers with nothing else keeps the match waiting for as long
/// as it answers.
pub proof fn lemma_forbidden_moves_stall(turn: Turn, replies: Seq<Reply>)
    requires
        !finished(turn.position),
        all_against_rules(turn, replies),
    ensures
        outcome(turn, replies) is None,
    decreases replies.len(),
{
    if replies.len() > 0 {
        let first = replies[0];
        assert(first is Ok && !move_valid(turn.position, turn.mover, first->Ok_0.value as int));
        let later = replies.skip(1);
        let next = after_reply(turn, first);
        assert forall|i: int| 0 <= i < later.len() implies (#[trigger] later[i]) is Ok
            && !move_valid(next.position, next.mover, later[i]->Ok_0.value as int) by {
            assert(later[i] == replies[i + 1]);
        }
        lemma_forbidden_moves_stall(next, later);
    }
}

/// On the standard board the first mover is given up after exactly eight
/// failures to answer, and forfeits after exactly two answers that are not
/// moves.
pub proof fn lemma_opening_budgets(replies: Seq<Reply>)
    ensures
        all_silent(replies) && replies.len() <= 8 ==> outcome(opening(), replies) == (
        if replies.len() == 8 {
            Some(Winner::ByDisqualification(0, true))
        } else {
            None
        }),
        all_garbled(replies) && replies.len() <= 2 ==> outcome(opening(), replies) == (
        if replies.len() == 2 {
            Some(Winner::ByDisqualification(0, false))
        } else {
            None
        }),
{
    assert(opening().position[0] == crate::mancala::STARTING_STONES);
    if all_silent(replies) && replies.len() <= 8 {
        lemma_silence_is_given_up(opening(), replies);
    }
    if all_garbled(replies) && replies.len() <= 2 {
        lemma_garbage_is_forfeit(opening(), replies);
    }
}

} // verus!
