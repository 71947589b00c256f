//! The bots that are logged in, and the two pools they wait in.

use vstd::prelude::*;

use crate::mancala::play_match::opening;
use crate::mancala::Game;

verus! {

/// A bot as the matchmaker knows it. Two bots are the same bot if they have
/// the same id, whatever their names and ratings say.
#[derive(Debug)]
pub struct Bot {
    pub name: String,
    pub id: u16,
    pub elo: u16,
    /// Whether a channel to the bot is open.
    pub connected: bool,
}

impl Clone for Bot {
    fn clone(&self) -> (copy: Bot)
        ensures
            copy == *self,
    {
        Bot { name: self.name.clone(), id: self.id, elo: self.elo, connected: self.connected }
    }
}

impl PartialEq for Bot {
    fn eq(&self, other: &Bot) -> (same: bool) {
        self.id == other.id
    }
}

impl Eq for Bot {

}

impl vstd::std_specs::cmp::PartialEqSpecImpl for Bot {
    open spec fn obeys_eq_spec() -> bool {
        true
    }

    open spec fn eq_spec(&self, other: &Bot) -> bool {
        self.id == other.id
    }
}

/// Two bots seated for a game: `players[0]` moves first.
#[derive(Debug)]
pub struct Match {
    pub game: Game,
    pub players: [Bot; 2],
}

impl Clone for Match {
    fn clone(&self) -> (copy: Match)
        ensures
            copy.game == self.game,
            copy.players[0] == self.players[0],
            copy.players[1] == self.players[1],
    {
        Match { game: self.game, players: [self.players[0].clone(), self.players[1].clone()] }
    }
}

impl Match {
    /// Seats `first` and `second` at a fresh standard board.
    pub fn new(first: Bot, second: Bot) -> (seated: Match)
        ensures
            seated.game@ == opening().position,
            seated.players[0] == first,
            seated.players[1] == second,
    {
        let seated = Match { game: Game::default(), players: [first, second] };
        assert(seated.game@ =~= opening().position);
        seated
    }
}

/// A bot with this id is among `bots`.
pub open spec fn holds(bots: Seq<Bot>, id: u16) -> bool {
    exists|i: int| 0 <= i < bots.len() && (#[trigger] bots[i]).id == id
}

/// No two of `bots` have the same id.
pub open spec fn distinct(bots: Seq<Bot>) -> bool {
    forall|i: int, j: int|
        0 <= i < j < bots.len() ==> (#[trigger] bots[i]).id != (#[trigger] bots[j]).id
}

/// Where in `bots` the first bot with this id stands, if one is there.
pub fn position_of(bots: &Vec<Bot>, id: u16) -> (found: Option<usize>)
    ensures
        found is None <==> !holds(bots@, id),
        found matches Some(at) ==> {
            &&& at < bots.len()
            &&& bots[at as int].id == id
            &&& forall|i: int| 0 <= i < at ==> (#[trigger] bots[i]).id != id
        },
{
    let mut at: usize = 0;
    while at < bots.len()
        invariant
            at <= bots.len(),
            forall|i: int| 0 <= i < at ==> (#[trigger] bots[i]).id != id,
        decreases bots.len() - at,
    {
        if bots[at].id == id {
            return Some(at);
        }
        at += 1;
    }
    None
}

/// The pools of the matchmaker: the bots that have logged in and wait for
/// their first matches, in the order in which they came, and the bots that
/// have had them and are matched against every newcomer.
pub struct AppState {
    pub(crate) pending_bots: Vec<Bot>,
    pub(crate) connected_bots: Vec<Bot>,
}

impl AppState {
    /// The bots that wait for their first matches, oldest first.
    pub closed spec fn pending(&self) -> Seq<Bot> {
        self.pending_bots@
    }

    /// The bots that newcomers are matched against.
    pub closed spec fn connected(&self) -> Seq<Bot> {
        self.connected_bots@
    }

    /// A bot is in the pools at most once: no id occurs twice in either pool,
    /// and none occurs in both.
    pub open spec fn wf(&self) -> bool {
        &&& distinct(self.pending())
        &&& distinct(self.connected())
        &&& forall|id: u16| !(holds(self.pending(), id) && holds(self.connected(), id))
    }

    /// The bot with this id is in one of the pools.
    pub open spec fn logged_in(&self, id: u16) -> bool {
        holds(self.pending(), id) || holds(self.connected(), id)
    }

    /// The two pools are the two vectors.
    pub(crate) proof fn lemma_pools(&self)
        ensures
            self.pending() == self.pending_bots@,
            self.connected() == self.connected_bots@,
    {
    }

    /// Two empty pools.
    pub fn new() -> (state: AppState)
        ensures
            state.wf(),
            state.pending() == Seq::<Bot>::empty(),
            state.connected() == Seq::<Bot>::empty(),
    {
        AppState { pending_bots: Vec::new(), connected_bots: Vec::new() }
    }

    /// The bots that wait for their first matches, oldest first.
    pub fn pending_bots(&self) -> (bots: &Vec<Bot>)
        ensures
            bots@ == self.pending(),
    {
        &self.pending_bots
    }

    /// The bots that newcomers are matched against.
    pub fn connected_bots(&self) -> (bots: &Vec<Bot>)
        ensures
            bots@ == self.connected(),
    {
        &self.connected_bots
    }

    /// Whether the bot with this id is in one of the pools.
    pub fn is_logged_in(&self, id: u16) -> (inside: bool)
        ensures
            inside == self.logged_in(id),
    {
        position_of(&self.pending_bots, id).is_some() || position_of(
            &self.connected_bots,
            id,
        ).is_some()
    }

    /// Lets a bot that has just logged in wait for its first matches, behind
    /// those that wait already. A bot that is in one of the pools is turned
    /// away, and nothing changes.
    pub fn enqueue(&mut self, bot: Bot) -> (queued: bool)
        requires
            old(self).wf(),
        ensures
            final(self).wf(),
            queued == !old(self).logged_in(bot.id),
            final(self).connected() == old(self).connected(),
            final(self).pending() == (if queued {
                old(self).pending().push(bot)
            } else {
                old(self).pending()
            }),
    {
        if self.is_logged_in(bot.id) {
            return false;
        }
        let ghost before = self.pending_bots@;
        let ghost id = bot.id;
        self.pending_bots.push(bot);
        proof {
            let after = self.pending_bots@;
            assert forall|other: u16| !(holds(after, other) && holds(self.connected_bots@, other)) by {
                if holds(after, other) && holds(self.connected_bots@, other) {
                    let i = choose|i: int| 0 <= i < after.len() && (#[trigger] after[i]).id == other;
                    if i < before.len() {
                        assert(before[i].id == other);
                    }
                }
            }
            assert forall|i: int, j: int| 0 <= i < j < after.len() implies (#[trigger] after[i]).id
                != (#[trigger] after[j]).id by {
                if j == before.len() {
                    assert(before[i].id != id);
                } else {
                    assert(before[i].id != before[j].id);
                }
            }
        }
        true
    }

    /// Removes the bot with this id from the bots that newcomers are matched
    /// against. Returns whether it was there; if it was not, nothing changes.
    pub fn evict(&mut self, id: u16) -> (removed: bool)
        requires
            old(self).wf(),
        ensures
            final(self).wf(),
            removed == holds(old(self).connected(), id),
            final(self).pending() == old(self).pending(),
            !removed ==> final(self).connected() == old(self).connected(),
            removed ==> !holds(final(self).connected(), id),
            removed ==> exists|at: int|
                0 <= at < old(self).connected().len() && (#[trigger] old(self).connected()[at]).id
                    == id && final(self).connected() == old(self).connected().remove(at),
    {
        match position_of(&self.connected_bots, id) {
            None => false,
            Some(at) => {
                let ghost before = self.connected_bots@;
                self.connected_bots.remove(at);
                proof {
                    let after = self.connected_bots@;
                    assert(after == before.remove(at as int));
                    assert forall|i: int| 0 <= i < after.len() implies (#[trigger] after[i]).id
                        != id by {
                        if i < at {
                            assert(after[i] == before[i]);
                            assert(before[i].id != before[at as int].id);
                        } else {
                            assert(after[i] == before[i + 1]);
                            assert(before[at as int].id != before[i + 1].id);
                        }
                    }
                    assert forall|i: int, j: int| 0 <= i < j < after.len() implies (
                    #[trigger] after[i]).id != (#[trigger] after[j]).id by {
                        let from_i = if i < at { i } else { i + 1 };
                        let from_j = if j < at { j } else { j + 1 };
                        assert(after[i] == before[from_i]);
                        assert(after[j] == before[from_j]);
                        assert(before[from_i].id != before[from_j].id);
                    }
                    assert forall|other: u16|
                        !(holds(self.pending_bots@, other) && holds(after, other)) by {
                        if holds(after, other) {
                            let i = choose|i: int|
                                0 <= i < after.len() && (#[trigger] after[i]).id == other;
                            let from_i = if i < at { i } else { i + 1 };
                            assert(before[from_i].id == other);
                            assert(holds(before, other));
                        }
                    }
                }
                true
            },
        }
    }
}

} // verus!
