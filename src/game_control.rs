//! Players and the rotation of turns between their boards.

use crate::automaton::{AutomatonState, GameEvent, StateAction, Step};
use crate::game_logic::{BoardState, GameplayState};
use crate::ui::GameEndState;
use vstd::prelude::*;

verus! {

/// Who makes a player's decisions.
#[derive(Clone, Copy, Debug, PartialEq, Eq, Structural)]
pub enum PlayerControl {
    Human,
    AI,
}

impl Default for PlayerControl {
    fn default() -> (r: Self)
        ensures
            r == PlayerControl::Human,
    {
        PlayerControl::Human
    }
}

/// A player: a name, the names of the starting deck and buildings, who
/// controls it, and the index of its opponent's board.
#[derive(Debug)]
pub struct Player {
    pub name: String,
    pub starting_deck: String,
    pub starting_buildings: String,
    pub control: PlayerControl,
    pub opponent_idx: usize,
}

impl Clone for Player {
    fn clone(&self) -> (r: Self)
        ensures
            r == *self,
    {
        Player {
            name: self.name.clone(),
            starting_deck: self.starting_deck.clone(),
            starting_buildings: self.starting_buildings.clone(),
            control: self.control,
            opponent_idx: self.opponent_idx,
        }
    }
}

impl PartialEq for Player {
    /// Players are told apart by name.
    fn eq(&self, other: &Self) -> (r: bool)
        ensures
            r == (self.name@ == other.name@),
    {
        self.name == other.name
    }
}

impl vstd::std_specs::cmp::PartialEqSpecImpl for Player {
    open spec fn obeys_eq_spec() -> bool {
        true
    }

    open spec fn eq_spec(&self, other: &Player) -> bool {
        self.name@ == other.name@
    }
}


/// How many of `boards` still have a building.
pub open spec fn standing(boards: Seq<BoardState>) -> nat
    decreases boards.len(),
{
    if boards.len() == 0 {
        0
    } else {
        standing(boards.drop_last()) + if boards.last().buildings@.len() > 0 {
            1nat
        } else {
            0nat
        }
    }
}

/// `i` is the first of `boards` that has no building left.
pub open spec fn is_first_defeated(boards: Seq<BoardState>, i: int) -> bool {
    &&& 0 <= i < boards.len()
    &&& boards[i].buildings@.len() == 0
    &&& forall|j: int| 0 <= j < i ==> (#[trigger] boards[j]).buildings@.len() > 0
}

/// Defeat in a two-player game: when exactly one of two boards has no
/// building left, exactly one board still stands and that board is the
/// first defeated one, so the end of the game names it as the loser.
pub proof fn lemma_two_player_defeat(boards: Seq<BoardState>, d: int)
    requires
        boards.len() == 2,
        0 <= d < 2,
        boards[d].buildings@.len() == 0,
        boards[1 - d].buildings@.len() > 0,
    ensures
        standing(boards) == 1,
        is_first_defeated(boards, d),
        forall|l: int| is_first_defeated(boards, l) ==> l == d,
{
    let first = boards.drop_last();
    assert(first.drop_last().len() == 0);
    assert(standing(first.drop_last()) == 0);
    assert(first.last() == boards[0]);
    assert(boards.last() == boards[1]);
    assert(standing(first) == if boards[0].buildings@.len() > 0 { 1nat } else { 0nat });
}

/// The boards of every player and whose turn it is.
#[derive(Debug)]
pub struct GameControlState {
    player_boards: Vec<BoardState>,
    current_player_idx: usize,
    round: i16,
}

impl GameControlState {
    pub closed spec fn boards(self) -> Seq<BoardState> {
        self.player_boards@
    }

    pub closed spec fn current(self) -> int {
        self.current_player_idx as int
    }

    pub closed spec fn rounds(self) -> int {
        self.round as int
    }

    /// There is a board, the current player has one, and every player names
    /// another player's board as its opponent.
    pub open spec fn boards_wf(boards: Seq<BoardState>) -> bool {
        &&& boards.len() > 0
        &&& forall|i: int|
            0 <= i < boards.len() ==> {
                &&& (#[trigger] boards[i]).player.opponent_idx < boards.len()
                &&& boards[i].player.opponent_idx != i
            }
    }

    pub open spec fn wf(self) -> bool {
        &&& Self::boards_wf(self.boards())
        &&& 0 <= self.current() < self.boards().len()
    }

    /// The player whose turn follows the current one, wrapping around.
    pub open spec fn next_player(self) -> int {
        if self.current() + 1 >= self.boards().len() {
            0
        } else {
            self.current() + 1
        }
    }

    pub fn new(player_boards: Vec<BoardState>) -> (r: Self)
        requires
            Self::boards_wf(player_boards@),
        ensures
            r.wf(),
            r.boards() == player_boards@,
            r.current() == 0,
            r.rounds() == 0,
    {
        Self { player_boards: player_boards, current_player_idx: 0, round: 0 }
    }

    /// Hands control to the first player.
    pub fn overtake(self) -> (r: Step)
        requires
            self.wf(),
        ensures
            r.0.wf(),
            r.1 == Some(GameEvent::StartTurn),
            ({
                &&& r.0 matches StateAction::Replace(AutomatonState::Gameplay(g))
                &&& g.board_index() == 0
                &&& g.controller_boards() == self.boards()
            }),
    {
        self.start_player_turn(0)
    }

    pub fn get_board(&self, idx: usize) -> (r: &BoardState)
        requires
            idx < self.boards().len(),
        ensures
            *r == self.boards()[idx as int],
    {
        &self.player_boards[idx]
    }

    pub fn get_board_mut(&mut self, idx: usize) -> (r: &mut BoardState)
        requires
            idx < old(self).boards().len(),
        ensures
            *r == old(self).boards()[idx as int],
            final(self).boards() == old(self).boards().update(idx as int, *final(r)),
            final(self).current() == old(self).current(),
            final(self).rounds() == old(self).rounds(),
    {
        &mut self.player_boards[idx]
    }

    /// Starts the turn of the player at `idx`: a gameplay state for that board
    /// and its opponent's, entered with `StartTurn`.
    pub fn start_player_turn(self, idx: usize) -> (r: Step)
        requires
            self.wf(),
            idx < self.boards().len(),
        ensures
            r.0.wf(),
            r.1 == Some(GameEvent::StartTurn),
            ({
                &&& r.0 matches StateAction::Replace(AutomatonState::Gameplay(g))
                &&& g.board_index() == idx
                &&& g.opponent_index() == self.boards()[idx as int].player.opponent_idx
                &&& g.control() == self
            }),
    {
        let opponent_idx = self.player_boards[idx].player.opponent_idx;
        let g = GameplayState::new(Box::new(self), idx, opponent_idx);
        (StateAction::Replace(AutomatonState::Gameplay(*g)), Some(GameEvent::StartTurn))
    }

    /// How many boards still have a building.
    fn count_standing(&self) -> (r: usize)
        ensures
            r == standing(self.boards()),
    {
        let mut n: usize = 0;
        let mut i: usize = 0;
        while i < self.player_boards.len()
            invariant
                i <= self.boards().len(),
                n == standing(self.boards().subrange(0, i as int)),
                n <= i,
            decreases self.boards().len() - i,
        {
            proof {
                assert(self.boards().subrange(0, i as int + 1).drop_last() =~= self.boards().subrange(0, i as int));
            }
            if !self.player_boards[i].is_defeated() {
                n = n + 1;
            }
            i = i + 1;
        }
        proof {
            assert(self.boards().subrange(0, i as int) =~= self.boards());
        }
        n
    }

    /// The round counter after the current turn ends: it advances when play
    /// wraps back to the first player, and stays at its maximum once there.
    pub open spec fn next_round(self) -> int {
        if self.current() + 1 >= self.boards().len() && self.rounds() < i16::MAX {
            self.rounds() + 1
        } else {
            self.rounds()
        }
    }

    /// `r` is what follows the end of the current turn: when exactly one board
    /// still has a building, the end of the game with every board and the
    /// first defeated one as loser; otherwise the next player's turn, entered
    /// with `StartTurn`.
    pub open spec fn turn_passed(self, r: Step) -> bool {
        &&& standing(self.boards()) == 1 ==> {
            &&& r.1.is_none()
            &&& r.0 matches StateAction::Replace(AutomatonState::GameEnd(e))
            &&& e.boards_view() == self.boards()
            &&& e.loser_view() matches Some(l) ==> is_first_defeated(self.boards(), l as int)
            &&& e.loser_view() is None ==> forall|j: int|
                0 <= j < self.boards().len() ==> (#[trigger] self.boards()[j]).buildings@.len() > 0
        }
        &&& standing(self.boards()) != 1 ==> {
            &&& r.1 == Some(GameEvent::StartTurn)
            &&& r.0 matches StateAction::Replace(AutomatonState::Gameplay(g))
            &&& g.board_index() == self.next_player()
            &&& g.opponent_index() == self.boards()[self.next_player()].player.opponent_idx
            &&& g.controller_boards() == self.boards()
            &&& g.control().current() == self.next_player()
            &&& g.controller_rounds() == self.next_round()
        }
    }

    /// Handles the end of a turn: when exactly one board still has a building
    /// the game ends, otherwise the next player's turn starts (after the last
    /// player a new round begins). This state receives no other event.
    pub fn event(self, event: GameEvent) -> (r: Step)
        requires
            self.wf(),
            event == GameEvent::EndTurn,
        ensures
            r.0.wf(),
            self.turn_passed(r),
    {
        if self.count_standing() == 1 {
            let me = self;
            let e = GameEndState::new(me.player_boards);
            (StateAction::Replace(AutomatonState::GameEnd(*e)), None)
        } else {
            let mut me = self;
            if me.current_player_idx >= me.player_boards.len() - 1 {
                if me.round < i16::MAX {
                    me.round = me.round + 1;
                }
                me.current_player_idx = 0;
            } else {
                me.current_player_idx = me.current_player_idx + 1;
            }
            let idx = me.current_player_idx;
            me.start_player_turn(idx)
        }
    }
}

} // verus!
