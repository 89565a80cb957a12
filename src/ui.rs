//! The interaction states: waiting for a player's move, waiting for a
//! target, and the end of the game. What they show is drawn elsewhere; here
//! is what they do with events.

use crate::automaton::{AutomatonState, GameEndedState, GameEvent, StateAction, Step};
use crate::game_control::is_first_defeated;
use crate::game_logic::{BoardState, GameplayState};
use crate::game_objects::BoardZone;
use vstd::prelude::*;

verus! {

/// Waits for a human player's move and hands it to the gameplay state.
#[derive(Debug)]
pub struct TakeTurnState {
    gameplay_state: Box<GameplayState>,
}

impl TakeTurnState {
    pub closed spec fn gameplay(self) -> GameplayState {
        *self.gameplay_state
    }

    pub open spec fn wf(self) -> bool {
        self.gameplay().wf()
    }

    pub fn new(gameplay_state: Box<GameplayState>) -> (r: Box<Self>)
        ensures
            r.gameplay() == *gameplay_state,
    {
        Box::new(Self { gameplay_state })
    }

    /// The gameplay state this one waits for.
    pub fn gameplay_state(&self) -> (r: &GameplayState)
        ensures
            *r == self.gameplay(),
    {
        &self.gameplay_state
    }

    /// The move that a click on the card at `idx` of `zone` makes: a hand
    /// card is picked, a store card is bought, other zones do nothing.
    pub fn click_event(&self, zone: BoardZone, idx: usize) -> (r: Option<GameEvent>)
        requires
            self.wf(),
        ensures
            zone == BoardZone::Hand ==> r == Some(GameEvent::CardPicked(idx)),
            zone != BoardZone::Hand && self.gameplay().board().has_store(zone) ==> r == Some(
                GameEvent::CardBought(zone, idx),
            ),
            zone != BoardZone::Hand && !self.gameplay().board().has_store(zone) ==> r.is_none(),
    {
        if zone == BoardZone::Hand {
            Some(GameEvent::CardPicked(idx))
        } else if self.gameplay_state.get_board().find_store(zone).is_some() {
            Some(GameEvent::CardBought(zone, idx))
        } else {
            None
        }
    }

    /// A move (a pick, a purchase, the end of the turn) goes to the gameplay
    /// state; `GameEnded` ends the game; anything else is ignored.
    /// `r` is what handling `event` gives: a move is the gameplay state's
    /// step, `GameEnded` ends the game, anything else leaves this state on
    /// top.
    pub open spec fn event_step(self, event: GameEvent, r: Step) -> bool {
        &&& (event is CardPicked || event is CardBought || event is EndTurn) ==> self.gameplay().event_step(
            event,
            r,
        )
        &&& event is GameEnded ==> {
            &&& r.1.is_none()
            &&& r.0 matches StateAction::Replace(AutomatonState::Ended(_))
        }
        &&& !(event is CardPicked || event is CardBought || event is EndTurn || event is GameEnded) ==> {
            &&& r.1.is_none()
            &&& r.0 matches StateAction::Keep(AutomatonState::TakeTurn(t))
            &&& t == self
        }
    }

    pub fn event(self, event: GameEvent) -> (r: Step)
        requires
            self.wf(),
        ensures
            r.0.wf(),
            self.event_step(event, r),
    {
        match event {
            GameEvent::CardPicked(_) | GameEvent::CardBought(_, _) | GameEvent::EndTurn => {
                (*self.gameplay_state).event(event)
            },
            GameEvent::GameEnded => (StateAction::Replace(AutomatonState::Ended(GameEndedState)), None),
            _ => (StateAction::Keep(AutomatonState::TakeTurn(self)), None),
        }
    }
}

/// Waits for a human player to pick the target of a played card.
#[derive(Debug)]
pub struct TargetingState {
    gameplay_state: Box<GameplayState>,
    acting_card_source: BoardZone,
    acting_card_idx: usize,
    target_zone: BoardZone,
}

impl TargetingState {
    pub closed spec fn gameplay(self) -> GameplayState {
        *self.gameplay_state
    }

    pub closed spec fn source(self) -> BoardZone {
        self.acting_card_source
    }

    pub closed spec fn card(self) -> usize {
        self.acting_card_idx
    }

    pub closed spec fn zone(self) -> BoardZone {
        self.target_zone
    }

    pub open spec fn wf(self) -> bool {
        self.gameplay().wf()
    }

    pub fn new(
        gameplay_state: Box<GameplayState>,
        acting_card_source: BoardZone,
        acting_card_idx: usize,
        target_zone: BoardZone,
    ) -> (r: Box<Self>)
        ensures
            r.gameplay() == *gameplay_state,
            r.source() == acting_card_source,
            r.card() == acting_card_idx,
            r.zone() == target_zone,
    {
        Box::new(Self { gameplay_state, acting_card_source, acting_card_idx, target_zone })
    }

    /// The gameplay state this one waits for.
    pub fn gameplay_state(&self) -> (r: &GameplayState)
        ensures
            *r == self.gameplay(),
    {
        &self.gameplay_state
    }

    /// The zone whose cards can be picked.
    pub fn target_zone(&self) -> (r: BoardZone)
        ensures
            r == self.zone(),
    {
        self.target_zone
    }

    /// The answer to a choice of `target`.
    pub open spec fn response(self, target: Option<usize>) -> GameEvent {
        match target {
            Some(idx) => GameEvent::CardTargeted(self.source(), self.card(), self.zone(), idx),
            None => GameEvent::CardTargeted(self.source(), self.card(), BoardZone::NoZone, 0),
        }
    }

    /// The event that answers a choice: the picked index in the target
    /// zone, or no zone when nothing was picked.
    pub fn response_event(&self, target: Option<usize>) -> (r: GameEvent)
        ensures
            r == self.response(target),
    {
        match target {
            Some(idx) => GameEvent::CardTargeted(
                self.acting_card_source,
                self.acting_card_idx,
                self.target_zone,
                idx,
            ),
            None => GameEvent::CardTargeted(self.acting_card_source, self.acting_card_idx, BoardZone::NoZone, 0),
        }
    }

    /// The answer that a click on the card at `idx` of `zone` gives: a card of
    /// the target zone is picked, other zones do nothing.
    pub fn click_event(&self, zone: BoardZone, idx: usize) -> (r: Option<GameEvent>)
        ensures
            zone == self.zone() ==> r == Some(GameEvent::CardTargeted(self.source(), self.card(), self.zone(), idx)),
            zone != self.zone() ==> r.is_none(),
    {
        if zone == self.target_zone {
            Some(self.response_event(Some(idx)))
        } else {
            None
        }
    }

    /// Answers the choice to the gameplay state.
    pub fn target_selected(self, target: Option<usize>) -> (r: Step)
        requires
            self.wf(),
        ensures
            r.0.wf(),
            self.gameplay().event_step(self.response(target), r),
    {
        let event = self.response_event(target);
        (*self.gameplay_state).event(event)
    }

    /// A target (or its cancellation) goes to the gameplay state; `GameEnded`
    /// ends the game; anything else is ignored.
    /// `r` is what handling `event` gives: a target (or its cancellation) is
    /// the gameplay state's step, `GameEnded` ends the game, anything else
    /// leaves this state on top.
    pub open spec fn event_step(self, event: GameEvent, r: Step) -> bool {
        &&& event is CardTargeted ==> self.gameplay().event_step(event, r)
        &&& event is GameEnded ==> {
            &&& r.1.is_none()
            &&& r.0 matches StateAction::Replace(AutomatonState::Ended(_))
        }
        &&& !(event is CardTargeted || event is GameEnded) ==> {
            &&& r.1.is_none()
            &&& r.0 matches StateAction::Keep(AutomatonState::Targeting(t))
            &&& t == self
        }
    }

    pub fn event(self, event: GameEvent) -> (r: Step)
        requires
            self.wf(),
        ensures
            r.0.wf(),
            self.event_step(event, r),
    {
        match event {
            GameEvent::CardTargeted(_, _, _, _) => (*self.gameplay_state).event(event),
            GameEvent::GameEnded => (StateAction::Replace(AutomatonState::Ended(GameEndedState)), None),
            _ => (StateAction::Keep(AutomatonState::Targeting(self)), None),
        }
    }
}

/// The end of the game: every board, and the first one that was defeated.
#[derive(Debug)]
pub struct GameEndState {
    boards: Vec<BoardState>,
    loser: Option<usize>,
}

impl GameEndState {
    pub closed spec fn boards_view(self) -> Seq<BoardState> {
        self.boards@
    }

    pub closed spec fn loser_view(self) -> Option<usize> {
        self.loser
    }

    pub fn new(boards: Vec<BoardState>) -> (r: Box<Self>)
        ensures
            r.boards_view() == boards@,
            r.loser_view() matches Some(l) ==> is_first_defeated(boards@, l as int),
            r.loser_view() is None ==> forall|j: int|
                0 <= j < boards@.len() ==> (#[trigger] boards@[j]).buildings@.len() > 0,
    {
        let mut i: usize = 0;
        let mut loser: Option<usize> = None;
        while i < boards.len() && loser.is_none()
            invariant
                i <= boards@.len(),
                forall|j: int| 0 <= j < i ==> (#[trigger] boards@[j]).buildings@.len() > 0,
                loser matches Some(l) ==> is_first_defeated(boards@, l as int),
            decreases boards@.len() - i + if loser is None { 1int } else { 0int },
        {
            if boards[i].is_defeated() {
                loser = Some(i);
            } else {
                i = i + 1;
            }
        }
        Box::new(Self { boards, loser })
    }

    /// The boards at the end of the game.
    pub fn boards(&self) -> (r: &Vec<BoardState>)
        ensures
            r@ == self.boards_view(),
    {
        &self.boards
    }

    /// The index of the board that lost.
    pub fn loser(&self) -> (r: Option<usize>)
        ensures
            r == self.loser_view(),
    {
        self.loser
    }

    /// `GameEnded` ends the game; anything else is ignored.
    /// `r` is what handling `event` gives: `GameEnded` ends the game,
    /// anything else leaves this state on top.
    pub open spec fn event_step(self, event: GameEvent, r: Step) -> bool {
        &&& r.1.is_none()
        &&& event is GameEnded ==> (r.0 matches StateAction::Replace(AutomatonState::Ended(_)))
        &&& !(event is GameEnded) ==> {
            &&& r.0 matches StateAction::Keep(AutomatonState::GameEnd(e))
            &&& e == self
        }
    }

    pub fn event(self, event: GameEvent) -> (r: Step)
        ensures
            self.event_step(event, r),
    {
        match event {
            GameEvent::GameEnded => (StateAction::Replace(AutomatonState::Ended(GameEndedState)), None),
            _ => (StateAction::Keep(AutomatonState::GameEnd(self)), None),
        }
    }
}

} // verus!
