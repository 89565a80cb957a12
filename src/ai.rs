//! The decision-maker of a computer-controlled player.

use crate::automaton::GameEvent;
use crate::game_logic::BoardState;
use crate::game_objects::{BoardZone, CardModel};
use vstd::prelude::*;

verus! {

/// Some card of `cards` is available.
pub open spec fn has_available(cards: Seq<CardModel>) -> bool {
    exists|j: int| 0 <= j < cards.len() && (#[trigger] cards[j]).available
}

/// `j` is the last available card of `cards`.
pub open spec fn is_last_available(cards: Seq<CardModel>, j: int) -> bool {
    &&& 0 <= j < cards.len()
    &&& cards[j].available
    &&& forall|k: int| j < k < cards.len() ==> !(#[trigger] cards[k]).available
}

/// The computer can play the hand card at `i`: it needs no target, or its
/// target zone holds an available card.
pub open spec fn playable(board: BoardState, i: int) -> bool {
    let zone = board.hand@[i].target_zone;
    zone == BoardZone::NoZone || (board.has_zone(zone) && has_available(board.container(zone)@))
}

/// `e` is the move the computer picks on `board`: the first playable hand
/// card, or the end of the turn when none is playable.
pub open spec fn selects(board: BoardState, e: GameEvent) -> bool {
    &&& e is CardPicked || e is EndTurn
    &&& e matches GameEvent::CardPicked(i) ==> {
        &&& i < board.hand@.len()
        &&& playable(board, i as int)
        &&& forall|j: int| 0 <= j < i ==> !playable(board, j)
    }
    &&& e is EndTurn ==> forall|j: int| 0 <= j < board.hand@.len() ==> !playable(board, j)
}

/// `e` is the target the computer picks on `board` for the hand card at
/// `card_idx` aimed at `zone`: the last available card there, or nothing.
pub open spec fn aims(board: BoardState, card_idx: usize, zone: BoardZone, e: GameEvent) -> bool {
    let open = board.has_zone(zone) && has_available(board.container(zone)@);
    &&& open ==> ({
        &&& e matches GameEvent::CardTargeted(BoardZone::Hand, c, z, j)
        &&& c == card_idx
        &&& z == zone
        &&& is_last_available(board.container(zone)@, j as int)
    })
    &&& !open ==> e == GameEvent::CardTargeted(BoardZone::NoZone, 0, BoardZone::NoZone, 0)
}

/// The strategy of a computer-controlled player: it plays the first hand
/// card it can, ends its turn when there is none, and aims at the last
/// available card of the target zone.
#[derive(Debug, Clone, Copy)]
pub struct AI {}

impl AI {
    pub fn new() -> (r: Box<Self>) {
        Box::new(Self {})
    }

    /// Picks the first playable hand card, or ends the turn.
    pub fn select_card(&self, board: &BoardState) -> (r: GameEvent)
        ensures
            selects(*board, r),
    {
        let mut i: usize = 0;
        while i < board.hand.cards.len()
            invariant
                i <= board.hand@.len(),
                forall|j: int| 0 <= j < i ==> !playable(*board, j),
            decreases board.hand@.len() - i,
        {
            let zone = board.hand.cards[i].target_zone;
            if zone == BoardZone::NoZone {
                return GameEvent::CardPicked(i);
            }
            match board.container_ref(zone) {
                Some(c) => {
                    if last_available(c).is_some() {
                        return GameEvent::CardPicked(i);
                    }
                },
                None => {},
            }
            i = i + 1;
        }
        GameEvent::EndTurn
    }

    /// Aims the hand card at `card_idx` at the last available card of
    /// `card_target`, or at nothing when there is none.
    pub fn target_card(&self, board: &BoardState, card_idx: usize, card_target: BoardZone) -> (r: GameEvent)
        ensures
            aims(*board, card_idx, card_target, r),
    {
        let target = match board.container_ref(card_target) {
            Some(c) => last_available(c),
            None => None,
        };
        match target {
            Some(idx) => GameEvent::CardTargeted(BoardZone::Hand, card_idx, card_target, idx),
            None => GameEvent::CardTargeted(BoardZone::NoZone, 0, BoardZone::NoZone, 0),
        }
    }
}

/// The index of the last available card of `c`.
fn last_available(c: &crate::game_objects::CardContainer) -> (r: Option<usize>)
    ensures
        r is None <==> !has_available(c@),
        r matches Some(j) ==> is_last_available(c@, j as int),
{
    let mut i: usize = c.cards.len();
    while i > 0
        invariant
            i <= c@.len(),
            forall|k: int| i <= k < c@.len() ==> !(#[trigger] c@[k]).available,
        decreases i,
    {
        if c.cards[i - 1].available {
            assert(c@[i - 1].available);
            return Some(i - 1);
        }
        i = i - 1;
    }
    None
}

} // verus!
