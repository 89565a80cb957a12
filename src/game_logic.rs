//! A player's board and the rules that change it: drawing, playing, effects
//! and the turn boundaries.

use crate::ai::{aims, selects, AI};
use crate::automaton::{AutomatonState, GameEndedState, GameEvent, StateAction, Step};
use crate::game_control::{GameControlState, Player, PlayerControl};
use crate::ui::{TakeTurnState, TargetingState};
use crate::game_objects::{
    cards_view, card_triggered, lemma_cards_view_push, lemma_cards_view_remove, triggered,
    BoardZone, Card, CardContainer, CardModel, Cost, Deck, DrawTo, Effect, EffectTrigger, Globals,
    NumberMap, Store, Tag, TargetEffect,
};
use vstd::prelude::*;

verus! {

/// The parts of a board that card effects change.
pub struct Economy {
    pub ledger: NumberMap,
    pub deck: Seq<CardModel>,
    pub buildings: Seq<CardModel>,
}

/// What a `Break` tries to pay before it destroys a building.
pub open spec fn block_cost() -> Cost {
    Cost { count: 1, currency: Globals::Block }
}

/// The economy after `effect`, caused by `card`.
pub open spec fn apply_effect(s: Economy, effect: Effect, card: CardModel) -> Economy {
    match effect {
        Effect::Break => {
            if s.ledger.affords(block_cost()) {
                Economy { ledger: s.ledger.paid(block_cost()), ..s }
            } else if s.buildings.len() > 0 {
                Economy { buildings: s.buildings.drop_first(), ..s }
            } else {
                s
            }
        },
        Effect::BreakUnblockable => {
            if s.buildings.len() > 0 {
                Economy { buildings: s.buildings.drop_first(), ..s }
            } else {
                s
            }
        },
        Effect::BreakEverything => Economy { buildings: Seq::empty(), ..s },
        Effect::Global { key, val } => Economy { ledger: s.ledger.added(key, val), ..s },
        Effect::Return => Economy { deck: s.deck.push(card), ..s },
        Effect::ToBuildings => Economy { buildings: s.buildings.push(card), ..s },
        Effect::Echo { .. } => s,
        Effect::NoOp => s,
    }
}

/// The economy after each effect of `list`, in order.
pub open spec fn run_effects(s: Economy, list: Seq<(CardModel, Effect)>) -> Economy
    decreases list.len(),
{
    if list.len() == 0 {
        s
    } else {
        apply_effect(run_effects(s, list.drop_last()), list.last().1, list.last().0)
    }
}

/// As `run_effects`, skipping the effects of stunned cards.
pub open spec fn run_strikes(s: Economy, list: Seq<(CardModel, Effect)>) -> Economy
    decreases list.len(),
{
    if list.len() == 0 {
        s
    } else if list.last().0.stunned {
        run_strikes(s, list.drop_last())
    } else {
        apply_effect(run_strikes(s, list.drop_last()), list.last().1, list.last().0)
    }
}

/// Whether a hand of `hand` cards is at the capacity `cap`.
pub open spec fn at_capacity(hand: Seq<CardModel>, cap: Option<usize>) -> bool {
    match cap {
        Some(n) => hand.len() == n,
        None => false,
    }
}

/// Hand, deck and kaiju zone after the front card of `deck` is drawn to the
/// zone it names.
pub open spec fn draw_step(hand: Seq<CardModel>, deck: Seq<CardModel>, kaiju: Seq<CardModel>) -> (
    Seq<CardModel>,
    Seq<CardModel>,
    Seq<CardModel>,
) {
    if deck[0].draw_to == DrawTo::Hand {
        (hand.push(deck[0]), deck.drop_first(), kaiju)
    } else {
        (hand, deck.drop_first(), kaiju.push(deck[0]))
    }
}

/// Hand, deck and kaiju zone after drawing until the hand is at capacity or
/// the deck is empty.
pub open spec fn fill_hand(
    hand: Seq<CardModel>,
    deck: Seq<CardModel>,
    kaiju: Seq<CardModel>,
    cap: Option<usize>,
) -> (Seq<CardModel>, Seq<CardModel>, Seq<CardModel>)
    decreases deck.len(),
{
    if at_capacity(hand, cap) || deck.len() == 0 {
        (hand, deck, kaiju)
    } else if deck[0].draw_to == DrawTo::Hand {
        fill_hand(hand.push(deck[0]), deck.drop_first(), kaiju, cap)
    } else {
        fill_hand(hand, deck.drop_first(), kaiju.push(deck[0]), cap)
    }
}

/// Drawing stops at capacity: with every card of `deck` headed for the hand
/// and a hand of at most `n` cards, the hand ends with as many cards as fit,
/// `min(n, hand + deck)`; a hand already at capacity draws nothing.
pub proof fn lemma_hand_capacity(hand: Seq<CardModel>, deck: Seq<CardModel>, kaiju: Seq<CardModel>, n: usize)
    requires
        hand.len() <= n,
        forall|i: int| 0 <= i < deck.len() ==> (#[trigger] deck[i]).draw_to == DrawTo::Hand,
    ensures
        fill_hand(hand, deck, kaiju, Some(n)).0.len() == vstd::math::min(
            n as int,
            (hand.len() + deck.len()) as int,
        ),
        hand.len() == n ==> fill_hand(hand, deck, kaiju, Some(n)) == (hand, deck, kaiju),
    decreases deck.len(),
{
    if hand.len() < n && deck.len() > 0 {
        let rest = deck.drop_first();
        assert forall|i: int| 0 <= i < rest.len() implies (#[trigger] rest[i]).draw_to == DrawTo::Hand by {
            assert(rest[i] == deck[i + 1]);
        }
        assert(deck[0].draw_to == DrawTo::Hand);
        lemma_hand_capacity(hand.push(deck[0]), rest, kaiju, n);
    }
}

/// No effect of `list` is `Return`.
pub open spec fn returns_nothing(list: Seq<(CardModel, Effect)>) -> bool {
    forall|k: int| 0 <= k < list.len() ==> (#[trigger] list[k]).1 != Effect::Return
}

/// Effects other than `Return` leave the deck alone.
pub proof fn lemma_run_keeps_deck(s: Economy, list: Seq<(CardModel, Effect)>)
    requires
        returns_nothing(list),
    ensures
        run_effects(s, list).deck == s.deck,
    decreases list.len(),
{
    if list.len() > 0 {
        let rest = list.drop_last();
        assert forall|k: int| 0 <= k < rest.len() implies (#[trigger] rest[k]).1 != Effect::Return by {
            assert(rest[k] == list[k]);
        }
        assert(list[list.len() - 1].1 != Effect::Return);
        lemma_run_keeps_deck(s, rest);
    }
}

/// No card of `cards` lists `Return` for `trigger`.
pub open spec fn lists_no_return(cards: Seq<CardModel>, trigger: EffectTrigger) -> bool {
    forall|i: int, j: int|
        0 <= i < cards.len() && 0 <= j < cards[i].effects_of(trigger).len() ==> #[trigger] cards[i].effects_of(
            trigger,
        )[j] != Effect::Return
}

/// Cards that list no `Return` for `trigger` trigger no `Return`.
pub proof fn lemma_triggered_no_return(cards: Seq<CardModel>, trigger: EffectTrigger)
    requires
        lists_no_return(cards, trigger),
    ensures
        returns_nothing(triggered(cards, trigger)),
    decreases cards.len(),
{
    if cards.len() > 0 {
        let rest = cards.drop_last();
        assert forall|i: int, j: int|
            0 <= i < rest.len() && 0 <= j < rest[i].effects_of(trigger).len() implies #[trigger] rest[i].effects_of(
            trigger,
        )[j] != Effect::Return by {
            assert(rest[i] == cards[i]);
        }
        lemma_triggered_no_return(rest, trigger);
        let c = cards.last();
        let all = triggered(cards, trigger);
        let front = triggered(rest, trigger);
        assert forall|k: int| 0 <= k < all.len() implies (#[trigger] all[k]).1 != Effect::Return by {
            if k >= front.len() {
                let j = k - front.len();
                assert(all[k] == card_triggered(c, trigger)[j]);
                assert(cards[cards.len() - 1].effects_of(trigger)[j] != Effect::Return);
            } else {
                assert(all[k] == front[k]);
            }
        }
    }
}

/// The hand at the start of a turn: when every card of the deck goes to the
/// hand and no building returns a card at the start of the turn, a hand of
/// capacity `n` that holds at most `n` cards ends with
/// `min(n, hand + deck)` cards.
pub proof fn lemma_begin_turn_capacity(b: BoardState, next: BoardState, n: usize)
    requires
        b.turn_begun(next),
        b.hand.size == Some(n),
        b.hand@.len() <= n,
        forall|i: int| 0 <= i < b.deck@.len() ==> (#[trigger] b.deck@[i]).draw_to == DrawTo::Hand,
        lists_no_return(b.buildings@, EffectTrigger::OnTurnStart),
    ensures
        next.hand@.len() == vstd::math::min(n as int, (b.hand@.len() + b.deck@.len()) as int),
{
    lemma_triggered_no_return(b.buildings@, EffectTrigger::OnTurnStart);
    lemma_run_keeps_deck(b.economy(), triggered(b.buildings@, EffectTrigger::OnTurnStart));
    lemma_hand_capacity(b.hand@, b.deck@, b.recharged_kaiju(), n);
}

/// A purchase never leaves the paid currency below zero.
pub proof fn lemma_purchase_solvent(
    boards: Seq<BoardState>,
    next: Seq<BoardState>,
    bi: int,
    oi: int,
    zone: BoardZone,
    idx: int,
)
    requires
        0 <= bi < boards.len(),
        boards[bi].has_store(zone),
        0 <= idx < boards[bi].stores@[boards[bi].store_index(zone)].menu@.len(),
        boards[bi].globals.affords(boards[bi].stores@[boards[bi].store_index(zone)].menu@[idx].cost),
        purchased(boards, next, bi, oi, zone, idx),
    ensures
        next[bi].globals.value(boards[bi].stores@[boards[bi].store_index(zone)].menu@[idx].cost.currency)
            >= 0,
{
    let cost = boards[bi].stores@[boards[bi].store_index(zone)].menu@[idx].cost;
    boards[bi].globals.lemma_afford_pay(cost);
}

/// Interception cancels a play: after the first interceptor cancels the
/// hand card at `idx` and availability is recomputed, that kaiju has one
/// charge less and every other kaiju keeps its charges, the card is gone
/// from the hand, and the ledger, deck and buildings are untouched, so none
/// of the card's play effects ran. A kaiju without charges left intercepts
/// nothing.
pub proof fn lemma_interception_cancels(b: BoardState, mid: BoardState, next: BoardState, idx: int)
    requires
        0 <= idx < b.hand@.len(),
        b.intercepted(mid, idx),
        mid.availability_updated(next),
    ensures
        ({
            let k = first_interceptor(b.kaiju_zone@, b.hand@[idx].tags);
            &&& next.kaiju_zone@.len() == b.kaiju_zone@.len()
            &&& next.kaiju_zone@[k].intercepts_left == b.kaiju_zone@[k].intercepts_left - 1
            &&& forall|j: int|
                0 <= j < b.kaiju_zone@.len() && j != k ==> (#[trigger] next.kaiju_zone@[j]).intercepts_left
                    == b.kaiju_zone@[j].intercepts_left
        }),
        next.hand@.len() == b.hand@.len() - 1,
        *next.globals == *b.globals,
        next.deck@ == b.deck@,
        next.buildings@.len() == b.buildings@.len(),
        forall|c: CardModel, tags: Seq<Tag>| c.intercepts_left == 0 ==> !intercepts(c, tags),
{
    let k = first_interceptor(b.kaiju_zone@, b.hand@[idx].tags);
    assert forall|j: int|
        0 <= j < b.kaiju_zone@.len() && j != k implies (#[trigger] next.kaiju_zone@[j]).intercepts_left
            == b.kaiju_zone@[j].intercepts_left by {
        assert(next.kaiju_zone@[j] == made_available(mid.kaiju_zone@[j]));
    }
    assert(next.kaiju_zone@[k] == made_available(mid.kaiju_zone@[k]));
}

/// The cards of a zone after `effect` hits the card at `idx`; an index past
/// the end hits nothing.
pub open spec fn target_cards(cards: Seq<CardModel>, effect: TargetEffect, idx: int) -> Seq<CardModel> {
    if 0 <= idx < cards.len() {
        match effect {
            TargetEffect::NoEffect => cards,
            TargetEffect::Stun => cards.update(idx, CardModel { stunned: true, ..cards[idx] }),
            TargetEffect::Kill => cards.remove(idx),
            TargetEffect::Bounce => cards.remove(idx),
        }
    } else {
        cards
    }
}

/// The card as shown on an interactive zone: always available.
pub open spec fn made_available(c: CardModel) -> CardModel {
    CardModel { available: true, ..c }
}

/// A store card, available exactly when `ledger` covers its cost.
pub open spec fn priced(c: CardModel, ledger: NumberMap) -> CardModel {
    CardModel { available: ledger.affords(c.cost), ..c }
}

/// Marks every card of `c` available.
fn make_available(c: &mut CardContainer)
    ensures
        final(c)@ == old(c)@.map_values(|m: CardModel| made_available(m)),
        final(c).zone == old(c).zone,
        final(c).size == old(c).size,
{
    let mut j: usize = 0;
    while j < c.cards.len()
        invariant
            j <= c.cards@.len(),
            c.cards@.len() == old(c).cards@.len(),
            c.zone == old(c).zone,
            c.size == old(c).size,
            forall|k: int| 0 <= k < j ==> (#[trigger] c.cards@[k])@ == made_available(old(c).cards@[k]@),
            forall|k: int| j <= k < c.cards@.len() ==> #[trigger] c.cards@[k] == old(c).cards@[k],
        decreases c.cards@.len() - j,
    {
        c.cards[j].available = true;
        j = j + 1;
    }
    assert(c@ =~= old(c)@.map_values(|m: CardModel| made_available(m)));
}

/// Marks each card of `menu` available exactly when `ledger` covers its cost.
fn price_menu(menu: &mut CardContainer, ledger: &NumberMap)
    ensures
        final(menu)@ == old(menu)@.map_values(|m: CardModel| priced(m, *ledger)),
        final(menu).zone == old(menu).zone,
        final(menu).size == old(menu).size,
{
    let mut j: usize = 0;
    while j < menu.cards.len()
        invariant
            j <= menu.cards@.len(),
            menu.cards@.len() == old(menu).cards@.len(),
            menu.zone == old(menu).zone,
            menu.size == old(menu).size,
            forall|k: int| 0 <= k < j ==> (#[trigger] menu.cards@[k])@ == priced(old(menu).cards@[k]@, *ledger),
            forall|k: int| j <= k < menu.cards@.len() ==> #[trigger] menu.cards@[k] == old(menu).cards@[k],
        decreases menu.cards@.len() - j,
    {
        let ok = ledger.can_afford(&menu.cards[j].cost);
        menu.cards[j].available = ok;
        j = j + 1;
    }
    assert(menu@ =~= old(menu)@.map_values(|m: CardModel| priced(m, *ledger)));
}

/// Whether the kaiju `k` cancels the play of a card tagged `tags`: it is not
/// stunned, has interceptions left and intercepts one of the tags.
pub open spec fn intercepts(k: CardModel, tags: Seq<Tag>) -> bool {
    &&& !k.stunned
    &&& k.intercepts_left > 0
    &&& k.intercept is Some
    &&& tags.contains(k.intercept->Some_0.tag)
}

/// `i` is the first kaiju of `kaiju` that intercepts a card tagged `tags`.
pub open spec fn is_first_interceptor(kaiju: Seq<CardModel>, tags: Seq<Tag>, i: int) -> bool {
    &&& 0 <= i < kaiju.len()
    &&& intercepts(kaiju[i], tags)
    &&& forall|j: int| 0 <= j < i ==> !intercepts(#[trigger] kaiju[j], tags)
}

/// The first kaiju of `kaiju` that intercepts a card tagged `tags`.
pub open spec fn first_interceptor(kaiju: Seq<CardModel>, tags: Seq<Tag>) -> int {
    choose|i: int| is_first_interceptor(kaiju, tags, i)
}

fn has_tag(tags: &Vec<Tag>, tag: Tag) -> (r: bool)
    ensures
        r == tags@.contains(tag),
{
    let mut i: usize = 0;
    while i < tags.len()
        invariant
            i <= tags@.len(),
            forall|j: int| 0 <= j < i ==> tags@[j] != tag,
        decreases tags@.len() - i,
    {
        if tags[i] == tag {
            return true;
        }
        i = i + 1;
    }
    false
}

/// A player's board.
#[derive(Debug)]
pub struct BoardState {
    pub player: Player,
    pub hand: Box<CardContainer>,
    pub deck: Box<Deck>,
    pub globals: Box<NumberMap>,
    pub turn: u16,
    pub stores: Box<Vec<Store>>,
    pub buildings: Box<CardContainer>,
    pub kaiju_zone: Box<CardContainer>,
    pub ai: Option<Box<AI>>,
}

impl BoardState {
    /// The parts of the board that effects change.
    pub open spec fn economy(self) -> Economy {
        Economy { ledger: *self.globals, deck: self.deck@, buildings: self.buildings@ }
    }

    /// Everything but the economy is as in `other`.
    pub open spec fn same_but_economy(self, other: BoardState) -> bool {
        &&& self.player == other.player
        &&& self.hand == other.hand
        &&& self.turn == other.turn
        &&& self.stores == other.stores
        &&& self.kaiju_zone == other.kaiju_zone
        &&& self.ai == other.ai
        &&& self.buildings.zone == other.buildings.zone
        &&& self.buildings.size == other.buildings.size
    }

    /// The zones keep their identity and capacity, and the player, the stores
    /// and the strategy are as in `other`.
    pub open spec fn same_frame(self, other: BoardState) -> bool {
        &&& self.player == other.player
        &&& self.stores == other.stores
        &&& self.ai == other.ai
        &&& self.hand.zone == other.hand.zone
        &&& self.hand.size == other.hand.size
        &&& self.buildings.zone == other.buildings.zone
        &&& self.buildings.size == other.buildings.size
        &&& self.kaiju_zone.zone == other.kaiju_zone.zone
        &&& self.kaiju_zone.size == other.kaiju_zone.size
    }

    /// Applies one effect, caused by `card`, to the board.
    pub fn evaluate_effect(&mut self, effect: &Effect, card: Card)
        ensures
            final(self).economy() == apply_effect(old(self).economy(), *effect, card@),
            final(self).same_but_economy(*old(self)),
    {
        match effect {
            Effect::Break => {
                let cost = Cost { currency: Globals::Block, count: 1 };
                if self.globals.can_afford(&cost) {
                    self.globals.pay(&cost);
                } else if self.buildings.cards.len() > 0 {
                    proof {
                        lemma_cards_view_remove(self.buildings.cards@, 0);
                        assert(self.buildings@.remove(0) =~= self.buildings@.drop_first());
                    }
                    self.buildings.remove(0);
                }
            },
            Effect::BreakEverything => {
                while !self.buildings.empty()
                    invariant
                        self.same_but_economy(*old(self)),
                        self.globals == old(self).globals,
                        self.deck == old(self).deck,
                    decreases self.buildings.cards@.len(),
                {
                    self.buildings.remove(0);
                }
                assert(self.buildings@ =~= Seq::<CardModel>::empty());
            },
            Effect::BreakUnblockable => {
                if self.buildings.cards.len() > 0 {
                    proof {
                        lemma_cards_view_remove(self.buildings.cards@, 0);
                        assert(self.buildings@.remove(0) =~= self.buildings@.drop_first());
                    }
                }
                self.buildings.remove(0);
            },
            Effect::Echo { .. } => {},
            Effect::Global { key, val } => self.globals.add(*key, *val),
            Effect::NoOp => {},
            Effect::Return => {
                self.deck.add(card);
            },
            Effect::ToBuildings => {
                proof {
                    lemma_cards_view_push(self.buildings.cards@, card);
                }
                self.buildings.add(card);
            },
        }
        assert(self.economy() =~= apply_effect(old(self).economy(), *effect, card@));
    }

    /// The economy after the buildings' turn-start effects.
    pub open spec fn start_economy(self) -> Economy {
        run_effects(self.economy(), triggered(self.buildings@, EffectTrigger::OnTurnStart))
    }

    /// The kaiju zone with every card's per-turn flags recharged.
    pub open spec fn recharged_kaiju(self) -> Seq<CardModel> {
        self.kaiju_zone@.map_values(|c: CardModel| c.recharged())
    }

    /// Applies each effect of `list` in order.
    fn evaluate_all(&mut self, list: Vec<(BoardZone, Card, Effect)>, skip_stunned: bool)
        ensures
            final(self).same_but_economy(*old(self)),
            !skip_stunned ==> final(self).economy() == run_effects(
                old(self).economy(),
                list@.map_values(|t: (BoardZone, Card, Effect)| (t.1@, t.2)),
            ),
            skip_stunned ==> final(self).economy() == run_strikes(
                old(self).economy(),
                list@.map_values(|t: (BoardZone, Card, Effect)| (t.1@, t.2)),
            ),
    {
        let ghost pairs = list@.map_values(|t: (BoardZone, Card, Effect)| (t.1@, t.2));
        let mut i: usize = 0;
        let n = list.len();
        let mut rest = list;
        while i < n
            invariant
                n == pairs.len(),
                i <= n,
                rest@.len() == n - i,
                forall|k: int| 0 <= k < rest@.len() ==> (#[trigger] rest@[k]).1@ == pairs[i + k].0
                    && rest@[k].2 == pairs[i + k].1,
                self.same_but_economy(*old(self)),
                !skip_stunned ==> self.economy() == run_effects(old(self).economy(), pairs.subrange(0, i as int)),
                skip_stunned ==> self.economy() == run_strikes(old(self).economy(), pairs.subrange(0, i as int)),
            decreases n - i,
        {
            let (_, card, effect) = rest.remove(0);
            proof {
                assert(pairs.subrange(0, i as int + 1).drop_last() =~= pairs.subrange(0, i as int));
            }
            if !(skip_stunned && card.stunned) {
                self.evaluate_effect(&effect, card);
            }
            i = i + 1;
        }
        proof {
            assert(pairs.subrange(0, n as int) =~= pairs);
        }
    }

    /// Takes the front card of the deck to the zone it names: the hand or the
    /// kaiju zone. Fails, changing nothing, when the deck is empty.
    pub fn draw_card(&mut self) -> (r: bool)
        ensures
            r == (old(self).deck@.len() > 0),
            final(self).same_frame(*old(self)),
            *final(self).globals == *old(self).globals,
            final(self).turn == old(self).turn,
            final(self).buildings == old(self).buildings,
            r ==> (final(self).hand@, final(self).deck@, final(self).kaiju_zone@) == draw_step(
                old(self).hand@,
                old(self).deck@,
                old(self).kaiju_zone@,
            ),
            !r ==> {
                &&& final(self).hand@ == old(self).hand@
                &&& final(self).deck@ == old(self).deck@
                &&& final(self).kaiju_zone@ == old(self).kaiju_zone@
            },
    {
        match self.deck.draw() {
            None => false,
            Some(card) => {
                if card.draw_to == DrawTo::Hand {
                    proof {
                        lemma_cards_view_push(self.hand.cards@, card);
                    }
                    self.hand.add(card);
                } else {
                    proof {
                        lemma_cards_view_push(self.kaiju_zone.cards@, card);
                    }
                    self.kaiju_zone.add(card);
                }
                true
            },
        }
    }

    /// `next` is this board after its turn begins.
    pub open spec fn turn_begun(self, next: BoardState) -> bool {
        &&& next.same_frame(self)
        &&& next.turn == self.turn
        &&& *next.globals == self.start_economy().ledger
        &&& next.buildings@ == self.start_economy().buildings
        &&& (next.hand@, next.deck@, next.kaiju_zone@) == fill_hand(
            self.hand@,
            self.start_economy().deck,
            self.recharged_kaiju(),
            self.hand.size,
        )
    }

    /// Starts a turn: recharges the kaiju, runs the buildings' turn-start
    /// effects, then draws until the hand is at capacity or the deck is empty.
    pub fn begin_turn(&mut self)
        ensures
            old(self).turn_begun(*final(self)),
    {
        let mut i: usize = 0;
        while i < self.kaiju_zone.cards.len()
            invariant
                i <= self.kaiju_zone.cards@.len(),
                self.kaiju_zone.cards@.len() == old(self).kaiju_zone.cards@.len(),
                forall|k: int| 0 <= k < i ==> (#[trigger] self.kaiju_zone.cards@[k])@ == old(self).kaiju_zone.cards@[k]@.recharged(),
                forall|k: int| i <= k < self.kaiju_zone.cards@.len() ==> (#[trigger] self.kaiju_zone.cards@[k]) == old(self).kaiju_zone.cards@[k],
                self.player == old(self).player,
                self.hand == old(self).hand,
                self.turn == old(self).turn,
                self.stores == old(self).stores,
                self.ai == old(self).ai,
                self.buildings == old(self).buildings,
                self.deck == old(self).deck,
                self.globals == old(self).globals,
                self.kaiju_zone.zone == old(self).kaiju_zone.zone,
                self.kaiju_zone.size == old(self).kaiju_zone.size,
            decreases self.kaiju_zone.cards@.len() - i,
        {
            self.kaiju_zone.cards[i].reset();
            i = i + 1;
        }
        assert(self.kaiju_zone@ =~= old(self).recharged_kaiju());
        assert(self.economy() == old(self).economy());
        let list = self.buildings.all_effects(EffectTrigger::OnTurnStart);
        proof {
            assert(list@.map_values(|t: (BoardZone, Card, Effect)| (t.1@, t.2)) =~= triggered(
                old(self).buildings@,
                EffectTrigger::OnTurnStart,
            ));
        }
        self.evaluate_all(list, false);
        let ghost target = fill_hand(
            self.hand@,
            self.deck@,
            self.kaiju_zone@,
            self.hand.size,
        );
        let mut drawing = true;
        while drawing && !self.hand.is_full()
            invariant
                fill_hand(self.hand@, self.deck@, self.kaiju_zone@, self.hand.size) == target,
                !drawing ==> self.deck@.len() == 0,
                self.same_frame(*old(self)),
                self.turn == old(self).turn,
                *self.globals == old(self).start_economy().ledger,
                self.buildings@ == old(self).start_economy().buildings,
            decreases self.deck@.len() + if drawing { 1int } else { 0int },
        {
            drawing = self.draw_card();
        }
        assert(fill_hand(self.hand@, self.deck@, self.kaiju_zone@, self.hand.size) == (
            self.hand@,
            self.deck@,
            self.kaiju_zone@,
        ));
    }

    /// `i` is the first store whose menu is the zone `zone`.
    pub open spec fn is_first_store(self, zone: BoardZone, i: int) -> bool {
        &&& 0 <= i < self.stores@.len()
        &&& self.stores@[i].menu.zone == zone
        &&& forall|j: int| 0 <= j < i ==> (#[trigger] self.stores@[j]).menu.zone != zone
    }

    /// Some store's menu is the zone `zone`.
    pub open spec fn has_store(self, zone: BoardZone) -> bool {
        exists|i: int| 0 <= i < self.stores@.len() && (#[trigger] self.stores@[i]).menu.zone == zone
    }

    /// The index of the first store whose menu is the zone `zone`.
    pub open spec fn store_index(self, zone: BoardZone) -> int {
        choose|i: int| self.is_first_store(zone, i)
    }

    /// The zone `zone` can be looked up on this board.
    pub open spec fn has_zone(self, zone: BoardZone) -> bool {
        match zone {
            BoardZone::NoZone => false,
            BoardZone::Hand | BoardZone::Buildings | BoardZone::Kaiju => true,
            BoardZone::BuildStore | BoardZone::KaijuStore => self.has_store(zone),
        }
    }

    /// The container of the zone `zone`.
    pub open spec fn container(self, zone: BoardZone) -> CardContainer {
        match zone {
            BoardZone::Buildings => *self.buildings,
            BoardZone::Kaiju => *self.kaiju_zone,
            BoardZone::BuildStore | BoardZone::KaijuStore => self.stores@[self.store_index(zone)].menu,
            _ => *self.hand,
        }
    }

    proof fn lemma_first_store(self, zone: BoardZone, i: int)
        requires
            self.is_first_store(zone, i),
        ensures
            self.store_index(zone) == i,
    {
        let k = self.store_index(zone);
        assert(self.is_first_store(zone, k));
        if k < i {
            assert(self.stores@[k].menu.zone != zone);
        } else if k > i {
            assert(self.stores@[i].menu.zone != zone);
        }
    }

    /// The index of the first store whose menu is the zone `zone`, if any.
    pub fn find_store(&self, zone: BoardZone) -> (r: Option<usize>)
        ensures
            r.is_some() == self.has_store(zone),
            r.is_some() ==> r.unwrap() == self.store_index(zone) && self.is_first_store(
                zone,
                r.unwrap() as int,
            ),
    {
        let mut i: usize = 0;
        while i < self.stores.len()
            invariant
                i <= self.stores@.len(),
                forall|j: int| 0 <= j < i ==> (#[trigger] self.stores@[j]).menu.zone != zone,
            decreases self.stores@.len() - i,
        {
            if self.stores[i].menu.zone == zone {
                proof {
                    self.lemma_first_store(zone, i as int);
                }
                return Some(i);
            }
            i = i + 1;
        }
        None
    }

    /// The container of the zone `zone`, if the board has it.
    pub fn container_ref(&self, zone: BoardZone) -> (r: Option<&CardContainer>)
        ensures
            r.is_some() == self.has_zone(zone),
            r.is_some() ==> *r.unwrap() == self.container(zone),
    {
        match zone {
            BoardZone::NoZone => None,
            BoardZone::Hand => Some(&*self.hand),
            BoardZone::Buildings => Some(&*self.buildings),
            BoardZone::Kaiju => Some(&*self.kaiju_zone),
            _ => match self.find_store(zone) {
                Some(i) => Some(&self.stores[i].menu),
                None => None,
            },
        }
    }

    /// The first store whose menu is the zone `zone`.
    pub fn store_by_zone(&mut self, zone: BoardZone) -> (r: &mut Store)
        requires
            old(self).has_store(zone),
        ensures
            old(self).is_first_store(zone, old(self).store_index(zone)),
            *r == old(self).stores@[old(self).store_index(zone)],
            final(self).stores@ == old(self).stores@.update(
                old(self).store_index(zone),
                *final(r),
            ),
            final(self).player == old(self).player,
            final(self).hand == old(self).hand,
            final(self).deck == old(self).deck,
            final(self).globals == old(self).globals,
            final(self).turn == old(self).turn,
            final(self).buildings == old(self).buildings,
            final(self).kaiju_zone == old(self).kaiju_zone,
            final(self).ai == old(self).ai,
    {
        let mut i: usize = 0;
        while i < self.stores.len() && self.stores[i].menu.zone != zone
            invariant
                i <= self.stores@.len(),
                self.has_store(zone),
                forall|j: int| 0 <= j < i ==> (#[trigger] self.stores@[j]).menu.zone != zone,
            decreases self.stores@.len() - i,
        {
            i = i + 1;
        }
        proof {
            if i == self.stores@.len() {
                let k = choose|k: int| 0 <= k < self.stores@.len() && (#[trigger] self.stores@[k]).menu.zone == zone;
                assert(self.stores@[k].menu.zone != zone);
            }
            self.lemma_first_store(zone, i as int);
        }
        let stores: &mut Vec<Store> = &mut *self.stores;
        &mut stores[i]
    }

    /// The container of the zone `zone`: the hand, the buildings, the kaiju
    /// zone or the menu of a store.
    pub fn container_by_zone(&mut self, zone: BoardZone) -> (r: &mut CardContainer)
        requires
            old(self).has_zone(zone),
        ensures
            *r == old(self).container(zone),
            zone == BoardZone::BuildStore || zone == BoardZone::KaijuStore ==> old(self).is_first_store(
                zone,
                old(self).store_index(zone),
            ),
            final(self).player == old(self).player,
            final(self).deck == old(self).deck,
            final(self).globals == old(self).globals,
            final(self).turn == old(self).turn,
            final(self).ai == old(self).ai,
            *final(self).hand == if zone == BoardZone::Hand {
                *final(r)
            } else {
                *old(self).hand
            },
            *final(self).buildings == if zone == BoardZone::Buildings {
                *final(r)
            } else {
                *old(self).buildings
            },
            *final(self).kaiju_zone == if zone == BoardZone::Kaiju {
                *final(r)
            } else {
                *old(self).kaiju_zone
            },
            final(self).stores@ == if zone == BoardZone::BuildStore || zone == BoardZone::KaijuStore {
                old(self).stores@.update(
                    old(self).store_index(zone),
                    Store { menu: *final(r), ..old(self).stores@[old(self).store_index(zone)] },
                )
            } else {
                old(self).stores@
            },
    {
        match zone {
            BoardZone::Buildings => &mut *self.buildings,
            BoardZone::Hand => &mut *self.hand,
            BoardZone::Kaiju => &mut *self.kaiju_zone,
            _ => &mut self.store_by_zone(zone).menu,
        }
    }

    /// `next` is this board after the hand card at `idx` is played: it leaves
    /// the hand and its play effects run.
    pub open spec fn played(self, next: BoardState, idx: int) -> bool {
        &&& 0 <= idx < self.hand@.len()
        &&& next.hand@ == self.hand@.remove(idx)
        &&& next.economy() == run_effects(
            self.economy(),
            card_triggered(self.hand@[idx], EffectTrigger::OnPlay),
        )
        &&& next.same_frame(self)
        &&& next.turn == self.turn
        &&& next.kaiju_zone == self.kaiju_zone
    }

    /// `next` is this board after `effect` hits the card at `idx` of `zone`.
    pub open spec fn targeted(self, next: BoardState, effect: TargetEffect, zone: BoardZone, idx: int) -> bool {
        let before = self.container(zone)@;
        let is_store = zone == BoardZone::BuildStore || zone == BoardZone::KaijuStore;
        &&& next.player == self.player
        &&& next.globals == self.globals
        &&& next.turn == self.turn
        &&& next.ai == self.ai
        &&& next.deck@ == if effect == TargetEffect::Bounce && 0 <= idx < before.len() {
            self.deck@.push(before[idx])
        } else {
            self.deck@
        }
        &&& next.stores@.len() == self.stores@.len()
        &&& forall|i: int|
            0 <= i < self.stores@.len() && !(is_store && i == self.store_index(zone)) ==> #[trigger] next.stores@[i]
                == self.stores@[i]
        &&& is_store ==> {
            let i = self.store_index(zone);
            &&& next.stores@[i].store_type == self.stores@[i].store_type
            &&& next.stores@[i].deck == self.stores@[i].deck
            &&& next.stores@[i].menu.zone == self.stores@[i].menu.zone
            &&& next.stores@[i].menu.size == self.stores@[i].menu.size
            &&& next.stores@[i].menu@ == target_cards(before, effect, idx)
        }
        &&& zone == BoardZone::Hand ==> next.hand@ == target_cards(before, effect, idx)
            && next.hand.zone == self.hand.zone && next.hand.size == self.hand.size
        &&& zone != BoardZone::Hand ==> next.hand == self.hand
        &&& zone == BoardZone::Buildings ==> next.buildings@ == target_cards(before, effect, idx)
            && next.buildings.zone == self.buildings.zone && next.buildings.size == self.buildings.size
        &&& zone != BoardZone::Buildings ==> next.buildings == self.buildings
        &&& zone == BoardZone::Kaiju ==> next.kaiju_zone@ == target_cards(before, effect, idx)
            && next.kaiju_zone.zone == self.kaiju_zone.zone && next.kaiju_zone.size
            == self.kaiju_zone.size
        &&& zone != BoardZone::Kaiju ==> next.kaiju_zone == self.kaiju_zone
    }

    /// Plays the hand card at `card`: it leaves the hand, its play effects
    /// run, and it is handed back so that its targeting can follow.
    pub fn play_card(&mut self, card: usize) -> (r: Card)
        requires
            card < old(self).hand@.len(),
        ensures
            r@ == old(self).hand@[card as int],
            old(self).played(*final(self), card as int),
    {
        let played = self.hand.remove(card);
        let played = played.unwrap();
        proof {
            lemma_cards_view_remove(old(self).hand.cards@, card as int);
        }
        let ghost start = *self;
        let ghost list = card_triggered(played@, EffectTrigger::OnPlay);
        let mut j: usize = 0;
        while j < played.on_play.len()
            invariant
                j <= played.on_play@.len(),
                list == card_triggered(played@, EffectTrigger::OnPlay),
                self.same_but_economy(start),
                self.economy() == run_effects(start.economy(), list.subrange(0, j as int)),
            decreases played.on_play@.len() - j,
        {
            proof {
                assert(list.subrange(0, j as int + 1).drop_last() =~= list.subrange(0, j as int));
            }
            self.evaluate_effect(&played.on_play[j], played.clone());
            j = j + 1;
        }
        proof {
            assert(list.subrange(0, j as int) =~= list);
        }
        played
    }

    /// Plays the hand card at `card_idx`, then applies its target effect to
    /// the card at `target_idx` of `target_zone`. A target index that is no
    /// longer on the board hits nothing.
    pub fn play_card_on_target(&mut self, card_idx: usize, target_zone: BoardZone, target_idx: usize)
        requires
            card_idx < old(self).hand@.len(),
            old(self).has_zone(target_zone),
        ensures
            exists|mid: BoardState|
                #![trigger old(self).played(mid, card_idx as int)]
                old(self).played(mid, card_idx as int) && mid.targeted(
                    *final(self),
                    old(self).hand@[card_idx as int].target_effect,
                    target_zone,
                    target_idx as int,
                ),
    {
        let played = self.play_card(card_idx);
        let ghost mid = *self;
        assert(self.has_zone(target_zone));
        let target_container = self.container_by_zone(target_zone);
        let ghost c0 = *target_container;
        match played.target_effect {
            TargetEffect::NoEffect => {},
            TargetEffect::Stun => {
                if target_idx < target_container.cards.len() {
                    target_container.cards[target_idx].stunned = true;
                    assert(target_container@ =~= c0@.update(
                        target_idx as int,
                        CardModel { stunned: true, ..c0@[target_idx as int] },
                    ));
                }
            },
            TargetEffect::Kill => {
                proof {
                    if target_idx < target_container.cards@.len() {
                        lemma_cards_view_remove(target_container.cards@, target_idx as int);
                    }
                }
                target_container.remove(target_idx);
            },
            TargetEffect::Bounce => {
                proof {
                    if target_idx < target_container.cards@.len() {
                        lemma_cards_view_remove(target_container.cards@, target_idx as int);
                    }
                }
                if let Some(target) = target_container.remove(target_idx) {
                    self.deck.add(target);
                }
            },
        }
        proof {
            assert(target_container@ == target_cards(c0@, played@.target_effect, target_idx as int));
            assert(mid.targeted(*self, played@.target_effect, target_zone, target_idx as int));
        }
    }

    /// The economy after the strikes of the unstunned kaiju and then the
    /// buildings' turn-end effects.
    pub open spec fn end_economy(self) -> Economy {
        let struck = run_strikes(self.economy(), triggered(self.kaiju_zone@, EffectTrigger::OnStrike));
        run_effects(struck, triggered(struck.buildings, EffectTrigger::OnTurnEnd))
    }

    /// `next` is this board after its turn ends.
    pub open spec fn turn_ended(self, next: BoardState) -> bool {
        &&& next.same_frame(self)
        &&& next.hand == self.hand
        &&& next.kaiju_zone == self.kaiju_zone
        &&& next.deck@ == self.end_economy().deck
        &&& next.buildings@ == self.end_economy().buildings
        &&& next.globals.cleared()
        &&& next.turn == if self.turn < u16::MAX {
            (self.turn + 1) as u16
        } else {
            self.turn
        }
    }

    /// Ends a turn: every unstunned kaiju strikes, the buildings' turn-end
    /// effects run, the ledger is cleared and the turn counter advances
    /// (it stays at its maximum once there).
    pub fn end_turn(&mut self)
        ensures
            old(self).turn_ended(*final(self)),
            forall|k: Globals| #[trigger] final(self).globals.value(k) == 0,
    {
        let strikes = self.kaiju_zone.all_effects(EffectTrigger::OnStrike);
        proof {
            assert(strikes@.map_values(|t: (BoardZone, Card, Effect)| (t.1@, t.2)) =~= triggered(
                old(self).kaiju_zone@,
                EffectTrigger::OnStrike,
            ));
        }
        self.evaluate_all(strikes, true);
        let ghost struck = self.economy();
        let upkeep = self.buildings.all_effects(EffectTrigger::OnTurnEnd);
        proof {
            assert(upkeep@.map_values(|t: (BoardZone, Card, Effect)| (t.1@, t.2)) =~= triggered(
                struck.buildings,
                EffectTrigger::OnTurnEnd,
            ));
        }
        self.evaluate_all(upkeep, false);
        self.globals.reset_all();
        assert forall|k: Globals| #[trigger] self.globals.value(k) == 0 by {
            assert(self.globals.entry(k).is_none());
        }
        if self.turn < u16::MAX {
            self.turn = self.turn + 1;
        }
    }

    /// `next` is this board with the availability of every card recomputed.
    pub open spec fn availability_updated(self, next: BoardState) -> bool {
        &&& next.player == self.player
        &&& next.deck == self.deck
        &&& next.globals == self.globals
        &&& next.turn == self.turn
        &&& next.ai == self.ai
        &&& next.hand@ == self.hand@.map_values(|c: CardModel| made_available(c))
        &&& next.buildings@ == self.buildings@.map_values(|c: CardModel| made_available(c))
        &&& next.kaiju_zone@ == self.kaiju_zone@.map_values(|c: CardModel| made_available(c))
        &&& next.hand.zone == self.hand.zone
        &&& next.hand.size == self.hand.size
        &&& next.buildings.zone == self.buildings.zone
        &&& next.buildings.size == self.buildings.size
        &&& next.kaiju_zone.zone == self.kaiju_zone.zone
        &&& next.kaiju_zone.size == self.kaiju_zone.size
        &&& next.stores@.len() == self.stores@.len()
        &&& forall|i: int|
            0 <= i < self.stores@.len() ==> {
                &&& (#[trigger] next.stores@[i]).store_type == self.stores@[i].store_type
                &&& next.stores@[i].deck == self.stores@[i].deck
                &&& next.stores@[i].menu.zone == self.stores@[i].menu.zone
                &&& next.stores@[i].menu.size == self.stores@[i].menu.size
                &&& next.stores@[i].menu@ == self.stores@[i].menu@.map_values(
                    |c: CardModel| priced(c, *self.globals),
                )
            }
    }

    /// Marks which cards can be acted on: a store card when the ledger covers
    /// its cost, every card of the hand, the buildings and the kaiju zone.
    pub fn update_availability(&mut self)
        ensures
            old(self).availability_updated(*final(self)),
    {
        let ledger: &NumberMap = &self.globals;
        let stores: &mut Vec<Store> = &mut *self.stores;
        let mut i: usize = 0;
        while i < stores.len()
            invariant
                i <= stores@.len(),
                stores@.len() == old(self).stores@.len(),
                *ledger == *old(self).globals,
                forall|k: int| i <= k < stores@.len() ==> #[trigger] stores@[k] == old(self).stores@[k],
                forall|k: int|
                    0 <= k < i ==> {
                        &&& (#[trigger] stores@[k]).store_type == old(self).stores@[k].store_type
                        &&& stores@[k].deck == old(self).stores@[k].deck
                        &&& stores@[k].menu.zone == old(self).stores@[k].menu.zone
                        &&& stores@[k].menu.size == old(self).stores@[k].menu.size
                        &&& stores@[k].menu@ == old(self).stores@[k].menu@.map_values(
                            |c: CardModel| priced(c, *old(self).globals),
                        )
                    },
            decreases stores@.len() - i,
        {
            price_menu(&mut stores[i].menu, ledger);
            i = i + 1;
        }
        make_available(&mut self.hand);
        make_available(&mut self.buildings);
        make_available(&mut self.kaiju_zone);
    }

    /// Some kaiju intercepts the hand card at `idx`.
    pub open spec fn is_intercepted(self, idx: int) -> bool {
        exists|j: int| 0 <= j < self.kaiju_zone@.len() && intercepts(#[trigger] self.kaiju_zone@[j], self.hand@[idx].tags)
    }

    /// `next` is this board after the first kaiju that intercepts the hand
    /// card at `idx` spends one interception and the card is discarded
    /// unplayed.
    pub open spec fn intercepted(self, next: BoardState, idx: int) -> bool {
        let k = first_interceptor(self.kaiju_zone@, self.hand@[idx].tags);
        &&& is_first_interceptor(self.kaiju_zone@, self.hand@[idx].tags, k)
        &&& next.hand@ == self.hand@.remove(idx)
        &&& next.kaiju_zone@ == self.kaiju_zone@.update(
            k,
            CardModel { intercepts_left: (self.kaiju_zone@[k].intercepts_left - 1) as u8, ..self.kaiju_zone@[k] },
        )
        &&& next.same_frame(self)
        &&& next.economy() == self.economy()
        &&& next.turn == self.turn
    }

    /// Lets the first kaiju that intercepts the hand card at `card_idx` cancel
    /// its play: the kaiju spends one interception and the card is discarded.
    /// Returns whether that happened; when it did not, nothing changes.
    pub fn try_intercept(&mut self, card_idx: usize) -> (r: bool)
        requires
            card_idx < old(self).hand@.len(),
        ensures
            r == old(self).is_intercepted(card_idx as int),
            r ==> old(self).intercepted(*final(self), card_idx as int),
            !r ==> *final(self) == *old(self),
    {
        let ghost tags = self.hand@[card_idx as int].tags;
        let mut i: usize = 0;
        while i < self.kaiju_zone.cards.len()
            invariant
                i <= self.kaiju_zone@.len(),
                *self == *old(self),
                tags == self.hand@[card_idx as int].tags,
                card_idx < self.hand@.len(),
                forall|j: int| 0 <= j < i ==> !intercepts(#[trigger] self.kaiju_zone@[j], tags),
            decreases self.kaiju_zone@.len() - i,
        {
            let k = &self.kaiju_zone.cards[i];
            let hit = match k.intercept {
                Some(icp) => !k.stunned && k.intercepts_left > 0 && has_tag(&self.hand.cards[card_idx].tags, icp.tag),
                None => false,
            };
            if hit {
                proof {
                    assert(is_first_interceptor(self.kaiju_zone@, tags, i as int));
                    let f = first_interceptor(self.kaiju_zone@, tags);
                    assert(is_first_interceptor(self.kaiju_zone@, tags, f));
                    if f < i {
                        assert(!intercepts(self.kaiju_zone@[f], tags));
                    } else if f > i {
                        assert(!intercepts(self.kaiju_zone@[i as int], tags));
                    }
                    lemma_cards_view_remove(self.hand.cards@, card_idx as int);
                }
                let left = self.kaiju_zone.cards[i].intercepts_left;
                self.kaiju_zone.cards[i].intercepts_left = left - 1;
                self.hand.remove(card_idx);
                proof {
                    assert(self.kaiju_zone@ =~= old(self).kaiju_zone@.update(
                        i as int,
                        CardModel { intercepts_left: (left - 1) as u8, ..old(self).kaiju_zone@[i as int] },
                    ));
                }
                return true;
            }
            i = i + 1;
        }
        false
    }

    /// Whether the player has lost: no building is left.
    pub fn is_defeated(&self) -> (r: bool)
        ensures
            r == (self.buildings@.len() == 0),
    {
        self.buildings.empty()
    }
}


/// `next` is `boards` after the board `bi` buys the card at `idx` of its
/// store `zone`: the cost is paid, the store sells the card, and the card
/// joins the deck of the opponent `oi` when it is given to the enemy, else
/// the buyer's own deck.
pub open spec fn purchased(
    boards: Seq<BoardState>,
    next: Seq<BoardState>,
    bi: int,
    oi: int,
    zone: BoardZone,
    idx: int,
) -> bool {
    let b = boards[bi];
    let n = next[bi];
    let si = b.store_index(zone);
    let c = b.stores@[si].menu@[idx];
    &&& next.len() == boards.len()
    &&& forall|k: int| 0 <= k < boards.len() && k != bi && k != oi ==> #[trigger] next[k] == boards[k]
    &&& n.player == b.player
    &&& n.hand == b.hand
    &&& n.turn == b.turn
    &&& n.buildings == b.buildings
    &&& n.kaiju_zone == b.kaiju_zone
    &&& n.ai == b.ai
    &&& *n.globals == b.globals.paid(c.cost)
    &&& n.stores@.len() == b.stores@.len()
    &&& forall|k: int| 0 <= k < b.stores@.len() && k != si ==> #[trigger] n.stores@[k] == b.stores@[k]
    &&& b.stores@[si].sold(n.stores@[si], idx)
    &&& c.give_to_enemy ==> {
        &&& n.deck@ == b.deck@
        &&& next[oi].deck@ == boards[oi].deck@.push(c)
        &&& next[oi].same_but_economy(boards[oi])
        &&& next[oi].globals == boards[oi].globals
        &&& next[oi].buildings == boards[oi].buildings
    }
    &&& !c.give_to_enemy ==> {
        &&& n.deck@ == b.deck@.push(c)
        &&& next[oi] == boards[oi]
    }
}

/// What handling an event asks of the gameplay state next.
#[derive(Debug, Clone, Copy, PartialEq, Eq, Structural)]
pub enum Outcome {
    /// Control goes back to the player.
    Proceed,
    /// The hand card at the index needs a target in the zone.
    Target(usize, BoardZone),
    /// The turn is over.
    TurnOver,
    /// The game is quit.
    Quit,
}

/// The controller of one player's turn: the shared boards, this player's
/// board index and the opponent's.
#[derive(Debug)]
pub struct GameplayState {
    controller: Box<GameControlState>,
    board_idx: usize,
    opo_idx: usize,
}

impl GameplayState {
    pub closed spec fn control(self) -> GameControlState {
        *self.controller
    }

    pub closed spec fn board_index(self) -> int {
        self.board_idx as int
    }

    pub closed spec fn opponent_index(self) -> int {
        self.opo_idx as int
    }

    pub open spec fn controller_boards(self) -> Seq<BoardState> {
        self.control().boards()
    }

    pub open spec fn controller_rounds(self) -> int {
        self.control().rounds()
    }

    /// This player's board.
    pub open spec fn board(self) -> BoardState {
        self.controller_boards()[self.board_index()]
    }

    /// The opponent's board.
    pub open spec fn opponent(self) -> BoardState {
        self.controller_boards()[self.opponent_index()]
    }

    pub open spec fn wf(self) -> bool {
        &&& self.control().wf()
        &&& 0 <= self.board_index() < self.controller_boards().len()
        &&& 0 <= self.opponent_index() < self.controller_boards().len()
        &&& self.opponent_index() != self.board_index()
    }

    /// `next` holds the same indices and turn order as this state, and the
    /// same boards but for this player's.
    pub open spec fn only_board_changed(self, next: GameplayState) -> bool {
        &&& next.board_index() == self.board_index()
        &&& next.opponent_index() == self.opponent_index()
        &&& next.control().current() == self.control().current()
        &&& next.controller_rounds() == self.controller_rounds()
        &&& next.controller_boards() == self.controller_boards().update(self.board_index(), next.board())
    }

    /// `next` is this state, board for board.
    pub open spec fn unchanged(self, next: GameplayState) -> bool {
        self.only_board_changed(next) && next.board() == self.board()
    }

    proof fn lemma_unchanged(self)
        requires
            self.wf(),
        ensures
            self.unchanged(self),
    {
        assert(self.controller_boards() =~= self.controller_boards().update(self.board_index(), self.board()));
    }

    pub fn new(controller: Box<GameControlState>, board_idx: usize, opo_idx: usize) -> (r: Box<Self>)
        ensures
            r.control() == *controller,
            r.board_index() == board_idx,
            r.opponent_index() == opo_idx,
    {
        Box::new(Self { controller, board_idx, opo_idx })
    }

    /// A gameplay state entered with `StartTurn`.
    pub fn new_with_ui(controller: Box<GameControlState>, board_idx: usize, opo_idx: usize) -> (r: Step)
        requires
            controller.wf(),
            board_idx < controller.boards().len(),
            opo_idx < controller.boards().len(),
            opo_idx != board_idx,
        ensures
            r.0.wf(),
            exists|g: GameplayState|
                #![trigger g.event_step(GameEvent::StartTurn, r)]
                {
                    &&& g.control() == *controller
                    &&& g.board_index() == board_idx
                    &&& g.opponent_index() == opo_idx
                    &&& g.event_step(GameEvent::StartTurn, r)
                },
    {
        let g = Self::new(controller, board_idx, opo_idx);
        let ghost gs = *g;
        let r = (*g).event(GameEvent::StartTurn);
        assert(gs.event_step(GameEvent::StartTurn, r));
        r
    }

    pub fn get_board(&self) -> (r: &BoardState)
        requires
            self.wf(),
        ensures
            *r == self.board(),
    {
        self.controller.get_board(self.board_idx)
    }

    pub fn get_board_mut(&mut self) -> (r: &mut BoardState)
        requires
            old(self).wf(),
        ensures
            *r == old(self).board(),
            old(self).only_board_changed(*final(self)),
            final(self).board() == *final(r),
    {
        self.controller.get_board_mut(self.board_idx)
    }

    pub fn get_opponent(&self) -> (r: &BoardState)
        requires
            self.wf(),
        ensures
            *r == self.opponent(),
    {
        self.controller.get_board(self.opo_idx)
    }

    pub fn get_opponent_mut(&mut self) -> (r: &mut BoardState)
        requires
            old(self).wf(),
        ensures
            *r == old(self).opponent(),
            final(self).board_index() == old(self).board_index(),
            final(self).opponent_index() == old(self).opponent_index(),
            final(self).control().current() == old(self).control().current(),
            final(self).controller_rounds() == old(self).controller_rounds(),
            final(self).controller_boards() == old(self).controller_boards().update(
                old(self).opponent_index(),
                *final(r),
            ),
    {
        self.controller.get_board_mut(self.opo_idx)
    }

    /// Buys the card at `idx` of the store `zone` when the ledger covers its
    /// cost, checked now rather than when it was shown. Returns whether it
    /// was bought; when not, nothing changes.
    fn buy(&mut self, zone: BoardZone, idx: usize) -> (r: bool)
        requires
            old(self).wf(),
        ensures
            r == (old(self).board().has_store(zone) && idx < old(self).board().stores@[old(
                self,
            ).board().store_index(zone)].menu@.len() && old(self).board().globals.affords(
                old(self).board().stores@[old(self).board().store_index(zone)].menu@[idx as int].cost,
            )),
            r ==> {
                &&& final(self).board_index() == old(self).board_index()
                &&& final(self).opponent_index() == old(self).opponent_index()
                &&& final(self).control().current() == old(self).control().current()
                &&& final(self).controller_rounds() == old(self).controller_rounds()
                &&& purchased(
                    old(self).controller_boards(),
                    final(self).controller_boards(),
                    old(self).board_index(),
                    old(self).opponent_index(),
                    zone,
                    idx as int,
                )
            },
            !r ==> old(self).unchanged(*final(self)),
    {
        let oi = self.opo_idx;
        let board = self.get_board_mut();
        let si = match board.find_store(zone) {
            Some(si) => si,
            None => {
                proof {
                    assert(self.controller_boards() =~= old(self).controller_boards());
                }
                return false;
            },
        };
        if idx >= board.stores[si].menu.cards.len() {
            return false;
        }
        if !board.globals.can_afford(&board.stores[si].menu.cards[idx].cost) {
            return false;
        }
        let card = board.store_by_zone(zone).buy_card(idx);
        board.globals.pay(&card.cost);
        if card.give_to_enemy {
            self.get_opponent_mut().deck.add(card);
        } else {
            board.deck.add(card);
        }
        true
    }

    /// `r` gives control to the player once availability is recomputed: a
    /// human is waited for, a computer player's move follows at once.
    pub open spec fn turn_taken(self, r: Step) -> bool {
        &&& self.board().player.control == PlayerControl::Human ==> {
            &&& r.1.is_none()
            &&& r.0 matches StateAction::Replace(AutomatonState::TakeTurn(t))
            &&& self.only_board_changed(t.gameplay())
            &&& self.board().availability_updated(t.gameplay().board())
        }
        &&& self.board().player.control == PlayerControl::AI ==> {
            &&& r.0 matches StateAction::Replace(AutomatonState::Gameplay(g))
            &&& self.only_board_changed(g)
            &&& self.board().availability_updated(g.board())
            &&& r.1 matches Some(e)
            &&& selects(g.board(), e)
        }
    }

    /// `r` asks for a target for the hand card at `card_idx` in `zone` once
    /// availability is recomputed: a human picks it, a computer player's
    /// choice follows at once.
    pub open spec fn targeting_begun(self, card_idx: usize, zone: BoardZone, r: Step) -> bool {
        &&& self.board().player.control == PlayerControl::Human ==> {
            &&& r.1.is_none()
            &&& r.0 matches StateAction::Replace(AutomatonState::Targeting(t))
            &&& t.source() == BoardZone::Hand
            &&& t.card() == card_idx
            &&& t.zone() == zone
            &&& self.only_board_changed(t.gameplay())
            &&& self.board().availability_updated(t.gameplay().board())
        }
        &&& self.board().player.control == PlayerControl::AI ==> {
            &&& r.0 matches StateAction::Replace(AutomatonState::Gameplay(g))
            &&& self.only_board_changed(g)
            &&& self.board().availability_updated(g.board())
            &&& r.1 matches Some(e)
            &&& aims(g.board(), card_idx, zone, e)
        }
    }

    /// Prepares control for the player: recomputes availability, then waits
    /// for a human's move or asks the strategy of a computer player for one
    /// (a computer player without a strategy of its own gets the stateless
    /// default one).
    fn take_turn(self) -> (r: Step)
        requires
            self.wf(),
        ensures
            r.0.wf(),
            self.turn_taken(r),
    {
        let mut me = self;
        me.get_board_mut().update_availability();
        match me.get_board().player.control {
            PlayerControl::Human => {
                let t = TakeTurnState::new(Box::new(me));
                (StateAction::Replace(AutomatonState::TakeTurn(*t)), None)
            },
            PlayerControl::AI => {
                let intent = {
                    let board = me.get_board();
                    match &board.ai {
                        Some(ai) => ai.select_card(board),
                        None => AI {}.select_card(board),
                    }
                };
                (StateAction::Replace(AutomatonState::Gameplay(me)), Some(intent))
            },
        }
    }

    /// Hands the hand card at `card_idx` to targeting: a human picks the
    /// target, the strategy of a computer player picks it at once.
    fn begin_targeting(self, card_idx: usize, target_zone: BoardZone) -> (r: Step)
        requires
            self.wf(),
        ensures
            r.0.wf(),
            self.targeting_begun(card_idx, target_zone, r),
    {
        let mut me = self;
        me.get_board_mut().update_availability();
        match me.get_board().player.control {
            PlayerControl::Human => {
                let t = TargetingState::new(Box::new(me), BoardZone::Hand, card_idx, target_zone);
                (StateAction::Replace(AutomatonState::Targeting(*t)), None)
            },
            PlayerControl::AI => {
                let intent = {
                    let board = me.get_board();
                    match &board.ai {
                        Some(ai) => ai.target_card(board, card_idx, target_zone),
                        None => AI {}.target_card(board, card_idx, target_zone),
                    }
                };
                (StateAction::Replace(AutomatonState::Gameplay(me)), Some(intent))
            },
        }
    }

    /// `next` and `r` are this state and the outcome after `event` is
    /// applied to the boards.
    pub open spec fn applied(self, next: GameplayState, event: GameEvent, r: Outcome) -> bool {
        &&& event is StartTurn ==> r == Outcome::Proceed && self.only_board_changed(next)
            && self.board().turn_begun(next.board())
        &&& event is EndTurn ==> r == Outcome::TurnOver && self.only_board_changed(next)
            && self.board().turn_ended(next.board())
        &&& event is GameEnded ==> r == Outcome::Quit && self.unchanged(next)
        &&& event is Timeout ==> r == Outcome::Proceed && self.unchanged(next)
        &&& event matches GameEvent::CardPicked(i) ==> self.only_board_changed(next) && {
            let b = self.board();
            let n = next.board();
            &&& i >= b.hand@.len() ==> r == Outcome::Proceed && n == b
            &&& i < b.hand@.len() && b.is_intercepted(i as int) ==> r == Outcome::Proceed
                && b.intercepted(n, i as int)
            &&& i < b.hand@.len() && !b.is_intercepted(i as int) && b.hand@[i as int].target_zone
                == BoardZone::NoZone ==> r == Outcome::Proceed && b.played(n, i as int)
            &&& i < b.hand@.len() && !b.is_intercepted(i as int) && b.hand@[i as int].target_zone
                != BoardZone::NoZone ==> r == Outcome::Target(i, b.hand@[i as int].target_zone)
                && n == b
        }
        &&& event matches GameEvent::CardTargeted(_, ci, tz, ti) ==> r == Outcome::Proceed
            && self.only_board_changed(next) && {
            let b = self.board();
            let n = next.board();
            &&& tz != BoardZone::NoZone && ci < b.hand@.len() && b.has_zone(tz) ==> exists|
                mid: BoardState,
            | #![trigger b.played(mid, ci as int)]
                b.played(mid, ci as int) && mid.targeted(
                    n,
                    b.hand@[ci as int].target_effect,
                    tz,
                    ti as int,
                )
            &&& !(tz != BoardZone::NoZone && ci < b.hand@.len() && b.has_zone(tz)) ==> n == b
        }
        &&& event matches GameEvent::CardBought(z, i) ==> r == Outcome::Proceed && {
            let b = self.board();
            let bought = b.has_store(z) && i < b.stores@[b.store_index(z)].menu@.len()
                && b.globals.affords(b.stores@[b.store_index(z)].menu@[i as int].cost);
            &&& bought ==> {
                &&& next.board_index() == self.board_index()
                &&& next.opponent_index() == self.opponent_index()
                &&& next.control().current() == self.control().current()
                &&& next.controller_rounds() == self.controller_rounds()
                &&& purchased(
                    self.controller_boards(),
                    next.controller_boards(),
                    self.board_index(),
                    self.opponent_index(),
                    z,
                    i as int,
                )
            }
            &&& !bought ==> self.unchanged(next)
        }
    }

    /// Applies `event` to the boards and says what comes next.
    pub fn apply(&mut self, event: GameEvent) -> (r: Outcome)
        requires
            old(self).wf(),
        ensures
            final(self).wf(),
            old(self).applied(*final(self), event, r),
    {
        match event {
            GameEvent::StartTurn => {
                self.get_board_mut().begin_turn();
                Outcome::Proceed
            },
            GameEvent::CardPicked(card_idx) => {
                let board = self.get_board_mut();
                if card_idx >= board.hand.cards.len() {
                    return Outcome::Proceed;
                }
                if board.try_intercept(card_idx) {
                    return Outcome::Proceed;
                }
                let card_target = board.hand.cards[card_idx].target_zone;
                if card_target == BoardZone::NoZone {
                    board.play_card(card_idx);
                    Outcome::Proceed
                } else {
                    Outcome::Target(card_idx, card_target)
                }
            },
            GameEvent::CardTargeted(_, card_idx, target_zone, target_idx) => {
                let board = self.get_board_mut();
                if target_zone != BoardZone::NoZone && card_idx < board.hand.cards.len()
                    && board.container_ref(target_zone).is_some() {
                    board.play_card_on_target(card_idx, target_zone, target_idx);
                }
                Outcome::Proceed
            },
            GameEvent::CardBought(zone, card_idx) => {
                self.buy(zone, card_idx);
                Outcome::Proceed
            },
            GameEvent::EndTurn => {
                self.get_board_mut().end_turn();
                Outcome::TurnOver
            },
            GameEvent::GameEnded => {
                proof {
                    self.lemma_unchanged();
                }
                Outcome::Quit
            },
            GameEvent::Timeout => {
                proof {
                    self.lemma_unchanged();
                }
                Outcome::Proceed
            },
        }
    }

    /// Handles one event: applies it to the boards, then gives control back
    /// to the player, starts targeting, hands the end of the turn to the
    /// controller, or ends the game.
    /// `r` is what handling `event` gives: the event is applied to the
    /// boards, then control goes back to the player, targeting starts, the
    /// controller passes the turn on, or the game ends.
    pub open spec fn event_step(self, event: GameEvent, r: Step) -> bool {
        exists|mid: GameplayState, o: Outcome|
            #![trigger self.applied(mid, event, o)]
            {
                &&& mid.wf()
                &&& self.applied(mid, event, o)
                &&& o == Outcome::Proceed ==> mid.turn_taken(r)
                &&& o matches Outcome::Target(i, z) ==> mid.targeting_begun(i, z, r)
                &&& o == Outcome::TurnOver ==> mid.control().turn_passed(r)
                &&& o == Outcome::Quit ==> {
                    &&& r.1.is_none()
                    &&& r.0 matches StateAction::Replace(AutomatonState::Ended(_))
                }
            }
    }

    pub fn event(self, event: GameEvent) -> (r: Step)
        requires
            self.wf(),
        ensures
            r.0.wf(),
            self.event_step(event, r),
    {
        let mut me = self;
        let outcome = me.apply(event);
        let ghost mid = me;
        let r = match outcome {
            Outcome::Proceed => me.take_turn(),
            Outcome::Target(card_idx, zone) => me.begin_targeting(card_idx, zone),
            Outcome::TurnOver => {
                let GameplayState { controller, .. } = me;
                (*controller).event(GameEvent::EndTurn)
            },
            Outcome::Quit => (StateAction::Replace(AutomatonState::Ended(GameEndedState)), None),
        };
        assert(mid.wf() && self.applied(mid, event, outcome));
        r
    }
}

} // verus!
