//! Cards, effects, costs, zones and the containers that hold cards.

use rand::seq::SliceRandom;
use std::collections::VecDeque;
use crate::game_logic::BoardState;
use vstd::prelude::*;

verus! {

/// One step of a card's behaviour, interpreted by the board.
#[derive(Debug, PartialEq, Eq)]
pub enum Effect {
    /// A message; the board does not change.
    Echo { msg: String },
    /// Adds `val` to the balance of `key`.
    Global { key: Globals, val: i16 },
    /// The card that causes it goes to its owner's deck.
    Return,
    /// The card that causes it becomes a building.
    ToBuildings,
    /// Pays one `Block`, or destroys the front building when that cannot be paid.
    Break,
    /// Destroys the front building.
    BreakUnblockable,
    /// Destroys every building.
    BreakEverything,
    /// Does nothing.
    NoOp,
}

impl Clone for Effect {
    fn clone(&self) -> (r: Self)
        ensures
            r == *self,
    {
        match self {
            Effect::Echo { msg } => Effect::Echo { msg: msg.clone() },
            Effect::Global { key, val } => Effect::Global { key: *key, val: *val },
            Effect::Return => Effect::Return,
            Effect::ToBuildings => Effect::ToBuildings,
            Effect::Break => Effect::Break,
            Effect::BreakUnblockable => Effect::BreakUnblockable,
            Effect::BreakEverything => Effect::BreakEverything,
            Effect::NoOp => Effect::NoOp,
        }
    }
}

/// What a played card does to the card it targets.
#[derive(Clone, Copy, Debug, PartialEq, Eq, Structural)]
pub enum TargetEffect {
    NoEffect,
    Kill,
    Bounce,
    Stun,
}

impl Default for TargetEffect {
    fn default() -> (r: Self)
        ensures
            r == TargetEffect::NoEffect,
    {
        TargetEffect::NoEffect
    }
}

/// Where a card goes when it is drawn from the deck.
#[derive(Clone, Copy, Debug, PartialEq, Eq, Structural)]
pub enum DrawTo {
    Hand,
    Kaiju,
}

impl Default for DrawTo {
    fn default() -> (r: DrawTo)
        ensures
            r == DrawTo::Hand,
    {
        DrawTo::Hand
    }
}

/// The currencies of the ledger.
#[derive(Clone, Copy, Debug, PartialEq, Eq, Structural, Hash)]
pub enum Globals {
    Build,
    Evil,
    Block,
}

impl Globals {
    /// Every currency that the game uses, in display order.
    pub fn in_game() -> (r: Vec<Self>)
        ensures
            r@ == seq![Globals::Build, Globals::Evil, Globals::Block],
    {
        let r = vec![Globals::Build, Globals::Evil, Globals::Block];
        assert(r@ =~= seq![Globals::Build, Globals::Evil, Globals::Block]);
        r
    }
}

/// A price: `count` units of `currency`.
#[derive(Clone, Copy, Debug, PartialEq, Eq, Structural)]
pub struct Cost {
    pub count: i16,
    pub currency: Globals,
}

impl Default for Cost {
    fn default() -> (r: Self)
        ensures
            r == (Cost { count: 0, currency: Globals::Build }),
    {
        Cost { count: 0, currency: Globals::Build }
    }
}

/// The regions of a board that hold cards.
#[derive(Clone, Copy, Debug, PartialEq, Eq, Structural, Hash)]
pub enum BoardZone {
    NoZone,
    Hand,
    Buildings,
    Kaiju,
    BuildStore,
    KaijuStore,
}

impl Default for BoardZone {
    fn default() -> (r: BoardZone)
        ensures
            r == BoardZone::NoZone,
    {
        BoardZone::NoZone
    }
}

/// Tags that interception matches on.
#[derive(Clone, Copy, Debug, PartialEq, Eq, Structural)]
pub enum Tag {
    Sea,
    Air,
    Economy,
    Military,
}

/// A kaiju's ability to cancel plays of cards carrying `tag`, `times` per turn.
#[derive(Clone, Copy, Debug, PartialEq, Eq, Structural)]
pub struct Intercept {
    pub tag: Tag,
    pub times: u8,
}

/// A card. Cards are values: a copy holds everything the copied card holds.
#[derive(Debug)]
pub struct Card {
    pub name: String,
    pub flavor: String,
    pub on_play: Vec<Effect>,
    pub on_turn_start: Vec<Effect>,
    pub on_turn_end: Vec<Effect>,
    pub on_strike: Vec<Effect>,
    pub cost: Cost,
    pub target_zone: BoardZone,
    pub target_effect: TargetEffect,
    pub give_to_enemy: bool,
    pub image: String,
    pub draw_to: DrawTo,
    pub tags: Vec<Tag>,
    pub intercept: Option<Intercept>,
    pub stunned: bool,
    pub intercepts_left: u8,
    pub available: bool,
}

impl Default for Card {
    fn default() -> (r: Self)
        ensures
            r@.name.len() == 0,
            r@.on_play.len() == 0,
            r@.on_turn_start.len() == 0,
            r@.on_turn_end.len() == 0,
            r@.on_strike.len() == 0,
            r@.cost == (Cost { count: 0, currency: Globals::Build }),
            r@.target_zone == BoardZone::NoZone,
            r@.target_effect == TargetEffect::NoEffect,
            !r@.give_to_enemy,
            r@.draw_to == DrawTo::Hand,
            r@.tags.len() == 0,
            r@.intercept is None,
            !r@.stunned,
            r@.intercepts_left == 0,
            !r@.available,
    {
        Card {
            name: String::new(),
            flavor: String::new(),
            on_play: Vec::new(),
            on_turn_start: Vec::new(),
            on_turn_end: Vec::new(),
            on_strike: Vec::new(),
            cost: Cost { count: 0, currency: Globals::Build },
            target_zone: BoardZone::NoZone,
            target_effect: TargetEffect::NoEffect,
            give_to_enemy: false,
            image: String::new(),
            draw_to: DrawTo::Hand,
            tags: Vec::new(),
            intercept: None,
            stunned: false,
            intercepts_left: 0,
            available: false,
        }
    }
}

/// The mathematical value of a card.
pub struct CardModel {
    pub name: Seq<char>,
    pub flavor: Seq<char>,
    pub on_play: Seq<Effect>,
    pub on_turn_start: Seq<Effect>,
    pub on_turn_end: Seq<Effect>,
    pub on_strike: Seq<Effect>,
    pub cost: Cost,
    pub target_zone: BoardZone,
    pub target_effect: TargetEffect,
    pub give_to_enemy: bool,
    pub image: Seq<char>,
    pub draw_to: DrawTo,
    pub tags: Seq<Tag>,
    pub intercept: Option<Intercept>,
    pub stunned: bool,
    pub intercepts_left: u8,
    pub available: bool,
}

impl View for Card {
    type V = CardModel;

    open spec fn view(&self) -> CardModel {
        CardModel {
            name: self.name@,
            flavor: self.flavor@,
            on_play: self.on_play@,
            on_turn_start: self.on_turn_start@,
            on_turn_end: self.on_turn_end@,
            on_strike: self.on_strike@,
            cost: self.cost,
            target_zone: self.target_zone,
            target_effect: self.target_effect,
            give_to_enemy: self.give_to_enemy,
            image: self.image@,
            draw_to: self.draw_to,
            tags: self.tags@,
            intercept: self.intercept,
            stunned: self.stunned,
            intercepts_left: self.intercepts_left,
            available: self.available,
        }
    }
}

fn clone_effects(v: &Vec<Effect>) -> (r: Vec<Effect>)
    ensures
        r@ == v@,
{
    let r = v.clone();
    assert(r@ =~= v@);
    r
}

impl Clone for Card {
    fn clone(&self) -> (r: Self)
        ensures
            r@ == self@,
    {
        let tags = self.tags.clone();
        assert(tags@ =~= self.tags@);
        Card {
            name: self.name.clone(),
            flavor: self.flavor.clone(),
            on_play: clone_effects(&self.on_play),
            on_turn_start: clone_effects(&self.on_turn_start),
            on_turn_end: clone_effects(&self.on_turn_end),
            on_strike: clone_effects(&self.on_strike),
            cost: self.cost,
            target_zone: self.target_zone,
            target_effect: self.target_effect,
            give_to_enemy: self.give_to_enemy,
            image: self.image.clone(),
            draw_to: self.draw_to,
            tags,
            intercept: self.intercept,
            stunned: self.stunned,
            intercepts_left: self.intercepts_left,
            available: self.available,
        }
    }
}


/// The views of a sequence of cards.
pub open spec fn cards_view(s: Seq<Card>) -> Seq<CardModel> {
    s.map_values(|c: Card| c@)
}

/// Appending a card appends its view.
pub proof fn lemma_cards_view_push(s: Seq<Card>, c: Card)
    ensures
        cards_view(s.push(c)) == cards_view(s).push(c@),
{
    assert(cards_view(s.push(c)) =~= cards_view(s).push(c@));
}

/// Removing a card removes its view.
pub proof fn lemma_cards_view_remove(s: Seq<Card>, i: int)
    requires
        0 <= i < s.len(),
    ensures
        cards_view(s.remove(i)) == cards_view(s).remove(i),
{
    assert(cards_view(s.remove(i)) =~= cards_view(s).remove(i));
}

/// Dropping the front card drops its view.
pub proof fn lemma_cards_view_drop_first(s: Seq<Card>)
    requires
        s.len() > 0,
    ensures
        cards_view(s.subrange(1, s.len() as int)) == cards_view(s).drop_first(),
{
    assert(cards_view(s.subrange(1, s.len() as int)) =~= cards_view(s).drop_first());
}

/// The triggers on which a card's effects fire.
#[derive(Clone, Copy, Debug, PartialEq, Eq, Structural)]
pub enum EffectTrigger {
    OnPlay,
    OnTurnStart,
    OnTurnEnd,
    OnStrike,
}

impl CardModel {
    /// The effects this card lists for `trigger`, in declared order.
    pub open spec fn effects_of(self, trigger: EffectTrigger) -> Seq<Effect> {
        match trigger {
            EffectTrigger::OnPlay => self.on_play,
            EffectTrigger::OnTurnStart => self.on_turn_start,
            EffectTrigger::OnTurnEnd => self.on_turn_end,
            EffectTrigger::OnStrike => self.on_strike,
        }
    }

    /// The same card with its per-turn flags recharged.
    pub open spec fn recharged(self) -> CardModel {
        CardModel {
            stunned: false,
            intercepts_left: match self.intercept {
                Some(i) => i.times,
                None => 0,
            },
            ..self
        }
    }
}

/// Each effect of `c` for `trigger`, paired with the card.
pub open spec fn card_triggered(c: CardModel, trigger: EffectTrigger) -> Seq<(CardModel, Effect)> {
    c.effects_of(trigger).map_values(|e: Effect| (c, e))
}

/// The effects of every card in `cards` for `trigger`: cards in order, and
/// each card's effects in their declared order.
pub open spec fn triggered(cards: Seq<CardModel>, trigger: EffectTrigger) -> Seq<(CardModel, Effect)>
    decreases cards.len(),
{
    if cards.len() == 0 {
        Seq::empty()
    } else {
        triggered(cards.drop_last(), trigger) + card_triggered(cards.last(), trigger)
    }
}

impl Card {
    /// The effects listed for `trigger`.
    pub fn effects(&self, trigger: EffectTrigger) -> (r: &Vec<Effect>)
        ensures
            r@ == self@.effects_of(trigger),
    {
        match trigger {
            EffectTrigger::OnPlay => &self.on_play,
            EffectTrigger::OnTurnStart => &self.on_turn_start,
            EffectTrigger::OnTurnEnd => &self.on_turn_end,
            EffectTrigger::OnStrike => &self.on_strike,
        }
    }

    /// Clears the stun and recharges the interceptions for a new turn.
    pub fn reset(&mut self)
        ensures
            final(self)@ == old(self)@.recharged(),
    {
        self.stunned = false;
        self.intercepts_left = match &self.intercept {
            Some(i) => i.times,
            None => 0,
        };
    }
}

/// A zone of the board: cards in insertion order, with an optional capacity.
#[derive(Debug)]
pub struct CardContainer {
    pub zone: BoardZone,
    pub cards: Vec<Card>,
    pub size: Option<usize>,
}

impl PartialEq for CardContainer {
    /// Containers are told apart by their zone.
    fn eq(&self, other: &Self) -> (r: bool)
        ensures
            r == (self.zone == other.zone),
    {
        self.zone == other.zone
    }
}

impl vstd::std_specs::cmp::PartialEqSpecImpl for CardContainer {
    open spec fn obeys_eq_spec() -> bool {
        true
    }

    open spec fn eq_spec(&self, other: &CardContainer) -> bool {
        self.zone == other.zone
    }
}

impl View for CardContainer {
    type V = Seq<CardModel>;

    open spec fn view(&self) -> Seq<CardModel> {
        cards_view(self.cards@)
    }
}

impl CardContainer {
    /// Whether the container holds exactly as many cards as its capacity.
    pub open spec fn full(self) -> bool {
        match self.size {
            Some(size) => self.cards@.len() == size,
            None => false,
        }
    }

    pub fn new(zone: BoardZone) -> (r: Self)
        ensures
            r.zone == zone,
            r.cards@.len() == 0,
            r.size.is_none(),
    {
        Self { zone: zone, cards: Vec::new(), size: None }
    }

    pub fn new_sized(zone: BoardZone, size: usize) -> (r: Self)
        ensures
            r.zone == zone,
            r.cards@.len() == 0,
            r.size == Some(size),
    {
        Self { zone: zone, cards: Vec::with_capacity(size), size: Some(size) }
    }

    pub fn add(&mut self, card: Card)
        ensures
            final(self).cards@ == old(self).cards@.push(card),
            final(self).zone == old(self).zone,
            final(self).size == old(self).size,
    {
        self.cards.push(card)
    }

    pub fn empty(&self) -> (r: bool)
        ensures
            r == (self.cards@.len() == 0),
    {
        self.cards.len() == 0
    }

    pub fn is_full(&self) -> (r: bool)
        ensures
            r == self.full(),
    {
        match self.size {
            Some(size) => self.cards.len() == size,
            None => false,
        }
    }

    /// A copy of the card at `idx`.
    pub fn get(&self, idx: usize) -> (r: Card)
        requires
            idx < self.cards@.len(),
        ensures
            r@ == self.cards@[idx as int]@,
    {
        self.cards[idx].clone()
    }

    /// Takes out the card at `card_idx`, shifting the later ones down; an
    /// index past the end leaves the container as it is.
    pub fn remove(&mut self, card_idx: usize) -> (r: Option<Card>)
        ensures
            final(self).zone == old(self).zone,
            final(self).size == old(self).size,
            card_idx < old(self).cards@.len() ==> r == Some(old(self).cards@[card_idx as int])
                && final(self).cards@ == old(self).cards@.remove(card_idx as int),
            card_idx >= old(self).cards@.len() ==> {
                &&& r.is_none()
                &&& final(self).cards@ == old(self).cards@
            },
    {
        if card_idx < self.cards.len() {
            Some(self.cards.remove(card_idx))
        } else {
            None
        }
    }

    /// Every effect that the cards list for `trigger`, each beside the zone and
    /// a copy of the card that causes it: cards in order, and each card's
    /// effects in their declared order.
    pub fn all_effects(&self, trigger: EffectTrigger) -> (r: Vec<(BoardZone, Card, Effect)>)
        ensures
            r@.len() == triggered(self@, trigger).len(),
            forall|i: int|
                0 <= i < r@.len() ==> {
                    &&& (#[trigger] r@[i]).0 == self.zone
                    &&& r@[i].1@ == triggered(self@, trigger)[i].0
                    &&& r@[i].2 == triggered(self@, trigger)[i].1
                },
    {
        let mut r: Vec<(BoardZone, Card, Effect)> = Vec::new();
        let mut i: usize = 0;
        while i < self.cards.len()
            invariant
                i <= self.cards@.len(),
                r@.len() == triggered(cards_view(self.cards@.subrange(0, i as int)), trigger).len(),
                forall|k: int|
                    0 <= k < r@.len() ==> {
                        &&& (#[trigger] r@[k]).0 == self.zone
                        &&& r@[k].1@ == triggered(cards_view(self.cards@.subrange(0, i as int)), trigger)[k].0
                        &&& r@[k].2 == triggered(cards_view(self.cards@.subrange(0, i as int)), trigger)[k].1
                    },
            decreases self.cards@.len() - i,
        {
            let card = &self.cards[i];
            let effects = card.effects(trigger);
            let ghost before = triggered(cards_view(self.cards@.subrange(0, i as int)), trigger);
            let ghost next = cards_view(self.cards@.subrange(0, i as int + 1));
            proof {
                assert(next.drop_last() =~= cards_view(self.cards@.subrange(0, i as int)));
                assert(next.last() == card@);
            }
            let mut j: usize = 0;
            while j < effects.len()
                invariant
                    j <= effects@.len(),
                    effects@ == card@.effects_of(trigger),
                    r@.len() == before.len() + j,
                    forall|k: int|
                        0 <= k < r@.len() ==> {
                            &&& (#[trigger] r@[k]).0 == self.zone
                            &&& r@[k].1@ == (before + card_triggered(card@, trigger))[k].0
                            &&& r@[k].2 == (before + card_triggered(card@, trigger))[k].1
                        },
                decreases effects@.len() - j,
            {
                r.push((self.zone, card.clone(), effects[j].clone()));
                j = j + 1;
            }
            i = i + 1;
        }
        proof {
            assert(self.cards@.subrange(0, self.cards@.len() as int) =~= self.cards@);
        }
        r
    }
}


/// Relies on rand's `SliceRandom::shuffle` (driven by `thread_rng`), which
/// only swaps elements: the result is a reordering of the input.
#[verifier::external_body]
fn shuffle_cards(cards: &mut Vec<Card>)
    ensures
        final(cards)@.to_multiset() == old(cards)@.to_multiset(),
{
    cards.shuffle(&mut rand::thread_rng());
}

/// Two sequences that hold the same elements still do after mapping.
pub proof fn lemma_map_values_multiset<A, B>(s1: Seq<A>, s2: Seq<A>, f: spec_fn(A) -> B)
    requires
        s1.to_multiset() == s2.to_multiset(),
    ensures
        s1.map_values(f).to_multiset() == s2.map_values(f).to_multiset(),
    decreases s1.len(),
{
    if s1.len() == 0 {
        vstd::seq_lib::to_multiset_len(s1);
        vstd::seq_lib::to_multiset_len(s2);
        assert(s1.map_values(f) =~= Seq::empty());
        assert(s2.map_values(f) =~= Seq::empty());
    } else {
        let x = s1.last();
        let t1 = s1.drop_last();
        assert(s1 =~= t1.push(x));
        assert(s1[s1.len() - 1] == x);
        vstd::seq_lib::to_multiset_contains(s1, x);
        vstd::seq_lib::to_multiset_contains(s2, x);
        let i = choose|i: int| 0 <= i < s2.len() && s2[i] == x;
        let t2 = s2.remove(i);
        vstd::seq_lib::to_multiset_remove(s2, i);
        vstd::seq_lib::to_multiset_build(t1, x);
        assert(t1.to_multiset() =~= s1.to_multiset().remove(x));
        lemma_map_values_multiset(t1, t2, f);
        assert(s1.map_values(f) =~= t1.map_values(f).push(f(x)));
        assert(s2.map_values(f) =~= t2.map_values(f).insert(i, f(x)));
        vstd::seq_lib::to_multiset_build(t1.map_values(f), f(x));
        vstd::seq_lib::to_multiset_insert(t2.map_values(f), i, f(x));
    }
}

/// A draw pile: cards are drawn from the front and added at the back.
#[derive(Debug)]
pub struct Deck {
    cards: VecDeque<Card>,
}

impl View for Deck {
    type V = Seq<CardModel>;

    closed spec fn view(&self) -> Seq<CardModel> {
        cards_view(self.cards@)
    }
}

impl Deck {
    pub fn new() -> (r: Self)
        ensures
            r@.len() == 0,
    {
        let r = Self { cards: VecDeque::new() };
        assert(r@ =~= Seq::<CardModel>::empty());
        r
    }

    /// Takes the front card, if there is one.
    pub fn draw(&mut self) -> (r: Option<Card>)
        ensures
            old(self)@.len() == 0 ==> r.is_none() && final(self)@ == old(self)@,
            old(self)@.len() > 0 ==> r.is_some() && r.unwrap()@ == old(self)@[0] && final(self)@
                == old(self)@.drop_first(),
    {
        let r = self.cards.pop_front();
        proof {
            if r.is_some() {
                lemma_cards_view_drop_first(old(self).cards@);
            }
        }
        r
    }

    /// Puts a card at the back.
    pub fn add(&mut self, new_card: Card)
        ensures
            final(self)@ == old(self)@.push(new_card@),
    {
        proof {
            lemma_cards_view_push(self.cards@, new_card);
        }
        self.cards.push_back(new_card)
    }

    /// Puts the cards in a random order.
    pub fn shuffle(&mut self)
        ensures
            final(self)@.to_multiset() == old(self)@.to_multiset(),
    {
        let ghost start = self.cards@;
        let mut pile: Vec<Card> = Vec::new();
        while self.cards.len() > 0
            invariant
                pile@ + self.cards@ == start,
            decreases self.cards@.len(),
        {
            let c = self.cards.pop_front();
            if let Some(c) = c {
                pile.push(c);
                assert(pile@ + self.cards@ =~= start);
            }
        }
        assert(pile@ =~= start);
        shuffle_cards(&mut pile);
        let ghost shuffled = pile@;
        while pile.len() > 0
            invariant
                pile@ == shuffled.subrange(0, pile@.len() as int),
                self.cards@ == shuffled.subrange(pile@.len() as int, shuffled.len() as int),
                pile@.len() <= shuffled.len(),
            decreases pile@.len(),
        {
            let c = pile.pop();
            if let Some(c) = c {
                self.cards.push_front(c);
                assert(self.cards@ =~= shuffled.subrange(pile@.len() as int, shuffled.len() as int));
                assert(pile@ =~= shuffled.subrange(0, pile@.len() as int));
            }
        }
        assert(self.cards@ =~= shuffled);
        proof {
            lemma_map_values_multiset(shuffled, start, |c: Card| c@);
        }
    }

    pub fn len(&self) -> (r: usize)
        ensures
            r == self@.len(),
    {
        self.cards.len()
    }

    /// A deck whose draw order is the order of `source`.
    pub fn from(source: Vec<Card>) -> (r: Deck)
        ensures
            r@ == cards_view(source@),
    {
        let mut cards: VecDeque<Card> = VecDeque::new();
        let mut source = source;
        let ghost all = source@;
        while source.len() > 0
            invariant
                source@ == all.subrange(0, source@.len() as int),
                cards@ == all.subrange(source@.len() as int, all.len() as int),
                source@.len() <= all.len(),
            decreases source@.len(),
        {
            let c = source.pop();
            if let Some(c) = c {
                cards.push_front(c);
                assert(cards@ =~= all.subrange(source@.len() as int, all.len() as int));
                assert(source@ =~= all.subrange(0, source@.len() as int));
            }
        }
        assert(cards@ =~= all);
        Deck { cards }
    }
}

/// `x` held to the range of `i16`.
pub open spec fn saturate(x: int) -> int {
    if x > i16::MAX {
        i16::MAX as int
    } else if x < i16::MIN {
        i16::MIN as int
    } else {
        x
    }
}

fn saturating_sum(a: i16, b: i16) -> (r: i16)
    ensures
        r == saturate(a + b),
{
    let s: i32 = a as i32 + b as i32;
    if s > i16::MAX as i32 {
        i16::MAX
    } else if s < i16::MIN as i32 {
        i16::MIN
    } else {
        s as i16
    }
}

fn saturating_difference(a: i16, b: i16) -> (r: i16)
    ensures
        r == saturate(a - b),
{
    let s: i32 = a as i32 - b as i32;
    if s > i16::MAX as i32 {
        i16::MAX
    } else if s < i16::MIN as i32 {
        i16::MIN
    } else {
        s as i16
    }
}

/// The currency ledger. A currency that was never touched, or was reset, has
/// no entry and counts as 0. Balances saturate at the bounds of `i16`.
#[derive(Clone, Copy, Debug)]
pub struct NumberMap {
    build: Option<i16>,
    evil: Option<i16>,
    block: Option<i16>,
}

impl NumberMap {
    /// The entry recorded for `key`.
    pub closed spec fn entry(self, key: Globals) -> Option<i16> {
        match key {
            Globals::Build => self.build,
            Globals::Evil => self.evil,
            Globals::Block => self.block,
        }
    }

    /// The balance of `key`: its entry, or 0 without one.
    pub open spec fn value(self, key: Globals) -> int {
        match self.entry(key) {
            Some(v) => v as int,
            None => 0,
        }
    }

    /// This ledger with the entry of `key` replaced by `val`.
    pub closed spec fn with_entry(self, key: Globals, val: Option<i16>) -> NumberMap {
        match key {
            Globals::Build => NumberMap { build: val, ..self },
            Globals::Evil => NumberMap { evil: val, ..self },
            Globals::Block => NumberMap { block: val, ..self },
        }
    }

    /// This ledger after `change` is added to `key`.
    pub open spec fn added(self, key: Globals, change: i16) -> NumberMap {
        self.with_entry(key, Some(saturate(self.value(key) + change) as i16))
    }

    /// This ledger after `cost` is paid.
    pub open spec fn paid(self, cost: Cost) -> NumberMap {
        self.with_entry(cost.currency, Some(saturate(self.value(cost.currency) - cost.count) as i16))
    }

    /// Replacing the entry of `key` leaves the other entries alone.
    pub proof fn lemma_with_entry(self, key: Globals, val: Option<i16>)
        ensures
            self.with_entry(key, val).entry(key) == val,
            forall|k: Globals| k != key ==> #[trigger] self.with_entry(key, val).entry(k) == self.entry(k),
    {
    }

    /// Affordability agrees with paying: `cost` is affordable exactly when
    /// paying it leaves its currency at zero or above.
    pub proof fn lemma_afford_pay(self, cost: Cost)
        ensures
            self.affords(cost) <==> self.paid(cost).value(cost.currency) >= 0,
    {
        self.lemma_with_entry(cost.currency, Some(saturate(self.value(cost.currency) - cost.count) as i16));
    }

    /// Whether the balance covers `cost`.
    pub open spec fn affords(self, cost: Cost) -> bool {
        self.value(cost.currency) >= cost.count
    }

    /// The balance of `key` after paying `cost`.
    pub open spec fn value_after_pay(self, cost: Cost, key: Globals) -> int {
        if key == cost.currency {
            saturate(self.value(key) - cost.count)
        } else {
            self.value(key)
        }
    }

    /// No currency has an entry.
    pub open spec fn cleared(self) -> bool {
        forall|k: Globals| #[trigger] self.entry(k).is_none()
    }

    pub fn new() -> (r: Box<Self>)
        ensures
            r.cleared(),
            forall|k: Globals| #[trigger] r.value(k) == 0,
    {
        Box::new(Self { build: None, evil: None, block: None })
    }

    pub fn get(&self, key: Globals) -> (r: i16)
        ensures
            r == self.value(key),
    {
        let e = match key {
            Globals::Build => self.build,
            Globals::Evil => self.evil,
            Globals::Block => self.block,
        };
        match e {
            Some(val) => val,
            None => 0,
        }
    }

    fn set(&mut self, key: Globals, val: Option<i16>)
        ensures
            *final(self) == old(self).with_entry(key, val),
            final(self).entry(key) == val,
            forall|k: Globals| k != key ==> #[trigger] final(self).entry(k) == old(self).entry(k),
    {
        match key {
            Globals::Build => self.build = val,
            Globals::Evil => self.evil = val,
            Globals::Block => self.block = val,
        }
    }

    /// Adds `change` to the balance of `key`.
    pub fn add(&mut self, key: Globals, change: i16)
        ensures
            *final(self) == old(self).added(key, change),
            final(self).entry(key) == Some(saturate(old(self).value(key) + change) as i16),
            forall|k: Globals| k != key ==> #[trigger] final(self).entry(k) == old(self).entry(k),
            forall|k: Globals|
                #[trigger] final(self).value(k) == if k == key {
                    saturate(old(self).value(k) + change)
                } else {
                    old(self).value(k)
                },
    {
        let val = saturating_sum(self.get(key), change);
        self.set(key, Some(val));
    }

    /// Takes the price of `cost` from its currency; the balance may go below 0.
    pub fn pay(&mut self, cost: &Cost)
        ensures
            *final(self) == old(self).paid(*cost),
            final(self).entry(cost.currency) == Some(
                saturate(old(self).value(cost.currency) - cost.count) as i16,
            ),
            forall|k: Globals|
                k != cost.currency ==> #[trigger] final(self).entry(k) == old(self).entry(k),
            forall|k: Globals| #[trigger] final(self).value(k) == old(self).value_after_pay(*cost, k),
    {
        let val = saturating_difference(self.get(cost.currency), cost.count);
        self.set(cost.currency, Some(val));
    }

    pub fn can_afford(&self, cost: &Cost) -> (r: bool)
        ensures
            r == self.affords(*cost),
    {
        self.get(cost.currency) >= cost.count
    }

    /// Drops the entry of `key`.
    pub fn reset(&mut self, key: Globals)
        ensures
            final(self).entry(key).is_none(),
            forall|k: Globals|
                #[trigger] final(self).value(k) == if k == key {
                    0
                } else {
                    old(self).value(k)
                },
            forall|k: Globals| k != key ==> #[trigger] final(self).entry(k) == old(self).entry(k),
    {
        self.set(key, None);
    }

    /// Drops every entry.
    pub fn reset_all(&mut self)
        ensures
            final(self).cleared(),
            forall|k: Globals| #[trigger] final(self).value(k) == 0,
    {
        self.build = None;
        self.evil = None;
        self.block = None;
    }

    /// The entries that are recorded, in the order of `Globals::in_game`.
    pub fn iter(&self) -> (r: Vec<(Globals, i16)>)
        ensures
            r@ == Self::entries_from(*self, seq![Globals::Build, Globals::Evil, Globals::Block]),
    {
        let mut r: Vec<(Globals, i16)> = Vec::new();
        if let Some(v) = self.build {
            r.push((Globals::Build, v));
        }
        if let Some(v) = self.evil {
            r.push((Globals::Evil, v));
        }
        if let Some(v) = self.block {
            r.push((Globals::Block, v));
        }
        proof {
            reveal_with_fuel(NumberMap::entries_from, 4);
            assert(r@ =~= Self::entries_from(*self, seq![Globals::Build, Globals::Evil, Globals::Block]));
        }
        r
    }

    /// The recorded entries among `keys`, in the order of `keys`.
    pub open spec fn entries_from(m: NumberMap, keys: Seq<Globals>) -> Seq<(Globals, i16)>
        decreases keys.len(),
    {
        if keys.len() == 0 {
            Seq::empty()
        } else {
            let rest = Self::entries_from(m, keys.drop_first());
            match m.entry(keys[0]) {
                Some(v) => seq![(keys[0], v)] + rest,
                None => rest,
            }
        }
    }
}

/// How a store replenishes its menu.
#[derive(Debug)]
pub enum StoreType {
    /// A static menu that never refills.
    Fixed { items: Vec<String> },
    /// A menu of `size` cards drawn from the deck named `from_deck`, refilled
    /// from that deck after each purchase.
    Drafted { size: usize, from_deck: String },
}

impl Default for StoreType {
    fn default() -> (r: StoreType)
        ensures
            (r matches StoreType::Fixed { items } && items@.len() == 0),
    {
        StoreType::Fixed { items: Vec::new() }
    }
}

/// The state of one game: the board it is played on.
#[derive(Debug)]
pub struct GameData {
    board_state: BoardState,
}

/// A list of buildings.
#[derive(Debug)]
pub struct Buildings {
    pub list: Vec<Card>,
}

/// The menu and the stock of a drafted store after the card at `idx` is
/// bought: the card leaves the menu and the front of the stock, if any, joins
/// the menu at its end.
pub open spec fn drafted_buy(menu: Seq<CardModel>, stock: Seq<CardModel>, idx: int) -> (Seq<
    CardModel,
>, Seq<CardModel>) {
    let rest = menu.remove(idx);
    if stock.len() > 0 {
        (rest.push(stock[0]), stock.drop_first())
    } else {
        (rest, stock)
    }
}

/// Menu and stock of a drafted store after the cards at `idxs` are bought one
/// after another.
pub open spec fn drafted_buys(menu: Seq<CardModel>, stock: Seq<CardModel>, idxs: Seq<int>) -> (Seq<
    CardModel,
>, Seq<CardModel>)
    decreases idxs.len(),
{
    if idxs.len() == 0 {
        (menu, stock)
    } else {
        let (m, s) = drafted_buys(menu, stock, idxs.drop_last());
        drafted_buy(m, s, idxs.last())
    }
}

/// Each index of `idxs` names a card on the menu at the time of its purchase.
pub open spec fn valid_buys(menu: Seq<CardModel>, stock: Seq<CardModel>, idxs: Seq<int>) -> bool
    decreases idxs.len(),
{
    if idxs.len() == 0 {
        true
    } else {
        let (m, _s) = drafted_buys(menu, stock, idxs.drop_last());
        valid_buys(menu, stock, idxs.drop_last()) && 0 <= idxs.last() < m.len()
    }
}

/// Refill of a drafted store: after `k` purchases from a menu of `S` cards
/// over a stock of `N`, the menu holds `S` cards while the stock lasted for
/// every purchase, and one card less for each purchase made after it ran
/// out; the stock loses one card per purchase until it is empty.
pub proof fn lemma_drafted_refill(menu: Seq<CardModel>, stock: Seq<CardModel>, idxs: Seq<int>)
    requires
        valid_buys(menu, stock, idxs),
    ensures
        drafted_buys(menu, stock, idxs).0.len() == menu.len() - (idxs.len() - vstd::math::min(
            idxs.len() as int,
            stock.len() as int,
        )),
        drafted_buys(menu, stock, idxs).1.len() == stock.len() - vstd::math::min(idxs.len() as int, stock.len() as int),
    decreases idxs.len(),
{
    if idxs.len() > 0 {
        lemma_drafted_refill(menu, stock, idxs.drop_last());
    }
}

/// Store refill over a run of purchases: when each store of `stores` is the
/// previous one after the card at the matching index of `idxs` was bought
/// (as `Store::buy_card` states), a drafted store ends as `drafted_buys`
/// says, with `S - (k - min(k, N))` cards on its menu and `N - min(k, N)` in
/// its deck after `k` purchases from a menu of `S` over a deck of `N`.
pub proof fn lemma_store_purchases(stores: Seq<Store>, idxs: Seq<int>)
    requires
        stores.len() == idxs.len() + 1,
        stores[0].store_type is Drafted,
        forall|j: int|
            0 <= j < idxs.len() ==> 0 <= #[trigger] idxs[j] < stores[j].menu@.len() && stores[j].sold(
                stores[j + 1],
                idxs[j],
            ),
    ensures
        stores.last().store_type == stores[0].store_type,
        valid_buys(stores[0].menu@, stores[0].stock(), idxs),
        (stores.last().menu@, stores.last().stock()) == drafted_buys(stores[0].menu@, stores[0].stock(), idxs),
        stores.last().menu@.len() == stores[0].menu@.len() - (idxs.len() - vstd::math::min(
            idxs.len() as int,
            stores[0].stock().len() as int,
        )),
        stores.last().stock().len() == stores[0].stock().len() - vstd::math::min(
            idxs.len() as int,
            stores[0].stock().len() as int,
        ),
    decreases idxs.len(),
{
    if idxs.len() > 0 {
        let front = stores.drop_last();
        let head = idxs.drop_last();
        assert forall|j: int| 0 <= j < head.len() implies 0 <= #[trigger] head[j] < front[j].menu@.len()
            && front[j].sold(front[j + 1], head[j]) by {
            assert(head[j] == idxs[j]);
            assert(front[j] == stores[j] && front[j + 1] == stores[j + 1]);
        }
        lemma_store_purchases(front, head);
        let k = idxs.len() - 1;
        assert(idxs[k] == idxs.last());
        assert(stores[k] == front.last());
        assert(stores[k].sold(stores[k + 1], idxs[k]));
    }
    lemma_drafted_refill(stores[0].menu@, stores[0].stock(), idxs);
}

/// A shop: a menu of cards and, for a drafted store, the deck it refills from.
#[derive(Debug)]
pub struct Store {
    pub store_type: StoreType,
    pub menu: CardContainer,
    pub deck: Option<Box<Deck>>,
}

impl Store {
    /// The cards the menu refills from; none without a deck.
    pub open spec fn stock(self) -> Seq<CardModel> {
        match self.deck {
            Some(d) => d@,
            None => Seq::empty(),
        }
    }

    /// `next` is this store after the card at `idx` is bought.
    pub open spec fn sold(self, next: Store, idx: int) -> bool {
        &&& next.store_type == self.store_type
        &&& next.menu.zone == self.menu.zone
        &&& next.menu.size == self.menu.size
        &&& next.deck is Some <==> self.deck is Some
        &&& self.store_type is Fixed ==> {
            &&& next.menu@ == self.menu@.remove(idx)
            &&& next.deck == self.deck
        }
        &&& self.store_type is Drafted ==> (next.menu@, next.stock()) == drafted_buy(
            self.menu@,
            self.stock(),
            idx,
        )
    }

    /// Buys the card at `card_idx`: it leaves the menu. A fixed store never
    /// restocks; a drafted store refills from its deck.
    pub fn buy_card(&mut self, card_idx: usize) -> (r: Card)
        requires
            card_idx < old(self).menu.cards@.len(),
        ensures
            r@ == old(self).menu@[card_idx as int],
            old(self).sold(*final(self), card_idx as int),
    {
        let card = self.menu.remove(card_idx);
        proof {
            lemma_cards_view_remove(old(self).menu.cards@, card_idx as int);
        }
        if let StoreType::Drafted { .. } = self.store_type {
            self.refill();
        }
        card.unwrap()
    }

    /// Draws one card from the store's deck onto the menu, if it has one.
    pub fn refill(&mut self)
        ensures
            final(self).store_type == old(self).store_type,
            final(self).menu.zone == old(self).menu.zone,
            final(self).menu.size == old(self).menu.size,
            final(self).deck is Some <==> old(self).deck is Some,
            old(self).stock().len() == 0 ==> {
                &&& final(self).menu@ == old(self).menu@
                &&& final(self).stock() == old(self).stock()
            },
            old(self).stock().len() > 0 ==> {
                &&& final(self).menu@ == old(self).menu@.push(old(self).stock()[0])
                &&& final(self).stock() == old(self).stock().drop_first()
            },
    {
        match self.deck.as_mut() {
            Some(deck) => {
                let drawn = deck.draw();
                if let Some(newcard) = drawn {
                    proof {
                        lemma_cards_view_push(self.menu.cards@, newcard);
                    }
                    self.menu.add(newcard);
                }
            },
            None => {},
        }
    }
}

} // verus!

