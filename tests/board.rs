use kaiju_cards::ai::AI;
use kaiju_cards::game_control::{Player, PlayerControl};
use kaiju_cards::game_logic::BoardState;
use kaiju_cards::game_objects::{
    BoardZone, Card, CardContainer, Cost, Deck, DrawTo, Effect, EffectTrigger, Globals, Intercept,
    NumberMap, Store, StoreType, Tag, TargetEffect,
};

fn card(name: &str) -> Card {
    Card { name: name.to_string(), ..Card::default() }
}

fn player(name: &str, opponent_idx: usize) -> Player {
    Player {
        name: name.to_string(),
        starting_deck: String::new(),
        starting_buildings: String::new(),
        control: PlayerControl::Human,
        opponent_idx,
    }
}

fn board(deck: Vec<Card>, buildings: Vec<Card>) -> BoardState {
    BoardState {
        player: player("p", 1),
        hand: Box::new(CardContainer::new_sized(BoardZone::Hand, 5)),
        deck: Box::new(Deck::from(deck)),
        globals: NumberMap::new(),
        turn: 1,
        stores: Box::new(Vec::new()),
        buildings: Box::new(CardContainer { zone: BoardZone::Buildings, cards: buildings, size: None }),
        kaiju_zone: Box::new(CardContainer::new(BoardZone::Kaiju)),
        ai: None,
    }
}

fn names(c: &CardContainer) -> Vec<String> {
    c.cards.iter().map(|c| c.name.clone()).collect()
}

#[test]
fn draw_card_moves_front_card_to_hand() {
    let mut b = board(vec![card("a"), card("b")], vec![]);
    assert!(b.draw_card());
    assert_eq!(names(&b.hand), vec!["a".to_string()]);
    assert_eq!(b.deck.len(), 1);
}

#[test]
fn draw_card_routes_kaiju_to_kaiju_zone() {
    let mut k = card("zilla");
    k.draw_to = DrawTo::Kaiju;
    let mut b = board(vec![k], vec![]);
    assert!(b.draw_card());
    assert!(b.hand.empty());
    assert_eq!(names(&b.kaiju_zone), vec!["zilla".to_string()]);
    assert_eq!(b.deck.len(), 0);
}

#[test]
fn draw_card_fails_on_empty_deck() {
    let mut b = board(vec![], vec![]);
    assert!(!b.draw_card());
    assert!(b.hand.empty());
    assert!(b.kaiju_zone.empty());
}

#[test]
fn begin_turn_fills_hand_to_capacity() {
    let deck: Vec<Card> = (0..7).map(|i| card(&format!("c{}", i))).collect();
    let mut b = board(deck, vec![card("farm")]);
    b.begin_turn();
    assert_eq!(b.hand.cards.len(), 5);
    assert_eq!(b.deck.len(), 2);
    assert!(b.hand.is_full());
    b.begin_turn();
    assert_eq!(b.hand.cards.len(), 5);
    assert_eq!(b.deck.len(), 2);
}

#[test]
fn begin_turn_stops_when_deck_runs_out() {
    let mut b = board(vec![card("a"), card("b"), card("c")], vec![card("farm")]);
    b.begin_turn();
    assert_eq!(b.hand.cards.len(), 3);
    assert_eq!(b.deck.len(), 0);
}

#[test]
fn begin_turn_runs_building_effects_and_recharges_kaiju() {
    let mut farm = card("farm");
    farm.on_turn_start = vec![Effect::Global { key: Globals::Build, val: 2 }];
    let mut b = board(vec![], vec![farm]);
    let mut k = card("zilla");
    k.intercept = Some(Intercept { tag: Tag::Sea, times: 2 });
    k.stunned = true;
    b.kaiju_zone.add(k);
    b.begin_turn();
    assert_eq!(b.globals.get(Globals::Build), 2);
    assert!(!b.kaiju_zone.cards[0].stunned);
    assert_eq!(b.kaiju_zone.cards[0].intercepts_left, 2);
}

#[test]
fn end_turn_clears_ledger_and_advances_turn() {
    let mut b = board(vec![], vec![card("farm")]);
    b.globals.add(Globals::Build, 4);
    b.globals.add(Globals::Block, -3);
    b.end_turn();
    for g in Globals::in_game() {
        assert_eq!(b.globals.get(g), 0);
    }
    assert!(b.globals.iter().is_empty());
    assert_eq!(b.turn, 2);
}

#[test]
fn end_turn_strikes_with_unstunned_kaiju_only() {
    let mut b = board(vec![], vec![card("b1"), card("b2"), card("b3")]);
    let mut k1 = card("k1");
    k1.on_strike = vec![Effect::Break];
    let mut k2 = card("k2");
    k2.on_strike = vec![Effect::Break];
    k2.stunned = true;
    b.kaiju_zone.add(k1);
    b.kaiju_zone.add(k2);
    b.end_turn();
    assert_eq!(names(&b.buildings), vec!["b2".to_string(), "b3".to_string()]);
}

#[test]
fn break_is_blocked_then_destroys_front_building() {
    let mut b = board(vec![], vec![card("B1"), card("B2")]);
    b.globals.add(Globals::Block, 1);
    b.evaluate_effect(&Effect::Break, card("raider"));
    assert_eq!(b.globals.get(Globals::Block), 0);
    assert_eq!(names(&b.buildings), vec!["B1".to_string(), "B2".to_string()]);
    b.evaluate_effect(&Effect::Break, card("raider"));
    assert_eq!(names(&b.buildings), vec!["B2".to_string()]);
}

#[test]
fn other_effects_change_the_board() {
    let mut b = board(vec![], vec![card("B1"), card("B2")]);
    b.evaluate_effect(&Effect::Global { key: Globals::Evil, val: 3 }, card("x"));
    assert_eq!(b.globals.get(Globals::Evil), 3);
    b.evaluate_effect(&Effect::Return, card("back"));
    assert_eq!(b.deck.len(), 1);
    b.evaluate_effect(&Effect::ToBuildings, card("tower"));
    assert_eq!(names(&b.buildings), vec!["B1".to_string(), "B2".to_string(), "tower".to_string()]);
    b.evaluate_effect(&Effect::Echo { msg: "hello".to_string() }, card("x"));
    b.evaluate_effect(&Effect::NoOp, card("x"));
    assert_eq!(b.buildings.cards.len(), 3);
    b.globals.add(Globals::Block, 5);
    b.evaluate_effect(&Effect::BreakUnblockable, card("x"));
    assert_eq!(names(&b.buildings), vec!["B2".to_string(), "tower".to_string()]);
    b.evaluate_effect(&Effect::BreakEverything, card("x"));
    assert!(b.is_defeated());
    assert_eq!(b.globals.get(Globals::Block), 5);
    b.evaluate_effect(&Effect::BreakUnblockable, card("x"));
    assert!(b.buildings.empty());
}

#[test]
fn play_card_runs_play_effects_and_returns_card() {
    let mut b = board(vec![], vec![]);
    let mut c = card("loot");
    c.on_play = vec![Effect::Global { key: Globals::Build, val: 1 }, Effect::Return];
    b.hand.add(card("keep"));
    b.hand.add(c);
    let played = b.play_card(1);
    assert_eq!(played.name, "loot");
    assert_eq!(names(&b.hand), vec!["keep".to_string()]);
    assert_eq!(b.globals.get(Globals::Build), 1);
    assert_eq!(b.deck.len(), 1);
    assert_eq!(b.deck.draw().unwrap().name, "loot");
}

fn targeting_board(effect: TargetEffect) -> BoardState {
    let mut b = board(vec![], vec![card("farm")]);
    let mut c = card("missile");
    c.target_zone = BoardZone::Kaiju;
    c.target_effect = effect;
    b.hand.add(c);
    b.kaiju_zone.add(card("k0"));
    b.kaiju_zone.add(card("k1"));
    b
}

#[test]
fn target_kill_removes_target() {
    let mut b = targeting_board(TargetEffect::Kill);
    b.play_card_on_target(0, BoardZone::Kaiju, 1);
    assert!(b.hand.empty());
    assert_eq!(names(&b.kaiju_zone), vec!["k0".to_string()]);
    assert_eq!(b.deck.len(), 0);
}

#[test]
fn target_bounce_returns_target_to_deck() {
    let mut b = targeting_board(TargetEffect::Bounce);
    b.play_card_on_target(0, BoardZone::Kaiju, 0);
    assert_eq!(names(&b.kaiju_zone), vec!["k1".to_string()]);
    assert_eq!(b.deck.len(), 1);
    assert_eq!(b.deck.draw().unwrap().name, "k0");
}

#[test]
fn target_stun_marks_target() {
    let mut b = targeting_board(TargetEffect::Stun);
    b.play_card_on_target(0, BoardZone::Kaiju, 1);
    assert!(!b.kaiju_zone.cards[0].stunned);
    assert!(b.kaiju_zone.cards[1].stunned);
}

#[test]
fn stale_target_index_hits_nothing() {
    let mut b = targeting_board(TargetEffect::Kill);
    b.play_card_on_target(0, BoardZone::Kaiju, 9);
    assert!(b.hand.empty());
    assert_eq!(b.kaiju_zone.cards.len(), 2);
}

#[test]
fn update_availability_prices_store_cards() {
    let mut b = board(vec![], vec![card("farm")]);
    let mut cheap = card("cheap");
    cheap.cost = Cost { count: 1, currency: Globals::Build };
    let mut dear = card("dear");
    dear.cost = Cost { count: 3, currency: Globals::Build };
    b.stores.push(Store {
        store_type: StoreType::Fixed { items: vec![] },
        menu: CardContainer { zone: BoardZone::BuildStore, cards: vec![cheap, dear], size: None },
        deck: None,
    });
    b.hand.add(card("h"));
    b.globals.add(Globals::Build, 2);
    b.update_availability();
    assert!(b.stores[0].menu.cards[0].available);
    assert!(!b.stores[0].menu.cards[1].available);
    assert!(b.hand.cards[0].available);
    assert!(b.buildings.cards[0].available);
    assert_eq!(b.store_by_zone(BoardZone::BuildStore).menu.cards.len(), 2);
    assert_eq!(b.container_by_zone(BoardZone::BuildStore).cards.len(), 2);
    assert_eq!(b.container_by_zone(BoardZone::Buildings).cards.len(), 1);
    assert_eq!(b.find_store(BoardZone::KaijuStore), None);
}

#[test]
fn all_effects_lists_cards_then_effects_in_order() {
    let mut a = card("a");
    a.on_turn_end = vec![Effect::Return, Effect::Break];
    let mut c = card("c");
    c.on_turn_end = vec![Effect::ToBuildings];
    let zone = CardContainer { zone: BoardZone::Buildings, cards: vec![a, card("b"), c], size: None };
    let all = zone.all_effects(EffectTrigger::OnTurnEnd);
    let got: Vec<(BoardZone, String, Effect)> = all.into_iter().map(|(z, c, e)| (z, c.name, e)).collect();
    assert_eq!(
        got,
        vec![
            (BoardZone::Buildings, "a".to_string(), Effect::Return),
            (BoardZone::Buildings, "a".to_string(), Effect::Break),
            (BoardZone::Buildings, "c".to_string(), Effect::ToBuildings),
        ]
    );
}

#[test]
fn container_basics() {
    let mut c = CardContainer::new_sized(BoardZone::Hand, 2);
    assert!(c.empty());
    assert!(!c.is_full());
    c.add(card("x"));
    c.add(card("y"));
    assert!(c.is_full());
    assert_eq!(c.get(1).name, "y");
    assert!(c.remove(5).is_none());
    assert_eq!(c.remove(0).unwrap().name, "x");
    assert_eq!(names(&c), vec!["y".to_string()]);
    let unbounded = CardContainer::new(BoardZone::Kaiju);
    assert!(!unbounded.is_full());
}

#[test]
fn ai_picks_first_playable_card_and_last_available_target() {
    let mut b = board(vec![], vec![card("farm")]);
    let mut missile = card("missile");
    missile.target_zone = BoardZone::Kaiju;
    b.hand.add(missile);
    b.hand.add(card("plain"));
    let ai = AI::new();
    assert_eq!(ai.select_card(&b), kaiju_cards::automaton::GameEvent::CardPicked(1));
    let mut k0 = card("k0");
    k0.available = true;
    let mut k1 = card("k1");
    k1.available = true;
    b.kaiju_zone.add(k0);
    b.kaiju_zone.add(k1);
    b.kaiju_zone.add(card("k2"));
    assert_eq!(ai.select_card(&b), kaiju_cards::automaton::GameEvent::CardPicked(0));
    assert_eq!(
        ai.target_card(&b, 0, BoardZone::Kaiju),
        kaiju_cards::automaton::GameEvent::CardTargeted(BoardZone::Hand, 0, BoardZone::Kaiju, 1)
    );
    assert_eq!(
        ai.target_card(&b, 0, BoardZone::BuildStore),
        kaiju_cards::automaton::GameEvent::CardTargeted(BoardZone::NoZone, 0, BoardZone::NoZone, 0)
    );
    let empty = board(vec![], vec![]);
    assert_eq!(ai.select_card(&empty), kaiju_cards::automaton::GameEvent::EndTurn);
}
