use kaiju_cards::automaton::{Automaton, AutomatonState, GameEvent, StateAction};
use kaiju_cards::game_control::{GameControlState, Player, PlayerControl};
use kaiju_cards::game_logic::{BoardState, GameplayState, Outcome};
use kaiju_cards::game_objects::{
    BoardZone, Card, CardContainer, Cost, Deck, Effect, Globals, Intercept, NumberMap, Store,
    StoreType, Tag,
};
use kaiju_cards::loading::{
    cards_by_counts, container_counts, load_board, load_players, pair_players, parse_deck,
    parse_store, LoadError, HAND_SIZE,
};
use kaiju_cards::ui::{GameEndState, TargetingState};

fn card(name: &str) -> Card {
    Card { name: name.to_string(), ..Card::default() }
}

fn player(name: &str, opponent_idx: usize, control: PlayerControl) -> Player {
    Player {
        name: name.to_string(),
        starting_deck: String::new(),
        starting_buildings: String::new(),
        control,
        opponent_idx,
    }
}

fn board(p: Player, deck: Vec<Card>, buildings: Vec<Card>) -> BoardState {
    BoardState {
        player: p,
        hand: Box::new(CardContainer::new_sized(BoardZone::Hand, 5)),
        deck: Box::new(Deck::from(deck)),
        globals: NumberMap::new(),
        turn: 1,
        stores: Box::new(Vec::new()),
        buildings: Box::new(CardContainer { zone: BoardZone::Buildings, cards: buildings, size: None }),
        kaiju_zone: Box::new(CardContainer::new(BoardZone::Kaiju)),
        ai: None,
    }
}

fn two_boards() -> (BoardState, BoardState) {
    (
        board(player("alice", 1, PlayerControl::Human), vec![], vec![card("a-farm")]),
        board(player("bob", 0, PlayerControl::Human), vec![], vec![card("b-farm")]),
    )
}

fn drain_names(deck: &mut Deck) -> Vec<String> {
    let mut v = Vec::new();
    while let Some(c) = deck.draw() {
        v.push(c.name);
    }
    v
}

#[test]
fn afford_and_pay_agree() {
    let mut m = NumberMap::new();
    m.add(Globals::Build, 3);
    let two = Cost { count: 2, currency: Globals::Build };
    let four = Cost { count: 4, currency: Globals::Build };
    assert!(m.can_afford(&two));
    assert!(!m.can_afford(&four));
    m.pay(&two);
    assert_eq!(m.get(Globals::Build), 1);
    m.pay(&four);
    assert_eq!(m.get(Globals::Build), -3);
    let free = Cost { count: 0, currency: Globals::Evil };
    assert!(m.can_afford(&free));
    let priced = Cost { count: 1, currency: Globals::Evil };
    assert!(!m.can_afford(&priced));
}

#[test]
fn ledger_saturates_and_resets() {
    let mut m = NumberMap::new();
    m.add(Globals::Evil, i16::MAX);
    m.add(Globals::Evil, 1);
    assert_eq!(m.get(Globals::Evil), i16::MAX);
    m.pay(&Cost { count: i16::MIN, currency: Globals::Block });
    assert_eq!(m.get(Globals::Block), i16::MAX);
    assert_eq!(m.iter(), vec![(Globals::Evil, i16::MAX), (Globals::Block, i16::MAX)]);
    m.reset(Globals::Evil);
    assert_eq!(m.get(Globals::Evil), 0);
    assert_eq!(m.iter(), vec![(Globals::Block, i16::MAX)]);
    m.reset_all();
    assert!(m.iter().is_empty());
    assert_eq!(Globals::in_game(), vec![Globals::Build, Globals::Evil, Globals::Block]);
}

#[test]
fn drafted_store_refills_until_deck_runs_out() {
    let mut store = Store {
        store_type: StoreType::Drafted { size: 3, from_deck: "market".to_string() },
        menu: CardContainer { zone: BoardZone::BuildStore, cards: vec![card("m0"), card("m1"), card("m2")], size: Some(3) },
        deck: Some(Box::new(Deck::from(vec![card("d0"), card("d1")]))),
    };
    assert_eq!(store.buy_card(0).name, "m0");
    assert_eq!(store.menu.cards.len(), 3);
    assert_eq!(store.buy_card(0).name, "m1");
    assert_eq!(store.menu.cards.len(), 3);
    assert_eq!(store.buy_card(2).name, "d1");
    assert_eq!(store.menu.cards.len(), 2);
    let menu: Vec<String> = store.menu.cards.iter().map(|c| c.name.clone()).collect();
    assert_eq!(menu, vec!["m2".to_string(), "d0".to_string()]);
}

#[test]
fn fixed_store_never_restocks() {
    let mut store = Store {
        store_type: StoreType::Fixed { items: vec!["wall".to_string(), "gate".to_string()] },
        menu: CardContainer { zone: BoardZone::BuildStore, cards: vec![card("wall"), card("gate")], size: None },
        deck: None,
    };
    assert_eq!(store.buy_card(0).name, "wall");
    let menu: Vec<String> = store.menu.cards.iter().map(|c| c.name.clone()).collect();
    assert_eq!(menu, vec!["gate".to_string()]);
    store.refill();
    assert_eq!(store.menu.cards.len(), 1);
}

#[test]
fn drafted_store_keeps_its_emptied_deck() {
    let mut store = Store {
        store_type: StoreType::Drafted { size: 2, from_deck: "market".to_string() },
        menu: CardContainer { zone: BoardZone::BuildStore, cards: vec![card("m0"), card("m1")], size: Some(2) },
        deck: Some(Box::new(Deck::from(vec![card("d0")]))),
    };
    store.buy_card(1);
    assert_eq!(store.deck.as_ref().unwrap().len(), 0);
    store.buy_card(0);
    assert_eq!(store.menu.cards.len(), 1);
    assert_eq!(store.deck.as_ref().unwrap().len(), 0);
}

#[test]
fn game_ends_when_one_board_stands() {
    let (a, mut b) = two_boards();
    b.buildings.remove(0);
    assert!(b.is_defeated());
    assert!(!a.is_defeated());
    let control = GameControlState::new(vec![a, b]);
    let (action, follow) = control.event(GameEvent::EndTurn);
    assert!(follow.is_none());
    match action {
        StateAction::Replace(AutomatonState::GameEnd(e)) => {
            assert_eq!(e.loser(), Some(1));
            assert_eq!(e.boards()[1].player.name, "bob");
        },
        _ => panic!("the game should have ended"),
    }
}

#[test]
fn turn_passes_to_next_player() {
    let (a, b) = two_boards();
    let control = GameControlState::new(vec![a, b]);
    let (action, follow) = control.event(GameEvent::EndTurn);
    assert_eq!(follow, Some(GameEvent::StartTurn));
    match action {
        StateAction::Replace(AutomatonState::Gameplay(g)) => {
            assert_eq!(g.get_board().player.name, "bob");
            assert_eq!(g.get_opponent().player.name, "alice");
        },
        _ => panic!("the next player should play"),
    }
}

#[test]
fn game_end_state_without_loser() {
    let (a, b) = two_boards();
    let e = GameEndState::new(vec![a, b]);
    assert_eq!(e.loser(), None);
    match e.event(GameEvent::GameEnded).0 {
        StateAction::Replace(AutomatonState::Ended(_)) => {},
        _ => panic!("the game should be over"),
    }
}

fn sea_card(name: &str) -> Card {
    let mut c = card(name);
    c.tags = vec![Tag::Sea];
    c.on_play = vec![Effect::Global { key: Globals::Build, val: 1 }];
    c
}

#[test]
fn interception_cancels_two_plays_then_lets_one_through() {
    let (mut a, b) = two_boards();
    let mut guard = card("guard");
    guard.intercept = Some(Intercept { tag: Tag::Sea, times: 2 });
    guard.reset();
    a.kaiju_zone.add(guard);
    a.hand.add(sea_card("s0"));
    a.hand.add(sea_card("s1"));
    a.hand.add(sea_card("s2"));
    let control = GameControlState::new(vec![a, b]);
    let mut g = *GameplayState::new(Box::new(control), 0, 1);
    assert_eq!(g.apply(GameEvent::CardPicked(0)), Outcome::Proceed);
    assert_eq!(g.get_board().hand.cards.len(), 2);
    assert_eq!(g.get_board().kaiju_zone.cards[0].intercepts_left, 1);
    assert_eq!(g.get_board().globals.get(Globals::Build), 0);
    assert_eq!(g.apply(GameEvent::CardPicked(0)), Outcome::Proceed);
    assert_eq!(g.get_board().hand.cards.len(), 1);
    assert_eq!(g.get_board().kaiju_zone.cards[0].intercepts_left, 0);
    assert_eq!(g.get_board().globals.get(Globals::Build), 0);
    assert_eq!(g.apply(GameEvent::CardPicked(0)), Outcome::Proceed);
    assert!(g.get_board().hand.empty());
    assert_eq!(g.get_board().globals.get(Globals::Build), 1);
}

#[test]
fn buying_antagonistic_card_feeds_opponent_deck() {
    let (mut a, b) = two_boards();
    let mut gift = card("gift");
    gift.give_to_enemy = true;
    gift.cost = Cost { count: 2, currency: Globals::Build };
    a.stores.push(Store {
        store_type: StoreType::Drafted { size: 1, from_deck: "kaiju".to_string() },
        menu: CardContainer { zone: BoardZone::KaijuStore, cards: vec![gift], size: Some(1) },
        deck: Some(Box::new(Deck::from(vec![card("next")]))),
    });
    a.globals.add(Globals::Build, 3);
    let control = GameControlState::new(vec![a, b]);
    let mut g = *GameplayState::new(Box::new(control), 0, 1);
    assert_eq!(g.apply(GameEvent::CardBought(BoardZone::KaijuStore, 0)), Outcome::Proceed);
    assert_eq!(g.get_board().globals.get(Globals::Build), 1);
    assert_eq!(g.get_board().deck.len(), 0);
    assert_eq!(g.get_opponent().deck.len(), 1);
    let menu: Vec<String> = g.get_board().stores[0].menu.cards.iter().map(|c| c.name.clone()).collect();
    assert_eq!(menu, vec!["next".to_string()]);
    let mut opponent_deck = Box::new(Deck::new());
    std::mem::swap(&mut opponent_deck, &mut g.get_opponent_mut().deck);
    assert_eq!(drain_names(&mut opponent_deck), vec!["gift".to_string()]);
}

#[test]
fn buying_without_funds_changes_nothing() {
    let (mut a, b) = two_boards();
    let mut wall = card("wall");
    wall.cost = Cost { count: 2, currency: Globals::Build };
    a.stores.push(Store {
        store_type: StoreType::Fixed { items: vec!["wall".to_string()] },
        menu: CardContainer { zone: BoardZone::BuildStore, cards: vec![wall], size: None },
        deck: None,
    });
    a.globals.add(Globals::Build, 1);
    let control = GameControlState::new(vec![a, b]);
    let mut g = *GameplayState::new(Box::new(control), 0, 1);
    g.apply(GameEvent::CardBought(BoardZone::BuildStore, 0));
    assert_eq!(g.get_board().globals.get(Globals::Build), 1);
    assert_eq!(g.get_board().deck.len(), 0);
    g.get_board_mut().globals.add(Globals::Build, 1);
    g.apply(GameEvent::CardBought(BoardZone::BuildStore, 0));
    assert_eq!(g.get_board().globals.get(Globals::Build), 0);
    assert_eq!(g.get_board().deck.len(), 1);
    assert!(g.get_board().stores[0].menu.empty());
}

#[test]
fn picking_a_targeting_card_asks_for_a_target() {
    let (mut a, b) = two_boards();
    let mut missile = card("missile");
    missile.target_zone = BoardZone::Kaiju;
    missile.target_effect = kaiju_cards::game_objects::TargetEffect::Kill;
    a.hand.add(missile);
    a.kaiju_zone.add(card("k0"));
    let control = GameControlState::new(vec![a, b]);
    let g = *GameplayState::new(Box::new(control), 0, 1);
    match g.event(GameEvent::CardPicked(0)) {
        (StateAction::Replace(AutomatonState::Targeting(t)), None) => {
            assert_eq!(t.target_zone(), BoardZone::Kaiju);
            assert_eq!(
                t.response_event(Some(0)),
                GameEvent::CardTargeted(BoardZone::Hand, 0, BoardZone::Kaiju, 0)
            );
            assert_eq!(
                t.response_event(None),
                GameEvent::CardTargeted(BoardZone::Hand, 0, BoardZone::NoZone, 0)
            );
            match t.target_selected(Some(0)) {
                (StateAction::Replace(AutomatonState::TakeTurn(tt)), None) => {
                    assert!(tt.gameplay_state().get_board().kaiju_zone.empty());
                    assert!(tt.gameplay_state().get_board().hand.empty());
                },
                _ => panic!("control should return to the player"),
            }
        },
        _ => panic!("targeting should start"),
    }
}

#[test]
fn targeting_state_ignores_other_events() {
    let (a, b) = two_boards();
    let control = GameControlState::new(vec![a, b]);
    let g = GameplayState::new(Box::new(control), 0, 1);
    let t = TargetingState::new(g, BoardZone::Hand, 0, BoardZone::Kaiju);
    match t.event(GameEvent::Timeout) {
        (StateAction::Keep(AutomatonState::Targeting(_)), None) => {},
        _ => panic!("the event should be ignored"),
    }
}

#[test]
fn automaton_runs_a_human_turn_and_quits() {
    let (mut a, b) = two_boards();
    a.deck.add(card("c0"));
    a.deck.add(card("c1"));
    let control = GameControlState::new(vec![a, b]);
    let (action, follow) = control.overtake();
    let start = match action {
        StateAction::Replace(s) => s,
        _ => panic!("overtake replaces the controller"),
    };
    assert_eq!(follow, Some(GameEvent::StartTurn));
    let mut automaton = Automaton::new(start);
    automaton.event(GameEvent::StartTurn);
    assert!(!automaton.terminated());
    automaton.event(GameEvent::CardPicked(0));
    automaton.event(GameEvent::EndTurn);
    assert!(!automaton.terminated());
    automaton.event(GameEvent::GameEnded);
    assert!(!automaton.terminated());
    automaton.event(GameEvent::Timeout);
    assert!(automaton.terminated());
    automaton.update();
    assert!(automaton.terminated());
}

#[test]
fn computer_player_plays_its_hand_then_ends_turn() {
    let a = board(player("cpu", 1, PlayerControl::AI), vec![card("c0"), card("c1")], vec![card("farm")]);
    let b = board(player("human", 0, PlayerControl::Human), vec![], vec![card("farm")]);
    let control = GameControlState::new(vec![a, b]);
    let (action, _) = control.overtake();
    let start = match action {
        StateAction::Replace(s) => s,
        _ => panic!("overtake replaces the controller"),
    };
    let mut automaton = Automaton::new(start);
    automaton.event(GameEvent::StartTurn);
    assert!(!automaton.terminated());
}

#[test]
fn players_pair_for_versus_games() {
    let players = vec![
        player("a", 0, PlayerControl::Human),
        player("b", 0, PlayerControl::AI),
    ];
    let paired = load_players(players, "VS").unwrap();
    assert_eq!(paired[0].opponent_idx, 1);
    assert_eq!(paired[1].opponent_idx, 0);
    let again = pair_players(paired, "vs").unwrap();
    assert_eq!(again[1].name, "b");
}

#[test]
fn unknown_game_type_is_rejected() {
    let players = vec![player("a", 0, PlayerControl::Human), player("b", 0, PlayerControl::Human)];
    assert_eq!(load_players(players, "coop").unwrap_err(), LoadError::UnknownGameType);
}

#[test]
fn versus_needs_two_players() {
    let players = vec![
        player("a", 0, PlayerControl::Human),
        player("b", 0, PlayerControl::Human),
        player("c", 0, PlayerControl::Human),
    ];
    assert_eq!(load_players(players, "Vs").unwrap_err(), LoadError::WrongPlayerCount(3));
}

fn factory() -> Vec<(String, Card)> {
    ["worker", "tower", "zilla"].iter().map(|n| (n.to_string(), card(n))).collect()
}

#[test]
fn counts_expand_to_copies() {
    let counts = vec![("worker".to_string(), 2), ("ghost".to_string(), 4), ("tower".to_string(), 1)];
    let cards = cards_by_counts(&factory(), &counts);
    let got: Vec<String> = cards.iter().map(|c| c.name.clone()).collect();
    assert_eq!(got, vec!["worker".to_string(), "worker".to_string(), "tower".to_string()]);
    let zone = container_counts(BoardZone::Buildings, &factory(), &counts);
    assert_eq!(zone.zone, BoardZone::Buildings);
    assert_eq!(zone.cards.len(), 3);
    assert_eq!(zone.size, None);
}

#[test]
fn parsed_deck_is_shuffled() {
    let many: Vec<(String, Card)> = (0..30).map(|i| (format!("c{}", i), card(&format!("c{}", i)))).collect();
    let counts: Vec<(String, usize)> = (0..30).map(|i| (format!("c{}", i), 1)).collect();
    let mut deck = parse_deck(&many, &counts);
    assert_eq!(deck.len(), 30);
    let mut got = drain_names(&mut deck);
    let in_order: Vec<String> = (0..30).map(|i| format!("c{}", i)).collect();
    assert_ne!(got, in_order);
    got.sort();
    let mut sorted = in_order.clone();
    sorted.sort();
    assert_eq!(got, sorted);
}

#[test]
fn stores_are_built_from_descriptions() {
    let fixed = parse_store(
        BoardZone::BuildStore,
        StoreType::Fixed { items: vec!["tower".to_string(), "nothing".to_string(), "worker".to_string()] },
        &factory(),
        &vec![],
    );
    let menu: Vec<String> = fixed.menu.cards.iter().map(|c| c.name.clone()).collect();
    assert_eq!(menu, vec!["tower".to_string(), "worker".to_string()]);
    assert!(fixed.deck.is_none());
    let drafted = parse_store(
        BoardZone::KaijuStore,
        StoreType::Drafted { size: 2, from_deck: "kaiju".to_string() },
        &factory(),
        &vec![("zilla".to_string(), 3)],
    );
    assert_eq!(drafted.menu.cards.len(), 2);
    assert_eq!(drafted.menu.size, Some(2));
    assert_eq!(drafted.deck.as_ref().unwrap().len(), 1);
    let short = parse_store(
        BoardZone::KaijuStore,
        StoreType::Drafted { size: 5, from_deck: "kaiju".to_string() },
        &factory(),
        &vec![("zilla".to_string(), 3)],
    );
    assert_eq!(short.menu.cards.len(), 3);
}

#[test]
fn boards_start_with_their_decks_and_buildings() {
    let p = player("cpu", 1, PlayerControl::AI);
    let b = load_board(
        p,
        &factory(),
        &vec![("worker".to_string(), 6)],
        &vec![("tower".to_string(), 2)],
        StoreType::Fixed { items: vec!["tower".to_string()] },
        &vec![],
        StoreType::Drafted { size: 1, from_deck: "kaiju".to_string() },
        &vec![("zilla".to_string(), 2)],
    );
    assert_eq!(b.turn, 1);
    assert_eq!(b.deck.len(), 6);
    assert_eq!(b.hand.size, Some(HAND_SIZE));
    assert_eq!(b.buildings.cards.len(), 2);
    assert_eq!(b.stores.len(), 2);
    assert_eq!(b.stores[1].menu.zone, BoardZone::KaijuStore);
    assert!(b.ai.is_some());
    assert!(b.kaiju_zone.empty());
}

#[test]
fn clicks_become_moves() {
    let (mut a, b) = two_boards();
    a.stores.push(Store {
        store_type: StoreType::Fixed { items: vec![] },
        menu: CardContainer { zone: BoardZone::BuildStore, cards: vec![card("wall")], size: None },
        deck: None,
    });
    let control = GameControlState::new(vec![a, b]);
    let g = GameplayState::new(Box::new(control), 0, 1);
    let t = kaiju_cards::ui::TakeTurnState::new(g);
    assert_eq!(t.click_event(BoardZone::Hand, 2), Some(GameEvent::CardPicked(2)));
    assert_eq!(t.click_event(BoardZone::BuildStore, 0), Some(GameEvent::CardBought(BoardZone::BuildStore, 0)));
    assert_eq!(t.click_event(BoardZone::KaijuStore, 0), None);
    assert_eq!(t.click_event(BoardZone::Kaiju, 0), None);
}

#[test]
fn clicks_pick_targets_only_in_target_zone() {
    let (a, b) = two_boards();
    let control = GameControlState::new(vec![a, b]);
    let g = GameplayState::new(Box::new(control), 0, 1);
    let t = TargetingState::new(g, BoardZone::Hand, 3, BoardZone::Kaiju);
    assert_eq!(
        t.click_event(BoardZone::Kaiju, 1),
        Some(GameEvent::CardTargeted(BoardZone::Hand, 3, BoardZone::Kaiju, 1))
    );
    assert_eq!(t.click_event(BoardZone::Hand, 1), None);
}
