//! Building boards from parsed definitions: decks from card counts, stores
//! from their descriptions, and the pairing of players.

use crate::ai::AI;
use crate::game_control::{Player, PlayerControl};
use crate::game_logic::BoardState;
use crate::game_objects::{
    cards_view, lemma_cards_view_push, BoardZone, Card, CardContainer, CardModel, Deck, NumberMap,
    Store, StoreType,
};
use vstd::prelude::*;

verus! {

/// The capacity of a player's hand.
pub const HAND_SIZE: usize = 5;

/// Card templates, each under the name that decks and stores use for it.
pub type CardFactory = Vec<(String, Card)>;

/// The views of a card factory.
pub open spec fn factory_view(factory: Seq<(String, Card)>) -> Seq<(Seq<char>, CardModel)> {
    factory.map_values(|e: (String, Card)| (e.0@, e.1@))
}

/// The template of the first entry of `factory` under `name`.
pub open spec fn first_named(factory: Seq<(Seq<char>, CardModel)>, name: Seq<char>) -> Option<CardModel>
    decreases factory.len(),
{
    if factory.len() == 0 {
        None
    } else if factory[0].0 == name {
        Some(factory[0].1)
    } else {
        first_named(factory.drop_first(), name)
    }
}

/// The cards that `counts` asks for: for each name in order, that many
/// copies of the factory's card of that name; unknown names give nothing.
pub open spec fn expand(factory: Seq<(Seq<char>, CardModel)>, counts: Seq<(Seq<char>, usize)>) -> Seq<CardModel>
    decreases counts.len(),
{
    if counts.len() == 0 {
        Seq::empty()
    } else {
        let rest = expand(factory, counts.drop_last());
        match first_named(factory, counts.last().0) {
            Some(c) => rest + Seq::new(counts.last().1 as nat, |_i: int| c),
            None => rest,
        }
    }
}

/// The factory's cards for `names`, in order; unknown names give nothing.
pub open spec fn menu_of(factory: Seq<(Seq<char>, CardModel)>, names: Seq<Seq<char>>) -> Seq<CardModel>
    decreases names.len(),
{
    if names.len() == 0 {
        Seq::empty()
    } else {
        let rest = menu_of(factory, names.drop_last());
        match first_named(factory, names.last()) {
            Some(c) => rest.push(c),
            None => rest,
        }
    }
}

/// The views of a list of card counts.
pub open spec fn counts_view(counts: Seq<(String, usize)>) -> Seq<(Seq<char>, usize)> {
    counts.map_values(|p: (String, usize)| (p.0@, p.1))
}

/// The views of a list of names.
pub open spec fn names_view(names: Seq<String>) -> Seq<Seq<char>> {
    names.map_values(|n: String| n@)
}

/// A copy of the template of the first entry of `factory` under `name`.
pub fn card_named(factory: &CardFactory, name: &String) -> (r: Option<Card>)
    ensures
        r is None <==> first_named(factory_view(factory@), name@) is None,
        r matches Some(c) ==> first_named(factory_view(factory@), name@) == Some(c@),
{
    let mut i: usize = 0;
    assert(factory_view(factory@).subrange(0, factory@.len() as int) =~= factory_view(factory@));
    while i < factory.len()
        invariant
            i <= factory@.len(),
            first_named(factory_view(factory@), name@) == first_named(
                factory_view(factory@).subrange(i as int, factory@.len() as int),
                name@,
            ),
        decreases factory@.len() - i,
    {
        let ghost tail = factory_view(factory@).subrange(i as int, factory@.len() as int);
        proof {
            assert(tail.drop_first() =~= factory_view(factory@).subrange(i as int + 1, factory@.len() as int));
            assert(tail[0] == (factory@[i as int].0@, factory@[i as int].1@));
        }
        if factory[i].0 == *name {
            return Some(factory[i].1.clone());
        }
        i = i + 1;
    }
    proof {
        assert(factory_view(factory@).subrange(i as int, factory@.len() as int).len() == 0);
    }
    None
}

/// The cards that `counts` asks for, in the order of `counts`.
pub fn cards_by_counts(factory: &CardFactory, counts: &Vec<(String, usize)>) -> (r: Vec<Card>)
    ensures
        cards_view(r@) == expand(factory_view(factory@), counts_view(counts@)),
{
    let mut r: Vec<Card> = Vec::new();
    let mut i: usize = 0;
    while i < counts.len()
        invariant
            i <= counts@.len(),
            cards_view(r@) == expand(factory_view(factory@), counts_view(counts@.subrange(0, i as int))),
        decreases counts@.len() - i,
    {
        let ghost done = cards_view(r@);
        proof {
            assert(counts_view(counts@.subrange(0, i as int + 1)).drop_last() =~= counts_view(
                counts@.subrange(0, i as int),
            ));
        }
        let (name, num) = (&counts[i].0, counts[i].1);
        match card_named(factory, name) {
            Some(card) => {
                let mut k: usize = 0;
                while k < num
                    invariant
                        k <= num,
                        cards_view(r@) == done + Seq::new(k as nat, |_j: int| card@),
                    decreases num - k,
                {
                    let copy = card.clone();
                    proof {
                        lemma_cards_view_push(r@, copy);
                    }
                    r.push(copy);
                    assert(cards_view(r@) =~= done + Seq::new(k as nat + 1, |_j: int| card@));
                    k = k + 1;
                }
            },
            None => {},
        }
        i = i + 1;
    }
    proof {
        assert(counts@.subrange(0, i as int) =~= counts@);
    }
    r
}

/// A deck of the cards that `counts` asks for, shuffled.
pub fn parse_deck(factory: &CardFactory, counts: &Vec<(String, usize)>) -> (r: Deck)
    ensures
        r@.to_multiset() == expand(factory_view(factory@), counts_view(counts@)).to_multiset(),
{
    let mut deck = Deck::from(cards_by_counts(factory, counts));
    deck.shuffle();
    deck
}

/// The cards of the zone `zone` that `counts` asks for, without a capacity.
pub fn container_counts(zone: BoardZone, factory: &CardFactory, counts: &Vec<(String, usize)>) -> (r: CardContainer)
    ensures
        r.zone == zone,
        r.size is None,
        r@ == expand(factory_view(factory@), counts_view(counts@)),
{
    CardContainer { zone: zone, cards: cards_by_counts(factory, counts), size: None }
}

/// `r` is the store of the zone `zone` that `store_type` describes, with the
/// cards of `factory` and, for a drafted store, the shuffled cards that
/// `draft` asks for.
pub open spec fn store_built(
    r: Store,
    zone: BoardZone,
    store_type: StoreType,
    factory: Seq<(Seq<char>, CardModel)>,
    draft: Seq<(Seq<char>, usize)>,
) -> bool {
    &&& r.menu.zone == zone
    &&& r.store_type == store_type
    &&& store_type matches StoreType::Fixed { items } ==> {
        &&& r.menu@ == menu_of(factory, names_view(items@))
        &&& r.menu.size is None
        &&& r.deck is None
    }
    &&& store_type matches StoreType::Drafted { size, .. } ==> {
        let all = expand(factory, draft);
        &&& r.menu.size == Some(size)
        &&& r.deck is Some
        &&& r.menu@.len() == if size <= all.len() { size as int } else { all.len() as int }
        &&& (r.menu@ + r.stock()).to_multiset() == all.to_multiset()
    }
}

/// The store of the zone `zone` that `store_type` describes. A fixed store
/// offers the factory's cards for its item names; a drafted store shuffles
/// the cards that `draft_counts` asks for and lays out up to its size.
pub fn parse_store(zone: BoardZone, store_type: StoreType, factory: &CardFactory, draft_counts: &Vec<(String, usize)>) -> (r: Store)
    ensures
        store_built(r, zone, store_type, factory_view(factory@), counts_view(draft_counts@)),
{
    match &store_type {
        StoreType::Fixed { items } => {
            let mut cards: Vec<Card> = Vec::new();
            let mut i: usize = 0;
            while i < items.len()
                invariant
                    i <= items@.len(),
                    cards_view(cards@) == menu_of(factory_view(factory@), names_view(items@.subrange(0, i as int))),
                decreases items@.len() - i,
            {
                proof {
                    assert(names_view(items@.subrange(0, i as int + 1)).drop_last() =~= names_view(
                        items@.subrange(0, i as int),
                    ));
                }
                match card_named(factory, &items[i]) {
                    Some(card) => {
                        proof {
                            lemma_cards_view_push(cards@, card);
                        }
                        cards.push(card);
                    },
                    None => {},
                }
                i = i + 1;
            }
            proof {
                assert(items@.subrange(0, i as int) =~= items@);
            }
            Store { store_type: store_type, menu: CardContainer { zone: zone, cards: cards, size: None }, deck: None }
        },
        StoreType::Drafted { size, .. } => {
            let size = *size;
            let mut deck = parse_deck(factory, draft_counts);
            let ghost all = expand(factory_view(factory@), counts_view(draft_counts@));
            let mut menu = CardContainer::new_sized(zone, size);
            proof {
                assert(menu@ + deck@ =~= deck@);
                vstd::seq_lib::to_multiset_len(deck@);
                vstd::seq_lib::to_multiset_len(all);
            }
            let mut k: usize = 0;
            let mut drawing = true;
            while k < size && drawing
                invariant
                    k <= size,
                    menu.zone == zone,
                    menu.size == Some(size),
                    (menu@ + deck@).to_multiset() == all.to_multiset(),
                    drawing ==> menu@.len() == k,
                    !drawing ==> deck@.len() == 0 && menu@.len() < size,
                    menu@.len() + deck@.len() == all.len(),
                decreases size - k + if drawing { 1int } else { 0int },
            {
                let ghost before = menu@ + deck@;
                match deck.draw() {
                    Some(card) => {
                        proof {
                            lemma_cards_view_push(menu.cards@, card);
                            assert(menu@.push(card@) + deck@ =~= before);
                        }
                        menu.add(card);
                        k = k + 1;
                    },
                    None => {
                        drawing = false;
                    },
                }
            }
            Store { store_type: store_type, menu: menu, deck: Some(Box::new(deck)) }
        },
    }
}


/// Why a game description cannot be used.
#[derive(Debug, Clone, Copy, PartialEq, Eq, Structural)]
pub enum LoadError {
    /// The game type is not one this game knows.
    UnknownGameType,
    /// A versus game needs exactly two players; this many were given.
    WrongPlayerCount(usize),
}

/// What `str::to_lowercase` makes of a string.
pub uninterp spec fn lower_of(s: Seq<char>) -> Seq<char>;

/// Relies on `str::to_lowercase`: the result depends on the characters alone.
#[verifier::external_body]
fn lowercase(s: &str) -> (r: String)
    ensures
        r@ == lower_of(s@),
{
    s.to_lowercase()
}

/// Pairs the players for a game of the type `kind`, already in lower case:
/// a versus game ("vs") takes exactly two players, each the other's
/// opponent.
pub fn pair_players(players: Vec<Player>, kind: &str) -> (r: Result<Vec<Player>, LoadError>)
    ensures
        r is Ok <==> (kind@ == "vs"@ && players@.len() == 2),
        r matches Ok(v) ==> {
            &&& v@.len() == 2
            &&& v@[0] == Player { opponent_idx: 1, ..players@[0] }
            &&& v@[1] == Player { opponent_idx: 0, ..players@[1] }
        },
        r matches Err(e) ==> {
            &&& kind@ != "vs"@ ==> e == LoadError::UnknownGameType
            &&& kind@ == "vs"@ ==> e == LoadError::WrongPlayerCount(players@.len() as usize)
        },
{
    proof {
        reveal_strlit("vs");
    }
    let versus: String = "vs".to_owned();
    let given: String = kind.to_owned();
    if !(given == versus) {
        return Err(LoadError::UnknownGameType);
    }
    if players.len() != 2 {
        return Err(LoadError::WrongPlayerCount(players.len()));
    }
    let mut players = players;
    players[0].opponent_idx = 1;
    players[1].opponent_idx = 0;
    Ok(players)
}

/// Pairs the players for a game of the type `game_type`, in any case.
pub fn load_players(players: Vec<Player>, game_type: &str) -> (r: Result<Vec<Player>, LoadError>)
    ensures
        r is Ok <==> (lower_of(game_type@) == "vs"@ && players@.len() == 2),
        r matches Ok(v) ==> {
            &&& v@.len() == 2
            &&& v@[0] == Player { opponent_idx: 1, ..players@[0] }
            &&& v@[1] == Player { opponent_idx: 0, ..players@[1] }
        },
        r matches Err(e) ==> {
            &&& lower_of(game_type@) != "vs"@ ==> e == LoadError::UnknownGameType
            &&& lower_of(game_type@) == "vs"@ ==> e == LoadError::WrongPlayerCount(players@.len() as usize)
        },
{
    let kind = lowercase(game_type);
    pair_players(players, kind.as_str())
}

/// A player's board at the start of the game: the shuffled starting deck, an
/// empty hand of capacity `HAND_SIZE`, the build store and the kaiju store,
/// the starting buildings, an empty kaiju zone and ledger, turn 1, and a
/// strategy when the computer plays it.
pub fn load_board(
    player: Player,
    factory: &CardFactory,
    deck_counts: &Vec<(String, usize)>,
    building_counts: &Vec<(String, usize)>,
    build_store: StoreType,
    build_draft: &Vec<(String, usize)>,
    kaiju_store: StoreType,
    kaiju_draft: &Vec<(String, usize)>,
) -> (r: BoardState)
    ensures
        r.player == player,
        r.turn == 1,
        r.hand.zone == BoardZone::Hand,
        r.hand.size == Some(HAND_SIZE),
        r.hand@.len() == 0,
        r.deck@.to_multiset() == expand(factory_view(factory@), counts_view(deck_counts@)).to_multiset(),
        r.globals.cleared(),
        r.stores@.len() == 2,
        store_built(
            r.stores@[0],
            BoardZone::BuildStore,
            build_store,
            factory_view(factory@),
            counts_view(build_draft@),
        ),
        store_built(
            r.stores@[1],
            BoardZone::KaijuStore,
            kaiju_store,
            factory_view(factory@),
            counts_view(kaiju_draft@),
        ),
        r.buildings.zone == BoardZone::Buildings,
        r.buildings.size is None,
        r.buildings@ == expand(factory_view(factory@), counts_view(building_counts@)),
        r.kaiju_zone.zone == BoardZone::Kaiju,
        r.kaiju_zone.size is None,
        r.kaiju_zone@.len() == 0,
        r.ai is Some <==> player.control == PlayerControl::AI,
{
    let draw_deck = parse_deck(factory, deck_counts);
    let build = parse_store(BoardZone::BuildStore, build_store, factory, build_draft);
    let kaiju = parse_store(BoardZone::KaijuStore, kaiju_store, factory, kaiju_draft);
    let hand = CardContainer::new_sized(BoardZone::Hand, HAND_SIZE);
    let buildings = container_counts(BoardZone::Buildings, factory, building_counts);
    let kaiju_zone = CardContainer::new(BoardZone::Kaiju);
    let ai = match player.control {
        PlayerControl::Human => None,
        PlayerControl::AI => Some(AI::new()),
    };
    let stores = vec![build, kaiju];
    proof {
        assert(cards_view(hand.cards@) =~= Seq::empty());
        assert(cards_view(kaiju_zone.cards@) =~= Seq::empty());
    }
    BoardState {
        player: player,
        turn: 1,
        hand: Box::new(hand),
        deck: Box::new(draw_deck),
        globals: NumberMap::new(),
        stores: Box::new(stores),
        buildings: Box::new(buildings),
        kaiju_zone: Box::new(kaiju_zone),
        ai: ai,
    }
}

} // verus!
