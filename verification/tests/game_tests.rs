use pip::game::pack::{Card, Deck, Rank, Suit};
use pip::game::{Game, Pile};
use pip::utils::yaml::prettify;
use pip::{gen_default_game, gen_game, Options};
use std::collections::BTreeMap;

/// The text that a YAML scalar stands for.
fn from_yaml(text: &str) -> String {
    serde_yaml::from_str(text).unwrap()
}

/// The piles of a game as lists of card texts, under their names.
fn piles_doc(game: &Game) -> BTreeMap<String, Vec<Vec<String>>> {
    let mut doc = BTreeMap::new();
    for (name, piles) in [
        ("foundations", game.foundations()),
        ("tableau_piles", game.tableau_piles()),
    ] {
        let rows = piles
            .iter()
            .map(|p| p.cards().iter().map(|c| c.to_string()).collect())
            .collect();
        doc.insert(name.to_string(), rows);
    }
    doc
}

/// The piles that lists of card texts stand for.
fn piles_of(rows: &Vec<Vec<String>>) -> Vec<Pile> {
    rows.iter()
        .map(|row| Pile::from_cards(row.iter().map(|t| t.parse().unwrap()).collect()))
        .collect()
}

fn rank_of(value: u8) -> Rank {
    Rank::new(value).unwrap()
}

fn card_of(text: &str) -> Card {
    text.parse().unwrap()
}

fn sorted_texts() -> Vec<&'static str> {
    vec![
        "AC", "AD", "AS", "AH", "2C", "2D", "2S", "2H", "3C", "3D", "3S", "3H", "4C", "4D", "4S",
        "4H", "5C", "5D", "5S", "5H", "6C", "6D", "6S", "6H", "7C", "7D", "7S", "7H", "8C", "8D",
        "8S", "8H", "9C", "9D", "9S", "9H", "TC", "TD", "TS", "TH", "JC", "JD", "JS", "JH", "QC",
        "QD", "QS", "QH", "KC", "KD", "KS", "KH",
    ]
}

#[test]
fn default_is_sorted_deck() {
    let s: &str = "[AC, AD, AS, AH,
              2C, 2D, 2S, 2H,
              3C, 3D, 3S, 3H,
              4C, 4D, 4S, 4H,
              5C, 5D, 5S, 5H,
              6C, 6D, 6S, 6H,
              7C, 7D, 7S, 7H,
              8C, 8D, 8S, 8H,
              9C, 9D, 9S, 9H,
              TC, TD, TS, TH,
              JC, JD, JS, JH,
              QC, QD, QS, QH,
              KC, KD, KS, KH]";
    let texts: Vec<String> = serde_yaml::from_str(s).unwrap();
    let cards: Vec<Card> = texts.iter().map(|t| t.parse().unwrap()).collect();
    assert_eq!(Deck::default(), Deck::from_cards(cards));
    assert_eq!(sorted_texts(), texts);
}

#[test]
fn card() {
    for c in [
        ("AS", Card::new(rank_of(1), Suit::Spades)),
        ("6C", Card::new(rank_of(6), Suit::Clubs)),
        ("TH", Card::new(rank_of(10), Suit::Hearts)),
        ("KD", Card::new(rank_of(13), Suit::Diamonds)),
    ]
    .iter()
    {
        let str = c.0;
        let val = c.1;

        assert_eq!(val, str.parse().unwrap());
        assert_eq!(val, from_yaml(&str).parse().unwrap());
        assert_eq!(str, val.to_string());
    }
}

#[test]
fn rank() {
    for r in [
        ("A", 1),
        ("2", 2),
        ("3", 3),
        ("4", 4),
        ("5", 5),
        ("6", 6),
        ("7", 7),
        ("8", 8),
        ("9", 9),
        ("T", 10),
        ("J", 11),
        ("Q", 12),
        ("K", 13),
    ]
    .iter()
    {
        let str = r.0;
        let val = Rank::new(r.1).unwrap();

        assert_eq!(val, str.parse().unwrap());
        assert_eq!(val, from_yaml(&str).parse().unwrap());
        assert_eq!(str, val.to_string());
    }
}

#[test]
fn suit() {
    for s in [
        ("S", Suit::Spades),
        ("H", Suit::Hearts),
        ("C", Suit::Clubs),
        ("D", Suit::Diamonds),
    ]
    .iter()
    {
        let str = s.0;
        let val = s.1;

        assert_eq!(val, str.parse().unwrap());
        assert_eq!(val, from_yaml(&str).parse().unwrap());
        assert_eq!(str, val.to_string());
        assert_eq!(
            format!("---\n{}", &str),
            serde_yaml::to_string(&val.to_string()).unwrap().trim_end()
        );
    }
}

#[test]
fn default_game() {
    let game = Game::deal(Deck::default());
    let yaml_str = prettify(&serde_yaml::to_string(&piles_doc(&game)).unwrap()).unwrap();

    let doc: BTreeMap<String, Vec<Vec<String>>> = serde_yaml::from_str(&yaml_str).unwrap();
    let read = Game::from_piles(piles_of(&doc["foundations"]), piles_of(&doc["tableau_piles"]));
    assert_eq!(game, read);
    assert_eq!(game, gen_default_game());
}

#[test]
fn default_game_takes_the_pack_in_turn() {
    let game = gen_default_game();
    assert_eq!(4, game.foundations().len());
    for pile in game.foundations() {
        assert!(pile.cards().is_empty());
    }
    let rows = [
        ["AC", "4D", "7S", "TH"],
        ["AD", "4S", "7H", "JC"],
        ["AS", "4H", "8C", "JD"],
        ["AH", "5C", "8D", "JS"],
        ["2C", "5D", "8S", "JH"],
        ["2D", "5S", "8H", "QC"],
        ["2S", "5H", "9C", "QD"],
        ["2H", "6C", "9D", "QS"],
        ["3C", "6D", "9S", "QH"],
        ["3D", "6S", "9H", "KC"],
        ["3S", "6H", "TC", "KD"],
        ["3H", "7C", "TD", "KS"],
        ["4C", "7D", "TS", "KH"],
    ];
    assert_eq!(13, game.tableau_piles().len());
    for (pile, row) in game.tableau_piles().iter().zip(rows.iter()) {
        let texts: Vec<String> = pile.cards().iter().map(|c| c.to_string()).collect();
        assert_eq!(row.to_vec(), texts);
    }
}

#[test]
fn rank_outside_the_pack_is_refused() {
    assert!(Rank::new(0).is_none());
    assert!(Rank::new(14).is_none());
    assert!(Rank::new(255).is_none());
    assert_eq!(13, Rank::new(13).unwrap().value());
}

#[test]
fn unknown_texts_do_not_parse() {
    assert!("".parse::<Rank>().is_err());
    assert!("1".parse::<Rank>().is_err());
    assert!("10".parse::<Rank>().is_err());
    assert!("a".parse::<Rank>().is_err());
    assert!("AK".parse::<Rank>().is_err());
    assert!("".parse::<Suit>().is_err());
    assert!("s".parse::<Suit>().is_err());
    assert!("SH".parse::<Suit>().is_err());
    assert!("".parse::<Card>().is_err());
    assert!("A".parse::<Card>().is_err());
    assert!("SA".parse::<Card>().is_err());
    assert!("1S".parse::<Card>().is_err());
    assert!("AX".parse::<Card>().is_err());
}

#[test]
fn card_reads_only_its_first_two_characters() {
    assert_eq!(Card::new(rank_of(1), Suit::Spades), "ASxyz".parse().unwrap());
    assert_eq!(Some(Card::new(rank_of(12), Suit::Hearts)), Card::parse("QH!"));
}

#[test]
fn every_card_reads_back_as_written() {
    for value in 1..=13u8 {
        for suit in Suit::iterator() {
            let c = Card::new(rank_of(value), suit);
            assert_eq!(Some(c), Card::parse(&c.to_string()));
            assert_eq!(value, c.rank().value());
            assert_eq!(suit, c.suit());
        }
    }
}

#[test]
fn suits_come_in_pack_order() {
    assert_eq!(
        [Suit::Clubs, Suit::Diamonds, Suit::Spades, Suit::Hearts],
        Suit::iterator()
    );
}

#[test]
fn deck_observers() {
    let deck = Deck::default();
    assert_eq!(52, deck.len());
    assert!(!deck.is_empty());
    assert!(Deck::from_cards(Vec::new()).is_empty());
    let texts: Vec<String> = deck.iter().map(|c| c.to_string()).collect();
    assert_eq!(sorted_texts(), texts);
    assert_eq!(card_of("AD"), deck.card(1));
}

#[test]
fn shuffled_deck_holds_each_card_once() {
    for seed in [0u64, 1, 42, u64::MAX] {
        let deck = Deck::shuffled(seed, rank_of(13));
        assert_eq!(52, deck.len());
        let mut texts: Vec<String> = deck.iter().map(|c| c.to_string()).collect();
        texts.sort();
        let mut expected: Vec<String> = sorted_texts().iter().map(|t| t.to_string()).collect();
        expected.sort();
        assert_eq!(expected, texts);
    }
}

#[test]
fn shuffle_changes_the_order() {
    assert_ne!(Deck::default(), Deck::shuffled(7, rank_of(13)));
}

#[test]
fn shuffled_deck_stops_at_max_rank() {
    let deck = Deck::shuffled(3, rank_of(5));
    assert_eq!(20, deck.len());
    assert!(deck.iter().all(|c| c.rank().value() <= 5));
    let game = gen_game(Options { seed: 3, max_rank: rank_of(5) });
    let dealt: usize = game.tableau_piles().iter().map(|p| p.cards().len()).sum();
    assert_eq!(20, dealt);
}

#[test]
fn deal_goes_round_the_piles() {
    let cards: Vec<Card> = sorted_texts().into_iter().take(15).map(card_of).collect();
    let game = Game::deal(Deck::from_cards(cards.clone()));
    let piles = game.tableau_piles();
    assert_eq!(13, piles.len());
    assert_eq!(&vec![cards[0], cards[13]], piles[0].cards());
    assert_eq!(&vec![cards[1], cards[14]], piles[1].cards());
    for p in 2..13 {
        assert_eq!(&vec![cards[p]], piles[p].cards());
    }
}

#[test]
fn deal_of_an_empty_deck_is_the_default_game() {
    assert_eq!(Game::default(), Game::deal(Deck::from_cards(Vec::new())));
    assert_eq!(4, Game::default_foundations_count());
    assert_eq!(13, Game::default_tableau_count());
    assert_eq!(4, Game::default_foundations().len());
    assert_eq!(13, Game::default_tableau_piles().len());
}

#[test]
fn pile_takes_cards_on_top() {
    let mut pile = Pile::new();
    pile.place(card_of("2H"));
    pile.place(card_of("KS"));
    assert_eq!(Pile::from_cards(vec![card_of("2H"), card_of("KS")]), pile);
    assert_eq!(Pile::default(), Pile::new());
}
