//! Cards, and the pack they come in.

use super::names::{
    bimap_get_by_left, bimap_get_by_right, lemma_rank_text, lemma_suit_text, rank_char,
    rank_names, rank_of_text, rank_pairs, suit_code_char, suit_code_of_text, suit_names,
    suit_pairs,
};
use crate::utils::string_ops::to_text;
use rand::{Isaac64Rng, Rng, SeedableRng};
use std::slice::Iter;
use std::str::FromStr;
use vstd::prelude::*;
use vstd::std_specs::slice::into_iter_elts;
use vstd::string::StringExecFns;

verus! {

// Ranks //
/// The rank of a card, from the ace, `1`, to the king, `13`.
#[derive(Clone, Copy, PartialEq, PartialOrd, Eq, Ord, Debug, Hash, Structural)]
pub struct Rank(u8);

impl Rank {
    #[verifier::type_invariant]
    spec fn in_pack(self) -> bool {
        1 <= self.0 <= 13
    }

    /// The number of the rank.
    pub closed spec fn spec_value(self) -> u8 {
        self.0
    }

    /// The rank with this number, where there is one.
    pub fn new(value: u8) -> (rank: Option<Rank>)
        ensures
            rank is Some <==> 1 <= value <= 13,
            rank is Some ==> rank->0.spec_value() == value,
    {
        if 1 <= value && value <= 13 {
            Some(Rank(value))
        } else {
            None
        }
    }

    /// The number of the rank, from `1` to `13`.
    #[verifier::when_used_as_spec(spec_value)]
    pub fn value(self) -> (value: u8)
        ensures
            value == self.spec_value(),
            1 <= value <= 13,
    {
        proof {
            use_type_invariant(self);
        }
        self.0
    }

    /// The rank as it is written: `A`, `2` to `9`, `T`, `J`, `Q` or `K`.
    pub fn to_string(&self) -> (text: String)
        ensures
            text@ == seq![rank_char(self.spec_value())],
    {
        proof {
            use_type_invariant(self);
            let key = seq![rank_char(self.0)];
            lemma_rank_text(key);
            assert(rank_pairs(13).contains_key(key) && rank_pairs(13)[key] == self.0);
        }
        let names = rank_names();
        match bimap_get_by_right(&names, self.0) {
            Some(text) => {
                proof {
                    lemma_rank_text(text@);
                    assert(rank_pairs(13)[text@] == self.0);
                }
                text.to_owned()
            },
            None => unreached(),
        }
    }

    /// The rank that a character stands for.
    fn of_char(c: char) -> (rank: Option<Rank>)
        ensures
            match rank {
                Some(r) => rank_of_text(seq![c]) == Some(r.0),
                None => rank_of_text(seq![c]) is None,
            },
    {
        let mut text: Vec<char> = Vec::new();
        text.push(c);
        assert(text@ =~= seq![c]);
        Rank::parse(to_text(&text).as_str())
    }

    /// Reads a rank from its text.
    pub fn parse(s: &str) -> (rank: Option<Rank>)
        ensures
            match rank {
                Some(r) => rank_of_text(s@) == Some(r.spec_value()),
                None => rank_of_text(s@) is None,
            },
    {
        proof {
            lemma_rank_text(s@);
        }
        let names = rank_names();
        match bimap_get_by_left(&names, s) {
            Some(value) => Some(Rank(value)),
            None => None,
        }
    }
}

impl FromStr for Rank {
    type Err = ();

    fn from_str(s: &str) -> (parsed: Result<Self, ()>)
        ensures
            match parsed {
                Ok(r) => rank_of_text(s@) == Some(r.spec_value()),
                Err(_) => rank_of_text(s@) is None,
            },
    {
        match Rank::parse(s) {
            Some(rank) => Ok(rank),
            None => Err(()),
        }
    }
}

/// Reading what was written gives the rank back.
pub proof fn lemma_rank_round_trip(value: u8)
    requires
        1 <= value <= 13,
    ensures
        rank_of_text(seq![rank_char(value)]) == Some(value),
{
}

// Suits //
#[derive(Clone, Copy, PartialEq, Eq, PartialOrd, Debug, Hash, Structural)]
pub enum Suit {
    Spades,
    Hearts,
    Clubs,
    Diamonds,
}

/// The number under which a suit stands in the table of suits.
pub open spec fn suit_code(suit: Suit) -> u8 {
    match suit {
        Suit::Spades => 0,
        Suit::Hearts => 1,
        Suit::Clubs => 2,
        Suit::Diamonds => 3,
    }
}

/// The suit that stands under a number in the table of suits.
pub open spec fn suit_of_code(code: u8) -> Suit {
    if code == 0 {
        Suit::Spades
    } else if code == 1 {
        Suit::Hearts
    } else if code == 2 {
        Suit::Clubs
    } else {
        Suit::Diamonds
    }
}

/// The letter that a suit is written with: `S`, `H`, `C` or `D`.
pub open spec fn suit_char(suit: Suit) -> char {
    suit_code_char(suit_code(suit))
}

/// The suit that a text stands for: the text is the one letter of a suit.
pub open spec fn suit_of_text(text: Seq<char>) -> Option<Suit> {
    match suit_code_of_text(text) {
        Some(code) => Some(suit_of_code(code)),
        None => None,
    }
}

/// The suits in the order in which a new pack holds them.
pub open spec fn suit_order() -> Seq<Suit> {
    seq![Suit::Clubs, Suit::Diamonds, Suit::Spades, Suit::Hearts]
}

impl Suit {
    /// The four suits, in the order in which a new pack holds them.
    pub fn iterator() -> (suits: [Suit; 4])
        ensures
            suits@ == suit_order(),
    {
        let suits = [Suit::Clubs, Suit::Diamonds, Suit::Spades, Suit::Hearts];
        suits
    }

    /// The number under which the suit stands in the table of suits.
    fn code(&self) -> (code: u8)
        ensures
            code == suit_code(*self),
    {
        match self {
            Suit::Spades => 0,
            Suit::Hearts => 1,
            Suit::Clubs => 2,
            Suit::Diamonds => 3,
        }
    }

    /// The suit that stands under a number in the table of suits.
    fn of_code(code: u8) -> (suit: Suit)
        ensures
            suit == suit_of_code(code),
    {
        if code == 0 {
            Suit::Spades
        } else if code == 1 {
            Suit::Hearts
        } else if code == 2 {
            Suit::Clubs
        } else {
            Suit::Diamonds
        }
    }

    /// The suit as it is written: `S`, `H`, `C` or `D`.
    pub fn to_string(&self) -> (text: String)
        ensures
            text@ == seq![suit_char(*self)],
    {
        let code = self.code();
        proof {
            let key = seq![suit_code_char(code)];
            lemma_suit_text(key);
            assert(suit_pairs(3).contains_key(key) && suit_pairs(3)[key] == code);
        }
        let names = suit_names();
        match bimap_get_by_right(&names, code) {
            Some(text) => {
                proof {
                    lemma_suit_text(text@);
                    assert(suit_pairs(3)[text@] == code);
                }
                text.to_owned()
            },
            None => unreached(),
        }
    }

    /// The suit that a character stands for.
    fn of_char(c: char) -> (suit: Option<Suit>)
        ensures
            suit == suit_of_text(seq![c]),
    {
        let mut text: Vec<char> = Vec::new();
        text.push(c);
        assert(text@ =~= seq![c]);
        Suit::parse(to_text(&text).as_str())
    }

    /// Reads a suit from its text.
    pub fn parse(s: &str) -> (suit: Option<Suit>)
        ensures
            suit == suit_of_text(s@),
    {
        let names = suit_names();
        match bimap_get_by_left(&names, s) {
            Some(code) => Some(Suit::of_code(code)),
            None => None,
        }
    }
}

impl FromStr for Suit {
    type Err = ();

    fn from_str(s: &str) -> (parsed: Result<Self, ()>)
        ensures
            match parsed {
                Ok(suit) => suit_of_text(s@) == Some(suit),
                Err(_) => suit_of_text(s@) is None,
            },
    {
        match Suit::parse(s) {
            Some(suit) => Ok(suit),
            None => Err(()),
        }
    }
}

/// Reading what was written gives the suit back.
pub proof fn lemma_suit_round_trip(suit: Suit)
    ensures
        suit_of_text(seq![suit_char(suit)]) == Some(suit),
{
}

// Cards //
#[derive(Clone, Copy, PartialEq, PartialOrd, Eq, Debug, Hash, Structural)]
pub struct Card {
    rank: Rank,
    suit: Suit,
}

/// The card of this rank and suit.
pub closed spec fn card_of(value: u8, suit: Suit) -> Card {
    Card { rank: Rank(value), suit }
}

/// A card is known by its rank and its suit.
pub proof fn lemma_card_of(value: u8, suit: Suit)
    ensures
        card_of(value, suit).spec_rank().spec_value() == value,
        card_of(value, suit).spec_suit() == suit,
{
}

/// The card that a text starts with: the first character is a rank and the
/// second a suit. What follows them is not read.
pub open spec fn card_of_text(text: Seq<char>) -> Option<(u8, Suit)> {
    if text.len() < 2 {
        None
    } else {
        match (rank_of_text(seq![text[0]]), suit_of_text(seq![text[1]])) {
            (Some(value), Some(suit)) => Some((value, suit)),
            _ => None,
        }
    }
}

impl Card {
    pub closed spec fn spec_rank(&self) -> Rank {
        self.rank
    }

    pub closed spec fn spec_suit(&self) -> Suit {
        self.suit
    }

    pub fn new(rank: Rank, suit: Suit) -> (card: Card)
        ensures
            card == card_of(rank.spec_value(), suit),
            card.spec_rank() == rank,
            card.spec_suit() == suit,
    {
        Card { rank, suit }
    }

    #[verifier::when_used_as_spec(spec_rank)]
    pub fn rank(&self) -> (rank: Rank)
        ensures
            rank == self.spec_rank(),
    {
        self.rank
    }

    #[verifier::when_used_as_spec(spec_suit)]
    pub fn suit(&self) -> (suit: Suit)
        ensures
            suit == self.spec_suit(),
    {
        self.suit
    }

    /// The card as it is written: its rank, then its suit.
    pub fn to_string(&self) -> (text: String)
        ensures
            text@ == seq![rank_char(self.spec_rank().spec_value()), suit_char(self.spec_suit())],
    {
        let mut text = self.rank.to_string();
        let suit = self.suit.to_string();
        text.append(suit.as_str());
        text
    }

    /// Reads a card from the first two characters of its text.
    pub fn parse(s: &str) -> (card: Option<Card>)
        ensures
            match card {
                Some(c) => card_of_text(s@) == Some((c.spec_rank().spec_value(), c.spec_suit()))
                    && c == card_of(c.spec_rank().spec_value(), c.spec_suit()),
                None => card_of_text(s@) is None,
            },
    {
        if s.unicode_len() < 2 {
            return None;
        }
        let rank = Rank::of_char(s.get_char(0));
        let suit = Suit::of_char(s.get_char(1));
        match (rank, suit) {
            (Some(rank), Some(suit)) => Some(Card { rank, suit }),
            _ => None,
        }
    }
}

impl FromStr for Card {
    type Err = ();

    fn from_str(s: &str) -> (parsed: Result<Self, ()>)
        ensures
            match parsed {
                Ok(c) => card_of_text(s@) == Some((c.spec_rank().spec_value(), c.spec_suit()))
                    && c == card_of(c.spec_rank().spec_value(), c.spec_suit()),
                Err(_) => card_of_text(s@) is None,
            },
    {
        match Card::parse(s) {
            Some(card) => Ok(card),
            None => Err(()),
        }
    }
}

// Decks //
#[derive(Clone, PartialEq, Eq, PartialOrd, Debug, Hash)]
pub struct Deck(Vec<Card>);

/// The cards of a new pack with the ranks from `1` to `max_rank`: rank by
/// rank, and within a rank suit by suit.
pub open spec fn sorted_cards(max_rank: int) -> Seq<Card> {
    Seq::new(
        if max_rank > 0 {
            (4 * max_rank) as nat
        } else {
            0nat
        },
        |i: int| card_of((i / 4 + 1) as u8, suit_order()[i % 4]),
    )
}

impl View for Deck {
    type V = Seq<Card>;

    closed spec fn view(&self) -> Seq<Card> {
        self.0@
    }
}

impl Default for Deck {
    /// A new pack of 52 cards.
    fn default() -> (deck: Self)
        ensures
            deck@ == sorted_cards(13),
    {
        Deck::sorted(13)
    }
}

impl Deck {
    /// A new pack with the ranks up to `max_rank`.
    fn sorted(max_rank: u8) -> (deck: Deck)
        requires
            1 <= max_rank <= 13,
        ensures
            deck@ == sorted_cards(max_rank as int),
    {
        let suits = Suit::iterator();
        let mut cards: Vec<Card> = Vec::new();
        let mut r: u8 = 1;
        while r <= max_rank
            invariant
                1 <= r <= max_rank + 1,
                max_rank <= 13,
                suits@ == suit_order(),
                cards@ == sorted_cards(r - 1),
            decreases max_rank + 1 - r,
        {
            let mut s: usize = 0;
            while s < 4
                invariant
                    1 <= r <= max_rank <= 13,
                    s <= 4,
                    suits@ == suit_order(),
                    cards@ == sorted_cards(r - 1) + Seq::new(
                        s as nat,
                        |i: int| Card { rank: Rank(r), suit: suit_order()[i] },
                    ),
                decreases 4 - s,
            {
                cards.push(Card { rank: Rank(r), suit: suits[s] });
                s += 1;
            }
            r += 1;
        }
        Deck(cards)
    }

    /// A pack with the ranks up to `max_rank`, shuffled by a generator that
    /// starts from `seed`: the same cards as in the new pack, in some order.
    pub fn shuffled(seed: u64, max_rank: Rank) -> (deck: Self)
        ensures
            deck@.to_multiset() == sorted_cards(max_rank.spec_value() as int).to_multiset(),
    {
        let mut d = Self::sorted(max_rank.value());
        let mut rng = rng_from_seed(seed);
        shuffle_cards(&mut rng, &mut d.0);
        d
    }

    /// A pack of these cards, in this order.
    pub fn from_cards(cards: Vec<Card>) -> (deck: Self)
        ensures
            deck@ == cards@,
    {
        Deck(cards)
    }

    pub fn is_empty(&self) -> (empty: bool)
        ensures
            empty == (self@.len() == 0),
    {
        self.0.len() == 0
    }

    pub fn len(&self) -> (len: usize)
        ensures
            len == self@.len(),
    {
        self.0.len()
    }

    /// The cards from the top of the pack down.
    pub fn iter(&self) -> (cards: Iter<Card>)
        ensures
            into_iter_elts(cards) == self@,
    {
        let cards = self.0.iter();
        cards
    }

    /// The card at place `i`.
    pub fn card(&self, i: usize) -> (card: Card)
        requires
            i < self@.len(),
        ensures
            card == self@[i as int],
    {
        self.0[i]
    }
}

/// `rand::Isaac64Rng`, a generator of pseudo-random numbers; Verus sees
/// nothing but the name.
#[verifier::external_type_specification]
#[verifier::external_body]
pub struct ExIsaac64Rng(Isaac64Rng);

/// `SeedableRng::seed_from_u64` of `Isaac64Rng`: a generator whose stream
/// is set by `seed`. Nothing is claimed of the stream.
#[verifier::external_body]
fn rng_from_seed(seed: u64) -> Isaac64Rng {
    Isaac64Rng::seed_from_u64(seed)
}

/// `Rng::shuffle`: a Fisher-Yates shuffle in place. It only swaps items, so
/// the same cards are there afterwards, each as often as before. Where each
/// lands hangs on the generator and on the width of `usize`, and is left
/// open.
#[verifier::external_body]
fn shuffle_cards(rng: &mut Isaac64Rng, cards: &mut Vec<Card>)
    ensures
        final(cards)@.to_multiset() == old(cards)@.to_multiset(),
{
    rng.shuffle(cards);
}

} // verus!
