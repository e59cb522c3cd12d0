//! The game: a pack dealt out into piles.

use self::pack::{Card, Deck};
use vstd::prelude::*;

pub mod names;
pub mod pack;

verus! {

/// The number of tableau piles that a deal fills.
pub open spec fn tableau_count() -> int {
    13
}

/// The number of foundations, which a deal leaves empty.
pub open spec fn foundations_count() -> int {
    4
}

/// The cards that a deal puts on tableau pile `p`: every thirteenth card of
/// the pack, from card `p` on.
pub open spec fn dealt_pile(cards: Seq<Card>, p: int) -> Seq<Card> {
    Seq::new(
        if cards.len() > p {
            ((cards.len() - p + 12) / 13) as nat
        } else {
            0nat
        },
        |k: int| cards[p + 13 * k],
    )
}

/// The piles of a game, each from the bottom card up.
pub struct GameView {
    pub foundations: Seq<Seq<Card>>,
    pub tableau_piles: Seq<Seq<Card>>,
}

/// The game that dealing `cards` gives: four empty foundations, and thirteen
/// tableau piles that took the cards in turn.
pub open spec fn dealt(cards: Seq<Card>) -> GameView {
    GameView {
        foundations: Seq::new(foundations_count() as nat, |p: int| Seq::<Card>::empty()),
        tableau_piles: Seq::new(tableau_count() as nat, |p: int| dealt_pile(cards, p)),
    }
}

#[derive(Clone, PartialEq, Eq, Debug, Hash, Default)]
pub struct Pile(Vec<Card>);

impl View for Pile {
    type V = Seq<Card>;

    closed spec fn view(&self) -> Seq<Card> {
        self.0@
    }
}

impl Pile {
    /// A pile without cards.
    pub fn new() -> (pile: Pile)
        ensures
            pile@ == Seq::<Card>::empty(),
    {
        Pile(Vec::new())
    }

    /// A pile of these cards, the first at the bottom.
    pub fn from_cards(cards: Vec<Card>) -> (pile: Pile)
        ensures
            pile@ == cards@,
    {
        Pile(cards)
    }

    /// Puts a card on top.
    pub fn place(&mut self, card: Card)
        ensures
            final(self)@ == old(self)@.push(card),
    {
        self.0.push(card)
    }

    /// The cards from the bottom up.
    pub fn cards(&self) -> (cards: &Vec<Card>)
        ensures
            cards@ == self@,
    {
        &self.0
    }
}

/// The views of some piles, in their order.
pub open spec fn pile_views(piles: Seq<Pile>) -> Seq<Seq<Card>> {
    Seq::new(piles.len(), |p: int| piles[p]@)
}

#[derive(Clone, PartialEq, Eq, Debug, Hash)]
pub struct Game {
    foundations: Vec<Pile>,
    tableau_piles: Vec<Pile>,
}

impl View for Game {
    type V = GameView;

    closed spec fn view(&self) -> GameView {
        GameView {
            foundations: pile_views(self.foundations@),
            tableau_piles: pile_views(self.tableau_piles@),
        }
    }
}

impl Game {
    pub fn default_foundations_count() -> (count: usize)
        ensures
            count == foundations_count(),
    {
        4
    }

    pub fn default_tableau_count() -> (count: usize)
        ensures
            count == tableau_count(),
    {
        13
    }

    /// Empty piles, as many as asked for.
    fn empty_piles(count: usize) -> (piles: Vec<Pile>)
        ensures
            pile_views(piles@) == Seq::new(count as nat, |p: int| Seq::<Card>::empty()),
    {
        let mut piles: Vec<Pile> = Vec::new();
        let mut p: usize = 0;
        while p < count
            invariant
                p <= count,
                piles@.len() == p,
                forall|q: int| 0 <= q < p ==> (#[trigger] piles@[q])@ == Seq::<Card>::empty(),
            decreases count - p,
        {
            piles.push(Pile::new());
            p += 1;
        }
        piles
    }

    pub fn default_foundations() -> (piles: Vec<Pile>)
        ensures
            pile_views(piles@) == dealt(Seq::empty()).foundations,
    {
        Self::empty_piles(Self::default_foundations_count())
    }

    pub fn default_tableau_piles() -> (piles: Vec<Pile>)
        ensures
            pile_views(piles@) == dealt(Seq::empty()).tableau_piles,
    {
        let piles = Self::empty_piles(Self::default_tableau_count());
        assert(pile_views(piles@) =~~= dealt(Seq::empty()).tableau_piles);
        piles
    }

    /// Deals the pack: the cards go to the thirteen tableau piles in turn,
    /// from the first card on, until the pack is out. The foundations stay
    /// empty.
    pub fn deal(deck: Deck) -> (game: Self)
        ensures
            game@ == dealt(deck@),
    {
        let foundations = Self::default_foundations();
        let count = Self::default_tableau_count();
        let n = deck.len();
        let mut tableau_piles: Vec<Pile> = Vec::new();
        let mut p: usize = 0;
        while p < count
            invariant
                p <= count == 13,
                n == deck@.len(),
                tableau_piles@.len() == p,
                forall|q: int| 0 <= q < p ==> (#[trigger] tableau_piles@[q])@ == dealt_pile(deck@, q),
            decreases count - p,
        {
            let mut pile = Pile::new();
            let mut k: usize = p;
            let ghost mut taken: int = 0;
            while k < n
                invariant
                    p < 13,
                    n == deck@.len(),
                    k == p + 13 * taken || (k == n && n <= p + 13 * taken),
                    0 <= taken,
                    p + 13 * (taken - 1) < n || taken == 0,
                    pile@ == Seq::new(taken as nat, |j: int| deck@[p + 13 * j]),
                decreases n - k,
            {
                pile.place(deck.card(k));
                proof {
                    taken = taken + 1;
                }
                if n - k > 13 {
                    k += 13;
                } else {
                    k = n;
                }
            }
            tableau_piles.push(pile);
            p += 1;
        }
        let game = Game { foundations, tableau_piles };
        assert(game@.tableau_piles =~~= dealt(deck@).tableau_piles);
        game
    }

    /// A game with these piles.
    pub fn from_piles(foundations: Vec<Pile>, tableau_piles: Vec<Pile>) -> (game: Self)
        ensures
            game@.foundations == pile_views(foundations@),
            game@.tableau_piles == pile_views(tableau_piles@),
    {
        Game { foundations, tableau_piles }
    }

    pub fn foundations(&self) -> (piles: &Vec<Pile>)
        ensures
            pile_views(piles@) == self@.foundations,
    {
        &self.foundations
    }

    pub fn tableau_piles(&self) -> (piles: &Vec<Pile>)
        ensures
            pile_views(piles@) == self@.tableau_piles,
    {
        &self.tableau_piles
    }
}

impl Default for Game {
    /// A game before the deal: every pile is empty.
    fn default() -> (game: Self)
        ensures
            game@ == dealt(Seq::empty()),
    {
        Game {
            foundations: Self::default_foundations(),
            tableau_piles: Self::default_tableau_piles(),
        }
    }
}

} // verus!
