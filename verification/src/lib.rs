//! Patience deals and a depth-first solver over implicit state graphs.
//!
//! - `game` holds the cards, the pack and the deal.
//! - `utils` lays out blocks of text.
//! - `search` holds the generic engine: it walks the space of states that a
//!   [`search::Solvable`] type spans, depth first, and keeps only the branch
//!   under exploration in memory.

use game::pack::{sorted_cards, Deck, Rank};
use game::{dealt, Game};
use vstd::prelude::*;

pub mod game;
pub mod search;
pub mod utils;

verus! {

/// What a deal is made from.
pub struct Options {
    /// Where the shuffle's generator starts.
    pub seed: u64,
    /// The highest rank in the pack.
    pub max_rank: Rank,
}

/// Deals a shuffled pack: the game holds the cards of the ranks up to
/// `max_rank`, each once, dealt in the order that the shuffle gave them.
pub fn gen_game(ops: Options) -> (game: Game)
    ensures
        exists|cards: Seq<game::pack::Card>|
            cards.to_multiset() == sorted_cards(ops.max_rank.spec_value() as int).to_multiset()
                && game@ == #[trigger] dealt(cards),
{
    let deck = Deck::shuffled(ops.seed, ops.max_rank);
    Game::deal(deck)
}

/// Deals a new pack of 52 cards as it comes, unshuffled.
pub fn gen_default_game() -> (game: Game)
    ensures
        game@ == dealt(sorted_cards(13)),
{
    let deck = Deck::default();
    Game::deal(deck)
}

} // verus!
