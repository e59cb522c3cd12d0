//! The two-way tables between the ranks and suits and their texts, kept in
//! `bimap::BiHashMap`.
//!
//! Verus does not look inside `bimap`. This file declares the map type,
//! gives its pairs a mathematical name and states what the four methods in
//! use do to them; that part is believed, not proved. The tables themselves
//! are filled and read by verified code.

use bimap::BiHashMap;
use std::collections::hash_map::RandomState;
use vstd::prelude::*;

verus! {

/// `bimap::BiHashMap`, of which Verus sees nothing but the name.
#[verifier::external_type_specification]
#[verifier::external_body]
#[verifier::reject_recursive_types(L)]
#[verifier::reject_recursive_types(R)]
#[verifier::reject_recursive_types(LS)]
#[verifier::reject_recursive_types(RS)]
pub struct ExBiHashMap<L, R, LS, RS>(BiHashMap<L, R, LS, RS>);

/// The pairs of a map from texts to numbers: each left value, as its
/// characters, with the right value it is paired with.
pub uninterp spec fn bimap_pairs(m: BiHashMap<&'static str, u8, RandomState, RandomState>) -> Map<
    Seq<char>,
    u8,
>;

/// The pairs after `left` and `right` were inserted as a pair: the pairs
/// that held `left` or `right` before are gone.
pub open spec fn inserted(pairs: Map<Seq<char>, u8>, left: Seq<char>, right: u8) -> Map<
    Seq<char>,
    u8,
> {
    Map::new(
        |text: Seq<char>| text == left || (pairs.contains_key(text) && pairs[text] != right),
        |text: Seq<char>|
            if text == left {
                right
            } else {
                pairs[text]
            },
    )
}

/// `BiHashMap::new`: a map without pairs.
#[verifier::external_body]
pub(crate) fn bimap_new() -> (m: BiHashMap<&'static str, u8, RandomState, RandomState>)
    ensures
        forall|text: Seq<char>| !bimap_pairs(m).contains_key(text),
{
    BiHashMap::new()
}

/// `BiHashMap::insert`: the pair is in the map afterwards, and any pair
/// that held the same left or the same right value has left it.
#[verifier::external_body]
pub(crate) fn bimap_insert(
    m: &mut BiHashMap<&'static str, u8, RandomState, RandomState>,
    left: &'static str,
    right: u8,
)
    ensures
        bimap_pairs(*final(m)) == inserted(bimap_pairs(*old(m)), left@, right),
{
    m.insert(left, right);
}

/// `BiHashMap::get_by_left`: the right value that is paired with `left`, if
/// there is one.
#[verifier::external_body]
pub(crate) fn bimap_get_by_left(
    m: &BiHashMap<&'static str, u8, RandomState, RandomState>,
    left: &str,
) -> (right: Option<u8>)
    ensures
        right == if bimap_pairs(*m).contains_key(left@) {
            Some(bimap_pairs(*m)[left@])
        } else {
            None
        },
{
    m.get_by_left(left).copied()
}

/// `BiHashMap::get_by_right`: a left value that is paired with `right`, or
/// nothing where no pair holds `right`.
#[verifier::external_body]
pub(crate) fn bimap_get_by_right(
    m: &BiHashMap<&'static str, u8, RandomState, RandomState>,
    right: u8,
) -> (left: Option<&'static str>)
    ensures
        match left {
            Some(text) => bimap_pairs(*m).contains_key(text@) && bimap_pairs(*m)[text@] == right,
            None => forall|text: Seq<char>|
                bimap_pairs(*m).contains_key(text) ==> bimap_pairs(*m)[text] != right,
        },
{
    m.get_by_right(&right).copied()
}

/// The letter or digit that a rank is written with.
pub open spec fn rank_char(value: u8) -> char {
    if value == 1 {
        'A'
    } else if value == 2 {
        '2'
    } else if value == 3 {
        '3'
    } else if value == 4 {
        '4'
    } else if value == 5 {
        '5'
    } else if value == 6 {
        '6'
    } else if value == 7 {
        '7'
    } else if value == 8 {
        '8'
    } else if value == 9 {
        '9'
    } else if value == 10 {
        'T'
    } else if value == 11 {
        'J'
    } else if value == 12 {
        'Q'
    } else {
        'K'
    }
}

/// The rank that a text stands for: the text is the one character of a
/// rank from `1` to `13`.
pub open spec fn rank_of_text(text: Seq<char>) -> Option<u8> {
    if text.len() != 1 {
        None
    } else if text[0] == 'A' {
        Some(1)
    } else if text[0] == '2' {
        Some(2)
    } else if text[0] == '3' {
        Some(3)
    } else if text[0] == '4' {
        Some(4)
    } else if text[0] == '5' {
        Some(5)
    } else if text[0] == '6' {
        Some(6)
    } else if text[0] == '7' {
        Some(7)
    } else if text[0] == '8' {
        Some(8)
    } else if text[0] == '9' {
        Some(9)
    } else if text[0] == 'T' {
        Some(10)
    } else if text[0] == 'J' {
        Some(11)
    } else if text[0] == 'Q' {
        Some(12)
    } else if text[0] == 'K' {
        Some(13)
    } else {
        None
    }
}

/// The number under which a suit stands in its table: its place among
/// spades, hearts, clubs and diamonds.
pub open spec fn suit_code_char(code: u8) -> char {
    if code == 0 {
        'S'
    } else if code == 1 {
        'H'
    } else if code == 2 {
        'C'
    } else {
        'D'
    }
}

/// The number of the suit that a text stands for: the text is the one
/// letter of a suit.
pub open spec fn suit_code_of_text(text: Seq<char>) -> Option<u8> {
    if text.len() != 1 {
        None
    } else if text[0] == 'S' {
        Some(0)
    } else if text[0] == 'H' {
        Some(1)
    } else if text[0] == 'C' {
        Some(2)
    } else if text[0] == 'D' {
        Some(3)
    } else {
        None
    }
}

/// The pairs of the table of ranks with the numbers up to `upto`.
pub open spec fn rank_pairs(upto: int) -> Map<Seq<char>, u8> {
    Map::new(
        |text: Seq<char>| rank_of_text(text) is Some && rank_of_text(text)->0 <= upto,
        |text: Seq<char>| rank_of_text(text)->0,
    )
}

/// The pairs of the table of suits with the numbers up to `upto`.
pub open spec fn suit_pairs(upto: int) -> Map<Seq<char>, u8> {
    Map::new(
        |text: Seq<char>| suit_code_of_text(text) is Some && suit_code_of_text(text)->0 <= upto,
        |text: Seq<char>| suit_code_of_text(text)->0,
    )
}

/// A text that stands for a rank is the character of that rank, and no
/// other text stands for it.
pub proof fn lemma_rank_text(text: Seq<char>)
    ensures
        rank_of_text(text) matches Some(value) ==> 1 <= value <= 13 && text == seq![
            rank_char(value),
        ],
        forall|value: u8| 1 <= value <= 13 ==> rank_of_text(seq![#[trigger] rank_char(value)])
            == Some(value),
{
    if rank_of_text(text) is Some {
        assert(text =~= seq![text[0]]);
    }
}

/// A text that stands for a suit is the letter of that suit, and no other
/// text stands for it.
pub proof fn lemma_suit_text(text: Seq<char>)
    ensures
        suit_code_of_text(text) matches Some(code) ==> code <= 3 && text == seq![
            suit_code_char(code),
        ],
        forall|code: u8| code <= 3 ==> suit_code_of_text(seq![#[trigger] suit_code_char(code)])
            == Some(code),
{
    if suit_code_of_text(text) is Some {
        assert(text =~= seq![text[0]]);
    }
}

/// Puts the next rank into its table.
fn put_rank(
    names: &mut BiHashMap<&'static str, u8, RandomState, RandomState>,
    text: &'static str,
    value: u8,
)
    requires
        1 <= value <= 13,
        text@.len() == 1,
        text@[0] == rank_char(value),
        bimap_pairs(*old(names)) == rank_pairs(value - 1),
    ensures
        bimap_pairs(*final(names)) == rank_pairs(value as int),
{
    bimap_insert(names, text, value);
    proof {
        let after = inserted(rank_pairs(value - 1), text@, value);
        let goal = rank_pairs(value as int);
        assert(text@ =~= seq![rank_char(value)]);
        assert forall|t: Seq<char>| #[trigger] after.contains_key(t) <==> goal.contains_key(t) by {
            lemma_rank_text(t);
        }
        assert(after =~= goal);
    }
}

/// Puts the next suit into its table.
fn put_suit(
    names: &mut BiHashMap<&'static str, u8, RandomState, RandomState>,
    text: &'static str,
    code: u8,
)
    requires
        code <= 3,
        text@.len() == 1,
        text@[0] == suit_code_char(code),
        bimap_pairs(*old(names)) == suit_pairs(code - 1),
    ensures
        bimap_pairs(*final(names)) == suit_pairs(code as int),
{
    bimap_insert(names, text, code);
    proof {
        let after = inserted(suit_pairs(code - 1), text@, code);
        let goal = suit_pairs(code as int);
        assert(text@ =~= seq![suit_code_char(code)]);
        assert forall|t: Seq<char>| #[trigger] after.contains_key(t) <==> goal.contains_key(t) by {
            lemma_suit_text(t);
        }
        assert(after =~= goal);
    }
}

/// The table of the ranks and their texts.
pub(crate) fn rank_names() -> (names: BiHashMap<&'static str, u8, RandomState, RandomState>)
    ensures
        bimap_pairs(names) == rank_pairs(13),
{
    proof {
        reveal_strlit("A");
        reveal_strlit("2");
        reveal_strlit("3");
        reveal_strlit("4");
        reveal_strlit("5");
        reveal_strlit("6");
        reveal_strlit("7");
        reveal_strlit("8");
        reveal_strlit("9");
        reveal_strlit("T");
        reveal_strlit("J");
        reveal_strlit("Q");
        reveal_strlit("K");
    }
    let mut m = bimap_new();
    assert(bimap_pairs(m) =~= rank_pairs(0)) by {
        assert forall|t: Seq<char>| !rank_pairs(0).contains_key(t) by {
            lemma_rank_text(t);
        }
    }
    put_rank(&mut m, "A", 1);
    put_rank(&mut m, "2", 2);
    put_rank(&mut m, "3", 3);
    put_rank(&mut m, "4", 4);
    put_rank(&mut m, "5", 5);
    put_rank(&mut m, "6", 6);
    put_rank(&mut m, "7", 7);
    put_rank(&mut m, "8", 8);
    put_rank(&mut m, "9", 9);
    put_rank(&mut m, "T", 10);
    put_rank(&mut m, "J", 11);
    put_rank(&mut m, "Q", 12);
    put_rank(&mut m, "K", 13);
    m
}

/// The table of the suits and their texts.
pub(crate) fn suit_names() -> (names: BiHashMap<&'static str, u8, RandomState, RandomState>)
    ensures
        bimap_pairs(names) == suit_pairs(3),
{
    proof {
        reveal_strlit("S");
        reveal_strlit("H");
        reveal_strlit("C");
        reveal_strlit("D");
    }
    let mut m = bimap_new();
    assert(bimap_pairs(m) =~= suit_pairs(-1)) by {
        let none = suit_pairs(-1);
        assert forall|t: Seq<char>| !none.contains_key(t) by {
            lemma_suit_text(t);
        }
    }
    put_suit(&mut m, "S", 0);
    put_suit(&mut m, "H", 1);
    put_suit(&mut m, "C", 2);
    put_suit(&mut m, "D", 3);
    m
}

} // verus!
