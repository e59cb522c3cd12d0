use pip::gen_default_game;
use pip::utils::yaml::{
    fold_lists, prettify, prettify_with, replace_first, PrettifyError, ITEM_PATTERN, LIST_PATTERN,
};
use regex::Regex;
use std::collections::BTreeMap;

fn chars(text: &str) -> Vec<char> {
    text.chars().collect()
}

fn replaced(text: &str, part: &str, with: &str) -> String {
    replace_first(&chars(text), &chars(part), &chars(with)).into_iter().collect()
}

#[test]
fn replace_first_takes_the_leftmost() {
    assert_eq!("xbab", replaced("abab", "a", "x"));
    assert_eq!("ab- [c- - d", replaced("ab- - c- - d", "- - ", "- ["));
    assert_eq!("abab", replaced("abab", "c", "x"));
    assert_eq!("ab", replaced("abab", "ab", ""));
    assert_eq!("xab", replaced("abab", "ab", "x"));
}

#[test]
fn replace_first_agrees_with_std() {
    for (text, part, with) in [
        ("", "", "x"),
        ("abc", "", "x"),
        ("abc", "abc", ""),
        ("abc", "abcd", "x"),
        ("aaa", "aa", "b"),
        ("a\nb\nc", "\n", ", "),
        ("héllo", "l", "L"),
        ("héllo", "é", "e"),
    ] {
        assert_eq!(text.replacen(part, with, 1), replaced(text, part, with));
    }
}

#[test]
fn found_lists_are_folded_where_they_first_stand() {
    let found = vec!["\n  - - a\n    - b".to_string(), "\n  - - c".to_string()];
    let folded = fold_lists(chars("x:\n  - - a\n    - b\n  - - c\n"), &found).unwrap();
    assert_eq!("x:\n  - [a, b]\n  - [c]\n", folded.into_iter().collect::<String>());

    // A list that is not in the text changes nothing.
    let absent = vec!["\n  - - z".to_string()];
    let same = fold_lists(chars("x:\n  - - a\n"), &absent).unwrap();
    assert_eq!("x:\n  - - a\n", same.into_iter().collect::<String>());

    let none: Vec<String> = Vec::new();
    assert_eq!(Ok(chars("abc")), fold_lists(chars("abc"), &none));
}

#[test]
fn text_without_lists_only_gets_its_newline() {
    assert_eq!(Ok("abc\n".to_string()), prettify("abc"));
    assert_eq!(Ok("\n".to_string()), prettify(""));
    assert_eq!(Ok("---\nfoundations:\n  - []\n".to_string()), prettify("---\nfoundations:\n  - []"));
}

#[test]
fn inner_list_goes_on_one_line() {
    assert_eq!(
        Ok("---\npiles:\n  - [AC, 4D, 7S]\n  - [AD]\n  - []\n".to_string()),
        prettify("---\npiles:\n  - - AC\n    - 4D\n    - 7S\n  - - AD\n  - []"),
    );
}

#[test]
fn equal_lists_are_each_rewritten() {
    assert_eq!(
        Ok("x:\n  - [a, b]\n  - [a, b]\n".to_string()),
        prettify("x:\n  - - a\n    - b\n  - - a\n    - b"),
    );
}

#[test]
fn patterns_are_those_of_the_yaml_layout() {
    assert_eq!(r"(?:\n {2}- - .*)(?:\n {2}  - .*)*", LIST_PATTERN);
    assert_eq!(r"\n {4}-", ITEM_PATTERN);
}

#[test]
fn default_game_as_pretty_yaml() {
    let game = gen_default_game();
    let mut doc: BTreeMap<&str, Vec<Vec<String>>> = BTreeMap::new();
    for (name, piles) in [("foundations", game.foundations()), ("tableau_piles", game.tableau_piles())] {
        let rows = piles.iter().map(|p| p.cards().iter().map(|c| c.to_string()).collect()).collect();
        doc.insert(name, rows);
    }
    // Newer releases of serde_yaml end the document with a line break and
    // older ones do not: the text is taken without it.
    let plain = serde_yaml::to_string(&doc).unwrap();
    let plain = plain.trim_end_matches('\n');
    assert_eq!(
        "---
foundations:
  - []
  - []
  - []
  - []
tableau_piles:
  - [AC, 4D, 7S, TH]
  - [AD, 4S, 7H, JC]
  - [AS, 4H, 8C, JD]
  - [AH, 5C, 8D, JS]
  - [2C, 5D, 8S, JH]
  - [2D, 5S, 8H, QC]
  - [2S, 5H, 9C, QD]
  - [2H, 6C, 9D, QS]
  - [3C, 6D, 9S, QH]
  - [3D, 6S, 9H, KC]
  - [3S, 6H, TC, KD]
  - [3H, 7C, TD, KS]
  - [4C, 7D, TS, KH]
",
        prettify(plain).unwrap()
    );
}

#[test]
fn failed_search_fails_the_call() {
    let refused = Regex::new("(").map(|_| Vec::new());
    assert!(refused.is_err());
    assert_eq!(Err(PrettifyError::Pattern), prettify_with(refused, "x:\n  - - a"));
}

#[test]
fn lists_that_were_found_are_written_on_one_line() {
    let text = "x:\n  - - a\n    - b";
    let found = vec!["\n  - - a\n    - b".to_string()];
    assert_eq!(Ok("x:\n  - [a, b]\n".to_string()), prettify_with(Ok(found.clone()), text));
    assert_eq!(prettify(text), prettify_with(Ok(found), text));
    assert_eq!(Ok("x\n".to_string()), prettify_with(Ok(Vec::new()), "x"));
}

#[test]
fn search_finds_what_the_pattern_matches() {
    // The lists are found by the pattern as `Regex::new` compiles it: a dot
    // does not match a line break, so each list ends with its last item.
    let re = Regex::new(LIST_PATTERN).unwrap();
    let text = "x:\n  - - a\n    - b\n  - []\n";
    let found: Vec<String> = re.find_iter(text).map(|m| m.as_str().to_string()).collect();
    assert_eq!(vec!["\n  - - a\n    - b".to_string()], found);
    assert_eq!(Ok("x:\n  - [a, b]\n  - []\n\n".to_string()), prettify(text));
}
