//! Making the YAML of a game easier to read: a list of lists is written
//! with each inner list on one line, in brackets.
//!
//! The inner lists are found and their items joined with the `regex` crate.
//! What a pattern matches is not spelled out here: the results of the calls
//! have names, and the contracts say how the text is put together from
//! them. A pattern is compiled where it is used, from its text alone.

use super::string_ops::{extend, to_chars, to_text};
use regex::Regex;
use vstd::prelude::*;

verus! {

/// `regex::Error`, with which `Regex::new` refuses a pattern.
#[verifier::external_type_specification]
#[verifier::external_body]
pub struct ExRegexError(regex::Error);

/// Whether `Regex::new` takes a pattern.
pub uninterp spec fn pattern_compiles(pattern: Seq<char>) -> bool;

/// The matches in a text, from left to right and without overlap, of a
/// pattern that `Regex::new` compiled, as `Regex::captures_iter` finds them.
pub uninterp spec fn pattern_matches(pattern: Seq<char>, text: Seq<char>) -> Seq<Seq<char>>;

/// The text with every such match replaced, as `Regex::replace_all` returns
/// it for a pattern that `Regex::new` compiled.
pub uninterp spec fn pattern_replaced(pattern: Seq<char>, text: Seq<char>, with: Seq<char>) -> Seq<
    char,
>;

/// An inner list of a list of lists: its first item after `- - `, the
/// others each on a line of its own.
pub const LIST_PATTERN: &'static str = r"(?:\n {2}- - .*)(?:\n {2}  - .*)*";

/// The break and the dash before an item of an inner list.
pub const ITEM_PATTERN: &'static str = r"\n {4}-";

/// Why a text could not be made pretty.
#[derive(Clone, Copy, PartialEq, Eq, Debug)]
pub enum PrettifyError {
    /// `regex` did not take one of the two patterns.
    Pattern,
}

/// `Regex::new`, then `Regex::captures_iter` on what it compiled, of which
/// the whole of each match is taken: the matches of the pattern in `text`,
/// from left to right. The call fails exactly where `Regex::new` refuses
/// the pattern. The expression is compiled here and nowhere else, so it has
/// the options that `Regex::new` gives it.
#[verifier::external_body]
fn find_all(pattern: &str, text: &str) -> (found: Result<Vec<String>, regex::Error>)
    ensures
        found is Ok <==> pattern_compiles(pattern@),
        found matches Ok(list) ==> texts(list@) == pattern_matches(pattern@, text@),
{
    let re = Regex::new(pattern)?;
    Ok(re.captures_iter(text).map(|caps| caps.get(0).unwrap().as_str().to_string()).collect())
}

/// `Regex::new`, then `Regex::replace_all` on what it compiled: `text` with
/// every match of the pattern replaced by `with`. The call fails exactly
/// where `Regex::new` refuses the pattern.
#[verifier::external_body]
fn replace_all(pattern: &str, text: &str, with: &str) -> (replaced: Result<String, regex::Error>)
    ensures
        replaced is Ok <==> pattern_compiles(pattern@),
        replaced matches Ok(new_text) ==> new_text@ == pattern_replaced(pattern@, text@, with@),
{
    let re = Regex::new(pattern)?;
    Ok(re.replace_all(text, with).into_owned())
}

/// The views of some texts.
pub open spec fn texts(list: Seq<String>) -> Seq<Seq<char>> {
    Seq::new(list.len(), |i: int| list[i]@)
}

/// Whether `text` holds `part` from place `i` on.
pub open spec fn occurs_at(text: Seq<char>, part: Seq<char>, i: int) -> bool {
    0 <= i && i + part.len() <= text.len() && text.subrange(i, i + part.len()) == part
}

/// The first place from `from` on at which `text` holds `part`, or the
/// length of `text` plus one where there is none.
pub open spec fn first_from(text: Seq<char>, part: Seq<char>, from: int) -> int
    decreases text.len() - from,
{
    if from < 0 || from > text.len() {
        (text.len() + 1) as int
    } else if occurs_at(text, part, from) {
        from
    } else if from == text.len() {
        (text.len() + 1) as int
    } else {
        first_from(text, part, from + 1)
    }
}

/// `text` with the first `part` in it replaced by `with`; `text` itself
/// where it holds no `part`.
pub open spec fn replaced_first(text: Seq<char>, part: Seq<char>, with: Seq<char>) -> Seq<char> {
    let i = first_from(text, part, 0);
    if i <= text.len() {
        text.subrange(0, i) + with + text.subrange(i + part.len(), text.len() as int)
    } else {
        text
    }
}

/// An inner list on one line: `- - ` opens it as `- [`, each break before
/// a further item becomes a comma, and `]` closes it.
pub open spec fn inlined(found: Seq<char>) -> Seq<char> {
    pattern_replaced(ITEM_PATTERN@, replaced_first(found, "- - "@, "- ["@), ","@).push(']')
}

/// `out` after each of the `found` lists, in turn, was replaced by its one
/// line where it first stands.
pub open spec fn folded(out: Seq<char>, found: Seq<Seq<char>>) -> Seq<char>
    decreases found.len(),
{
    if found.len() == 0 {
        out
    } else {
        folded(replaced_first(out, found[0], inlined(found[0])), found.drop_first())
    }
}

/// The text, ended by `\n`, with its inner lists each on one line.
pub open spec fn prettified(text: Seq<char>) -> Seq<char> {
    folded(text.push('\n'), pattern_matches(LIST_PATTERN@, text.push('\n')))
}

/// Whether `text` holds `part` from place `i` on.
fn holds_at(text: &Vec<char>, part: &Vec<char>, i: usize) -> (yes: bool)
    ensures
        yes == occurs_at(text@, part@, i as int),
{
    if part.len() > text.len() || i > text.len() - part.len() {
        return false;
    }
    let mut k: usize = 0;
    while k < part.len()
        invariant
            k <= part.len(),
            i + part.len() <= text.len(),
            forall|j: int| 0 <= j < k ==> text@[i + j] == part@[j],
        decreases part.len() - k,
    {
        if text[i + k] != part[k] {
            return false;
        }
        k += 1;
    }
    assert(text@.subrange(i as int, i + part.len()) =~= part@);
    true
}

/// Replaces the first `part` in `text` by `with`.
pub fn replace_first(text: &Vec<char>, part: &Vec<char>, with: &Vec<char>) -> (out: Vec<char>)
    ensures
        out@ == replaced_first(text@, part@, with@),
{
    let n = text.len();
    let mut i: usize = 0;
    let mut found = false;
    while i <= n
        invariant_except_break
            i <= n == text@.len(),
            !found,
            first_from(text@, part@, 0) == first_from(text@, part@, i as int),
        ensures
            i <= n == text@.len(),
            found ==> occurs_at(text@, part@, i as int) && first_from(text@, part@, 0) == i,
            !found ==> first_from(text@, part@, 0) > n,
        decreases n - i,
    {
        if holds_at(text, part, i) {
            found = true;
            break ;
        }
        if i == n {
            break ;
        }
        i += 1;
    }
    let mut out: Vec<char> = Vec::new();
    if found {
        let mut k: usize = 0;
        while k < i
            invariant
                k <= i <= n == text@.len(),
                out@ == text@.subrange(0, k as int),
            decreases i - k,
        {
            out.push(text[k]);
            k += 1;
        }
        extend(&mut out, with);
        let mut k: usize = i + part.len();
        let ghost head = out@;
        while k < n
            invariant
                i + part.len() <= k <= n == text@.len(),
                out@ == head + text@.subrange(i + part.len(), k as int),
            decreases n - k,
        {
            out.push(text[k]);
            k += 1;
        }
        out
    } else {
        extend(&mut out, text);
        out
    }
}

/// Writes one inner list, as it was found, on one line. The call fails
/// exactly where `regex` refuses `ITEM_PATTERN`.
fn inline_list(found: &Vec<char>) -> (line: Result<Vec<char>, PrettifyError>)
    ensures
        match line {
            Ok(chars) => pattern_compiles(ITEM_PATTERN@) && chars@ == inlined(found@),
            Err(e) => !pattern_compiles(ITEM_PATTERN@) && e == PrettifyError::Pattern,
        },
{
    let opened = replace_first(found, &to_chars("- - "), &to_chars("- ["));
    match replace_all(ITEM_PATTERN, to_text(&opened).as_str(), ",") {
        Ok(joined) => {
            let mut line = to_chars(joined.as_str());
            line.push(']');
            Ok(line)
        },
        Err(_) => Err(PrettifyError::Pattern),
    }
}

/// Replaces each of the `found` lists, in turn, by its one line where it
/// first stands in `out`.
///
/// With no list to replace, `out` comes back as it is. Else the call
/// succeeds exactly where `regex` takes `ITEM_PATTERN`.
pub fn fold_lists(out: Vec<char>, found: &Vec<String>) -> (pretty: Result<Vec<char>, PrettifyError>)
    ensures
        pretty is Ok <==> found@.len() == 0 || pattern_compiles(ITEM_PATTERN@),
        pretty matches Ok(text) ==> text@ == folded(out@, texts(found@)),
        pretty matches Err(e) ==> e == PrettifyError::Pattern,
{
    let mut pretty = out;
    let mut i: usize = 0;
    assert(texts(found@).subrange(0, found@.len() as int) =~= texts(found@));
    while i < found.len()
        invariant
            i <= found.len(),
            i > 0 ==> pattern_compiles(ITEM_PATTERN@),
            folded(pretty@, texts(found@).subrange(i as int, found@.len() as int)) == folded(
                out@,
                texts(found@),
            ),
        decreases found.len() - i,
    {
        let ghost rest = texts(found@).subrange(i as int, found@.len() as int);
        assert(rest.drop_first() =~= texts(found@).subrange(i + 1, found@.len() as int));
        let before = to_chars(found[i].as_str());
        let after = match inline_list(&before) {
            Ok(line) => line,
            Err(e) => {
                return Err(e);
            },
        };
        pretty = replace_first(&pretty, &before, &after);
        i += 1;
    }
    Ok(pretty)
}

/// Makes the YAML of a game easier to read: the text is ended by `\n`, and
/// each inner list that `LIST_PATTERN` finds in it is written on one line.
///
/// The call succeeds exactly where `regex` takes `LIST_PATTERN` and, if
/// there is an inner list to write, `ITEM_PATTERN` too.
pub fn prettify(s: &str) -> (pretty: Result<String, PrettifyError>)
    ensures
        pretty is Ok <==> pattern_compiles(LIST_PATTERN@) && (pattern_matches(
            LIST_PATTERN@,
            s@.push('\n'),
        ).len() == 0 || pattern_compiles(ITEM_PATTERN@)),
        pretty matches Ok(text) ==> text@ == prettified(s@),
        pretty matches Err(e) ==> e == PrettifyError::Pattern,
{
    let mut ended = to_chars(s);
    ended.push('\n');
    let found = find_all(LIST_PATTERN, to_text(&ended).as_str());
    prettify_with(found, s)
}

/// Makes the text pretty, given what the search for inner lists in the
/// text, ended by `\n`, came back with.
///
/// Where the search failed, the call fails. Else the lists that were found
/// are written on one line each, which succeeds exactly where there is no
/// list or `regex` takes `ITEM_PATTERN`.
pub fn prettify_with(found: Result<Vec<String>, regex::Error>, s: &str) -> (pretty: Result<
    String,
    PrettifyError,
>)
    ensures
        pretty is Ok <==> (found matches Ok(list) && (list@.len() == 0 || pattern_compiles(
            ITEM_PATTERN@,
        ))),
        pretty matches Ok(text) ==> (found matches Ok(list) && text@ == folded(
            s@.push('\n'),
            texts(list@),
        )),
        pretty matches Err(e) ==> e == PrettifyError::Pattern,
{
    let list = match found {
        Ok(list) => list,
        Err(_) => {
            return Err(PrettifyError::Pattern);
        },
    };
    let mut out = to_chars(s);
    out.push('\n');
    match fold_lists(out, &list) {
        Ok(pretty) => Ok(to_text(&pretty)),
        Err(e) => Err(e),
    }
}

} // verus!
