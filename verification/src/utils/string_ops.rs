//! Putting blocks of text side by side and one above the other.
//!
//! A block is a text of several lines. Its lines are those of `str::lines`:
//! they end at a `\n`, a `\r` just before that `\n` is dropped, and a last
//! line needs no `\n`. A line is as wide as its UTF-8 encoding is long, and
//! narrower lines are filled up with spaces.

use vstd::prelude::*;

verus! {

/// Specification of `String::push`: the character is appended.
pub assume_specification[ String::push ](s: &mut String, c: char)
    ensures
        final(s)@ == old(s)@.push(c),
;

/// The number of bytes that a character takes in UTF-8.
pub open spec fn char_width(c: char) -> nat {
    if (c as u32) < 0x80 {
        1
    } else if (c as u32) < 0x800 {
        2
    } else if (c as u32) < 0x10000 {
        3
    } else {
        4
    }
}

/// The width of a line: the number of bytes that it takes in UTF-8.
pub open spec fn line_width(line: Seq<char>) -> nat
    decreases line.len(),
{
    if line.len() == 0 {
        0
    } else {
        line_width(line.drop_last()) + char_width(line.last())
    }
}

/// The first place from `from` on at which `s` has a `\n`, or the length of
/// `s` where there is none.
pub open spec fn newline_at(s: Seq<char>, from: int) -> int
    decreases s.len() - from,
{
    if from >= s.len() {
        s.len() as int
    } else if from >= 0 && s[from] == '\n' {
        from
    } else {
        newline_at(s, from + 1)
    }
}

/// A line without the `\r` at its end, if it has one.
pub open spec fn strip_cr(line: Seq<char>) -> Seq<char> {
    if line.len() > 0 && line.last() == '\r' {
        line.drop_last()
    } else {
        line
    }
}

/// The lines of a text, as `str::lines` gives them.
pub open spec fn lines(s: Seq<char>) -> Seq<Seq<char>>
    decreases s.len(),
{
    if s.len() == 0 {
        Seq::empty()
    } else {
        let end = newline_at(s, 0);
        if 0 <= end < s.len() {
            seq![strip_cr(s.subrange(0, end))] + lines(s.subrange(end + 1, s.len() as int))
        } else {
            seq![s]
        }
    }
}

/// The width of the widest of some lines.
pub open spec fn max_width(ls: Seq<Seq<char>>) -> nat
    decreases ls.len(),
{
    if ls.len() == 0 {
        0
    } else if max_width(ls.drop_last()) >= line_width(ls.last()) {
        max_width(ls.drop_last())
    } else {
        line_width(ls.last())
    }
}

/// `n` times the character `c`.
pub open spec fn repeated(c: char, n: nat) -> Seq<char> {
    Seq::new(n, |i: int| c)
}

/// Some rows, one after the other.
pub open spec fn joined(rows: Seq<Seq<char>>) -> Seq<char>
    decreases rows.len(),
{
    if rows.len() == 0 {
        Seq::empty()
    } else {
        joined(rows.drop_last()) + rows.last()
    }
}

/// A line filled up with spaces to `width`, and ended.
pub open spec fn padded(line: Seq<char>, width: nat) -> Seq<char> {
    line + repeated(' ', (width - line_width(line)) as nat) + seq!['\n']
}

/// The text with each line filled up to `width` and ended by `\n`.
pub open spec fn padded_lines(s: Seq<char>, width: nat) -> Seq<char> {
    joined(Seq::new(lines(s).len(), |i: int| padded(lines(s)[i], width)))
}

/// The text with `count` blank lines of `width` spaces below it.
pub open spec fn with_blank_lines(s: Seq<char>, width: nat, count: nat) -> Seq<char> {
    s + joined(Seq::new(count, |i: int| repeated(' ', width) + seq!['\n']))
}

/// The lines of `a`, each followed by the line of `b` at the same place and
/// ended by `\n`, as far as both have lines.
pub open spec fn side_by_side(a: Seq<char>, b: Seq<char>) -> Seq<char> {
    joined(
        Seq::new(
            if lines(a).len() <= lines(b).len() {
                lines(a).len()
            } else {
                lines(b).len()
            },
            |i: int| lines(a)[i] + lines(b)[i] + seq!['\n'],
        ),
    )
}

/// The text without its last character, if it has one.
pub open spec fn without_last_char(s: Seq<char>) -> Seq<char> {
    if s.len() > 0 {
        s.drop_last()
    } else {
        s
    }
}

/// A block made as high as `height` lines and as wide as its widest line.
pub open spec fn squared(s: Seq<char>, height: nat) -> Seq<char> {
    with_blank_lines(
        padded_lines(s, max_width(lines(s))),
        max_width(lines(s)),
        (height - lines(s).len()) as nat,
    )
}

/// Block `b` to the right of block `a`: each block is ended by `\n`, made
/// as high as the higher of the two and as wide as its widest line; then
/// the lines are put side by side. The `\n` at the very end is left out.
pub open spec fn horizontal(a: Seq<char>, b: Seq<char>) -> Seq<char> {
    let ended_a = a.push('\n');
    let ended_b = b.push('\n');
    let height = if lines(ended_a).len() >= lines(ended_b).len() {
        lines(ended_a).len()
    } else {
        lines(ended_b).len()
    };
    without_last_char(side_by_side(squared(ended_a, height), squared(ended_b, height)))
}

/// Block `b` below block `a`: an empty block leaves the other as it is;
/// else the lines of both are filled up to the widest line of either, and
/// the `\n` at the very end is left out.
pub open spec fn vertical(a: Seq<char>, b: Seq<char>) -> Seq<char> {
    if a.len() == 0 {
        b
    } else if b.len() == 0 {
        a
    } else {
        let width = if max_width(lines(a)) >= max_width(lines(b)) {
            max_width(lines(a))
        } else {
            max_width(lines(b))
        };
        without_last_char(padded_lines(a, width) + padded_lines(b, width))
    }
}

/// Where a text has no `\n` between `from` and `end`, and ends or has a
/// `\n` at `end`, the first `\n` from `from` on is at `end`.
proof fn lemma_newline_at(s: Seq<char>, from: int, end: int)
    requires
        0 <= from <= end <= s.len(),
        forall|j: int| from <= j < end ==> s[j] != '\n',
        end == s.len() || s[end] == '\n',
    ensures
        newline_at(s, from) == end,
    decreases end - from,
{
    if from < end {
        lemma_newline_at(s, from + 1, end);
    }
}

/// Joining one more row appends it.
proof fn lemma_joined_push(rows: Seq<Seq<char>>, row: Seq<char>)
    ensures
        joined(rows.push(row)) == joined(rows) + row,
{
    assert(rows.push(row).drop_last() =~= rows);
}

/// The characters of a text.
pub(crate) fn to_chars(s: &str) -> (chars: Vec<char>)
    ensures
        chars@ == s@,
{
    let mut chars: Vec<char> = Vec::new();
    for c in it: s.chars()
        invariant
            chars@ == it.seq().take(it.index()),
            it.seq() == s@,
    {
        chars.push(c);
    }
    chars
}

/// The text that some characters make.
pub(crate) fn to_text(chars: &Vec<char>) -> (s: String)
    ensures
        s@ == chars@,
{
    let mut s = String::new();
    let mut i: usize = 0;
    while i < chars.len()
        invariant
            i <= chars.len(),
            s@ == chars@.subrange(0, i as int),
        decreases chars.len() - i,
    {
        s.push(chars[i]);
        i += 1;
    }
    s
}

/// The views of some lines.
pub open spec fn line_views(ls: Seq<Vec<char>>) -> Seq<Seq<char>> {
    Seq::new(ls.len(), |i: int| ls[i]@)
}

/// Splits a text into its lines.
fn split_lines(s: &Vec<char>) -> (ls: Vec<Vec<char>>)
    ensures
        line_views(ls@) == lines(s@),
{
    let n = s.len();
    let mut ls: Vec<Vec<char>> = Vec::new();
    let mut cur: Vec<char> = Vec::new();
    let mut start: usize = 0;
    let mut i: usize = 0;
    assert(s@.subrange(0, n as int) =~= s@);
    while i < n
        invariant
            start <= i <= n == s@.len(),
            cur@ == s@.subrange(start as int, i as int),
            forall|j: int| start <= j < i ==> s@[j] != '\n',
            line_views(ls@) + lines(s@.subrange(start as int, n as int)) == lines(s@),
        decreases n - i,
    {
        let c = s[i];
        if c == '\n' {
            let ghost rest = s@.subrange(start as int, n as int);
            proof {
                lemma_newline_at(rest, 0, i - start);
                assert(rest.subrange(0, i - start) =~= cur@);
                assert(rest.subrange(i - start + 1, rest.len() as int) =~= s@.subrange(
                    i + 1,
                    n as int,
                ));
            }
            if cur.len() > 0 && cur[cur.len() - 1] == '\r' {
                cur.pop();
            }
            ls.push(cur);
            cur = Vec::new();
            start = i + 1;
        } else {
            cur.push(c);
        }
        i += 1;
    }
    let ghost rest = s@.subrange(start as int, n as int);
    if cur.len() > 0 {
        proof {
            lemma_newline_at(rest, 0, n - start);
        }
        ls.push(cur);
    }
    ls
}

/// No line is wider than the widest.
proof fn lemma_max_width(ls: Seq<Seq<char>>, i: int)
    requires
        0 <= i < ls.len(),
    ensures
        line_width(ls[i]) <= max_width(ls),
    decreases ls.len(),
{
    if i < ls.len() - 1 {
        lemma_max_width(ls.drop_last(), i);
    }
}

/// The number of bytes that a character takes in UTF-8.
fn utf8_len(c: char) -> (w: u128)
    ensures
        w == char_width(c),
        1 <= w <= 4,
{
    let v = c as u32;
    if v < 0x80 {
        1
    } else if v < 0x800 {
        2
    } else if v < 0x10000 {
        3
    } else {
        4
    }
}

/// The width of a line. It is counted in 128 bits, which four bytes for
/// each character of a vector cannot exceed.
fn width_of(line: &Vec<char>) -> (w: u128)
    ensures
        w == line_width(line@),
{
    let mut w: u128 = 0;
    let mut i: usize = 0;
    while i < line.len()
        invariant
            i <= line.len(),
            w == line_width(line@.subrange(0, i as int)),
            w <= 4 * i,
        decreases line.len() - i,
    {
        assert(line@.subrange(0, i + 1).drop_last() =~= line@.subrange(0, i as int));
        w = w + utf8_len(line[i]);
        i += 1;
    }
    assert(line@.subrange(0, i as int) =~= line@);
    w
}

/// The width of the widest line of a text, and the number of its lines.
fn line_dimensions(s: &Vec<char>) -> (dimensions: (u128, usize))
    ensures
        dimensions.0 == max_width(lines(s@)),
        dimensions.1 == lines(s@).len(),
{
    let ls = split_lines(s);
    let mut widest: u128 = 0;
    let mut i: usize = 0;
    while i < ls.len()
        invariant
            i <= ls.len(),
            line_views(ls@) == lines(s@),
            widest == max_width(lines(s@).subrange(0, i as int)),
        decreases ls.len() - i,
    {
        assert(lines(s@).subrange(0, i + 1).drop_last() =~= lines(s@).subrange(0, i as int));
        let w = width_of(&ls[i]);
        if w > widest {
            widest = w;
        }
        i += 1;
    }
    assert(lines(s@).subrange(0, i as int) =~= lines(s@));
    (widest, ls.len())
}

/// `n` times the character `c`.
fn repeat(c: char, n: u128) -> (chars: Vec<char>)
    ensures
        chars@ == repeated(c, n as nat),
{
    let mut chars: Vec<char> = Vec::new();
    let mut i: u128 = 0;
    while i < n
        invariant
            i <= n,
            chars@ == repeated(c, i as nat),
        decreases n - i,
    {
        chars.push(c);
        i += 1;
    }
    chars
}

/// Appends the characters of `more` to `text`.
pub(crate) fn extend(text: &mut Vec<char>, more: &Vec<char>)
    ensures
        final(text)@ == old(text)@ + more@,
{
    let mut i: usize = 0;
    while i < more.len()
        invariant
            i <= more.len(),
            text@ == old(text)@ + more@.subrange(0, i as int),
        decreases more.len() - i,
    {
        text.push(more[i]);
        i += 1;
    }
}

/// Fills each line of the text and the blank lines below it.
fn pad(s: &Vec<char>, width: u128, cur_height: usize, height: usize) -> (text: Vec<char>)
    requires
        max_width(lines(s@)) <= width,
        cur_height <= height,
    ensures
        text@ == with_blank_lines(
            padded_lines(s@, width as nat),
            width as nat,
            (height - cur_height) as nat,
        ),
{
    let s_pad = pad_h(s, width);
    pad_v(&s_pad, width, cur_height, height)
}

/// Fills each line of the text up to `width` and ends it with `\n`.
fn pad_h(s: &Vec<char>, width: u128) -> (text: Vec<char>)
    requires
        max_width(lines(s@)) <= width,
    ensures
        text@ == padded_lines(s@, width as nat),
{
    let ls = split_lines(s);
    let mut text: Vec<char> = Vec::new();
    let mut i: usize = 0;
    let ghost rows = Seq::new(lines(s@).len(), |k: int| padded(lines(s@)[k], width as nat));
    while i < ls.len()
        invariant
            i <= ls.len(),
            line_views(ls@) == lines(s@),
            max_width(lines(s@)) <= width,
            rows == Seq::new(lines(s@).len(), |k: int| padded(lines(s@)[k], width as nat)),
            text@ == joined(rows.subrange(0, i as int)),
        decreases ls.len() - i,
    {
        proof {
            lemma_max_width(lines(s@), i as int);
            lemma_joined_push(rows.subrange(0, i as int), rows[i as int]);
            assert(rows.subrange(0, i as int).push(rows[i as int]) =~= rows.subrange(0, i + 1));
        }
        let w = width_of(&ls[i]);
        let fill = repeat(' ', width - w);
        extend(&mut text, &ls[i]);
        extend(&mut text, &fill);
        text.push('\n');
        i += 1;
    }
    assert(rows.subrange(0, i as int) =~= rows);
    text
}

/// Puts blank lines of `width` spaces below the text until it has `height`
/// lines.
fn pad_v(s: &Vec<char>, width: u128, cur_height: usize, height: usize) -> (text: Vec<char>)
    requires
        cur_height <= height,
    ensures
        text@ == with_blank_lines(s@, width as nat, (height - cur_height) as nat),
{
    let mut text: Vec<char> = Vec::new();
    extend(&mut text, s);
    let blank = repeat(' ', width);
    let count = height - cur_height;
    let mut i: usize = 0;
    let ghost rows = Seq::new(count as nat, |k: int| repeated(' ', width as nat) + seq!['\n']);
    while i < count
        invariant
            i <= count,
            blank@ == repeated(' ', width as nat),
            rows == Seq::new(count as nat, |k: int| repeated(' ', width as nat) + seq!['\n']),
            text@ == s@ + joined(rows.subrange(0, i as int)),
        decreases count - i,
    {
        proof {
            lemma_joined_push(rows.subrange(0, i as int), rows[i as int]);
            assert(rows.subrange(0, i as int).push(rows[i as int]) =~= rows.subrange(0, i + 1));
        }
        extend(&mut text, &blank);
        text.push('\n');
        i += 1;
    }
    assert(rows.subrange(0, i as int) =~= rows);
    text
}

/// Puts the lines of two texts side by side, as far as both have lines.
fn concat_horizontal(a: &Vec<char>, b: &Vec<char>) -> (text: Vec<char>)
    ensures
        text@ == side_by_side(a@, b@),
{
    let la = split_lines(a);
    let lb = split_lines(b);
    let count = if la.len() <= lb.len() {
        la.len()
    } else {
        lb.len()
    };
    let mut text: Vec<char> = Vec::new();
    let mut i: usize = 0;
    let ghost rows = Seq::new(
        count as nat,
        |k: int| lines(a@)[k] + lines(b@)[k] + seq!['\n'],
    );
    while i < count
        invariant
            i <= count,
            count <= la.len(),
            count <= lb.len(),
            line_views(la@) == lines(a@),
            line_views(lb@) == lines(b@),
            rows == Seq::new(count as nat, |k: int| lines(a@)[k] + lines(b@)[k] + seq!['\n']),
            text@ == joined(rows.subrange(0, i as int)),
        decreases count - i,
    {
        proof {
            lemma_joined_push(rows.subrange(0, i as int), rows[i as int]);
            assert(rows.subrange(0, i as int).push(rows[i as int]) =~= rows.subrange(0, i + 1));
        }
        extend(&mut text, &la[i]);
        extend(&mut text, &lb[i]);
        text.push('\n');
        i += 1;
    }
    assert(rows.subrange(0, i as int) =~= rows);
    text
}

/// Puts block `b` to the right of block `a`.
///
/// Each block is made as high as the higher of the two and as wide as its
/// widest line, with spaces; the result has no `\n` at its end.
pub fn append_horizontal(a: &str, b: &str) -> (res: String)
    ensures
        res@ == horizontal(a@, b@),
{
    // Ends each block with a newline, so that each line ends in one.
    let mut pad_a = to_chars(a);
    pad_a.push('\n');
    let mut pad_b = to_chars(b);
    pad_b.push('\n');

    let (a_width, a_height) = line_dimensions(&pad_a);
    let (b_width, b_height) = line_dimensions(&pad_b);
    let max_height = if a_height >= b_height {
        a_height
    } else {
        b_height
    };

    let pad_a = pad(&pad_a, a_width, a_height, max_height);
    let pad_b = pad(&pad_b, b_width, b_height, max_height);

    let mut res = concat_horizontal(&pad_a, &pad_b);
    res.pop();  // removes '\n'
    to_text(&res)
}

/// Puts block `b` below block `a`.
///
/// An empty block leaves the other as it is. Else the lines of both are
/// filled with spaces up to the widest line of either; the result has no
/// `\n` at its end.
pub fn append_vertical(a: &str, b: &str) -> (res: String)
    ensures
        res@ == vertical(a@, b@),
{
    let a_chars = to_chars(a);
    let b_chars = to_chars(b);
    if a_chars.len() == 0 {
        to_text(&b_chars)
    } else if b_chars.len() == 0 {
        to_text(&a_chars)
    } else {
        let (a_width, _) = line_dimensions(&a_chars);
        let (b_width, _) = line_dimensions(&b_chars);
        let max_width = if a_width >= b_width {
            a_width
        } else {
            b_width
        };

        let pad_a = pad_h(&a_chars, max_width);
        let pad_b = pad_h(&b_chars, max_width);

        let mut res = pad_a;
        extend(&mut res, &pad_b);
        res.pop();
        to_text(&res)
    }
}

} // verus!
