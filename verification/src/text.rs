//! Text: numbers in decimal, padded columns, lines, trimming and search.
//!
//! A string is modelled by the sequence of its characters.
use std::str::Chars;

use vstd::prelude::*;
use vstd::std_specs::iter::IteratorSpec;
use vstd::string::StringExecFns;

use crate::order::{place, Placement};

verus! {

/// `String::push` adds one character at the end of the string.
pub assume_specification[ String::push ](s: &mut String, c: char)
    ensures
        final(s)@ == old(s)@.push(c),
;

/// What `{:?}` prints for a string: the string in double quotes, with escapes.
pub uninterp spec fn debug_text(s: Seq<char>) -> Seq<char>;

/// The `Debug` formatting of `str`, which depends on the string alone. Which
/// characters it escapes, and how, is left unsaid.
#[verifier::external_body]
pub(crate) fn debug(s: &str) -> (text: String)
    ensures
        text@ == debug_text(s@),
{
    format!("{:?}", s)
}

/// The texts of a list of strings.
pub open spec fn texts(list: Seq<String>) -> Seq<Seq<char>> {
    list.map_values(|s: String| s@)
}

/// The text of a string that may be absent.
pub open spec fn optional_text(s: Option<String>) -> Option<Seq<char>> {
    match s {
        Some(s) => Some(s@),
        None => None,
    }
}

/// The text of a borrowed string that may be absent.
pub open spec fn optional_str(s: Option<&str>) -> Option<Seq<char>> {
    match s {
        Some(s) => Some(s@),
        None => None,
    }
}

/// The text, or the empty text where there is none.
pub open spec fn text_or_empty(s: Option<Seq<char>>) -> Seq<char> {
    match s {
        Some(s) => s,
        None => seq![],
    }
}

// ---------------------------------------------------------------------------
// Characters
// ---------------------------------------------------------------------------

/// The characters of a string, for code that reaches them by index.
pub fn characters(s: &str) -> (chars: Vec<char>)
    ensures
        chars@ == s@,
{
    let mut chars: Vec<char> = Vec::new();
    let mut rest: Chars<'_> = s.chars();
    loop
        invariant
            s@ == chars@ + rest.remaining(),
            rest.obeys_prophetic_iter_laws(),
            rest.decrease() is Some,
        ensures
            s@ == chars@,
        decreases rest.decrease()->0,
    {
        let ghost before = rest.remaining();
        match rest.next() {
            Some(c) => {
                chars.push(c);
                assert(before =~= seq![c] + rest.remaining());
            },
            None => {
                break;
            },
        }
    }
    chars
}

/// The string made of the characters from index `from` up to, not including, `to`.
pub fn string_from(chars: &Vec<char>, from: usize, to: usize) -> (s: String)
    requires
        from <= to <= chars@.len(),
    ensures
        s@ == chars@.subrange(from as int, to as int),
{
    let mut s: String = String::new();
    let mut i: usize = from;
    while i < to
        invariant
            from <= i <= to <= chars@.len(),
            s@ == chars@.subrange(from as int, i as int),
        decreases to - i,
    {
        s.push(chars[i]);
        i = i + 1;
    }
    s
}

/// Two strings have the same text.
pub fn same_text(a: &str, b: &str) -> (same: bool)
    ensures
        same == (a@ == b@),
{
    match place(a, b) {
        Placement::Same => true,
        Placement::Before => {
            proof {
                crate::order::law_order_is_strict(a@, b@);
            }
            false
        },
        Placement::After => {
            proof {
                crate::order::law_order_is_strict(b@, a@);
            }
            false
        },
    }
}

/// Two strings, each of which may be absent, are both absent or have the same text.
pub fn same_optional_text(a: &Option<String>, b: &Option<String>) -> (same: bool)
    ensures
        same == (optional_text(*a) == optional_text(*b)),
{
    match (a, b) {
        (Some(a), Some(b)) => same_text(a.as_str(), b.as_str()),
        (None, None) => true,
        _ => false,
    }
}

// ---------------------------------------------------------------------------
// Lists
// ---------------------------------------------------------------------------

/// Copies a list of strings.
pub fn copied(list: &Vec<String>) -> (copy: Vec<String>)
    ensures
        texts(copy@) == texts(list@),
        copy@.len() == list@.len(),
        forall|i: int| 0 <= i < list@.len() ==> (#[trigger] copy@[i])@ == list@[i]@,
{
    first_of(list, list.len())
}

/// Copies the first strings of a list.
pub fn first_of(list: &Vec<String>, n: usize) -> (copy: Vec<String>)
    requires
        n <= list@.len(),
    ensures
        texts(copy@) == texts(list@).take(n as int),
        copy@.len() == n,
        forall|i: int| 0 <= i < n ==> (#[trigger] copy@[i])@ == list@[i]@,
{
    let mut copy: Vec<String> = Vec::new();
    let mut i: usize = 0;
    while i < n
        invariant
            i <= n <= list@.len(),
            copy@.len() == i,
            texts(copy@) == texts(list@).take(i as int),
            forall|j: int| 0 <= j < i ==> (#[trigger] copy@[j])@ == list@[j]@,
        decreases n - i,
    {
        let ghost before = texts(copy@);
        copy.push(list[i].clone());
        assert(texts(copy@) =~= before.push(list@[i as int]@));
        assert(texts(list@).take(i + 1) =~= texts(list@).take(i as int).push(list@[i as int]@));
        i = i + 1;
    }
    copy
}

/// Adds a line to a list of lines.
pub fn add_line(list: &mut Vec<String>, line: String)
    ensures
        texts(final(list)@) == texts(old(list)@).push(line@),
{
    let ghost before = texts(list@);
    list.push(line);
    assert(texts(list@) =~= before.push(line@));
}

// ---------------------------------------------------------------------------
// Numbers
// ---------------------------------------------------------------------------

/// The character for a digit below ten.
pub open spec fn digit(d: nat) -> char {
    ('0' as int + d) as char
}

/// A number in decimal notation, without leading zeros.
pub open spec fn decimal(n: nat) -> Seq<char>
    decreases n,
{
    if n < 10 {
        seq![digit(n)]
    } else {
        decimal(n / 10).push(digit(n % 10))
    }
}

/// A signed number in decimal notation: a minus sign in front of a negative one.
pub open spec fn signed_decimal(i: int) -> Seq<char> {
    if i < 0 {
        seq!['-'] + decimal((-i) as nat)
    } else {
        decimal(i as nat)
    }
}

/// Writes a number in decimal.
pub fn decimal_string(n: u128) -> (s: String)
    ensures
        s@ == decimal(n as nat),
    decreases n,
{
    if n < 10 {
        let mut s: String = String::new();
        s.push((48u8 + n as u8) as char);
        assert(s@ =~= seq![digit(n as nat)]);
        s
    } else {
        let mut s: String = decimal_string(n / 10);
        s.push((48u8 + (n % 10) as u8) as char);
        s
    }
}

/// Writes a length or a count in decimal.
pub fn count_string(n: usize) -> (s: String)
    ensures
        s@ == decimal(n as nat),
{
    decimal_string(n as u128)
}

/// Writes a signed number in decimal.
pub fn signed_decimal_string(i: i128) -> (s: String)
    ensures
        s@ == signed_decimal(i as int),
{
    if i < 0 {
        let magnitude: u128 = (-(i + 1)) as u128 + 1;
        let mut s: String = String::new();
        s.push('-');
        s.append(decimal_string(magnitude).as_str());
        assert(s@ =~= seq!['-'] + decimal((-i) as nat));
        s
    } else {
        decimal_string(i as u128)
    }
}

// ---------------------------------------------------------------------------
// Columns
// ---------------------------------------------------------------------------

/// One character, `n` times.
pub open spec fn repeated(c: char, n: nat) -> Seq<char> {
    Seq::new(n, |i: int| c)
}

/// How many columns are missing to `width`.
pub open spec fn missing(s: Seq<char>, width: nat) -> nat {
    if s.len() < width {
        (width - s.len()) as nat
    } else {
        0
    }
}

/// The text at the left of a column of the given width; a longer text is kept whole.
pub open spec fn left_aligned(s: Seq<char>, width: nat) -> Seq<char> {
    s + repeated(' ', missing(s, width))
}

/// The text at the right of a column of the given width; a longer text is kept whole.
pub open spec fn right_aligned(s: Seq<char>, width: nat) -> Seq<char> {
    repeated(' ', missing(s, width)) + s
}

/// One character, `n` times.
pub fn repeat(c: char, n: usize) -> (s: String)
    ensures
        s@ == repeated(c, n as nat),
{
    let mut s: String = String::new();
    let mut i: usize = 0;
    while i < n
        invariant
            i <= n,
            s@ == repeated(c, i as nat),
        decreases n - i,
    {
        s.push(c);
        i = i + 1;
    }
    s
}

/// The spaces that fill a column of the given width beside the text.
fn padding(s: &str, width: usize) -> (spaces: String)
    ensures
        spaces@ == repeated(' ', missing(s@, width as nat)),
{
    let len: usize = characters(s).len();
    if len < width {
        repeat(' ', width - len)
    } else {
        repeat(' ', 0)
    }
}

/// Aligns the text at the left of a column.
pub fn align_left(s: &str, width: usize) -> (column: String)
    ensures
        column@ == left_aligned(s@, width as nat),
{
    let mut column: String = String::from_str(s);
    column.append(padding(s, width).as_str());
    column
}

/// Aligns the text at the right of a column.
pub fn align_right(s: &str, width: usize) -> (column: String)
    ensures
        column@ == right_aligned(s@, width as nat),
{
    let mut column: String = padding(s, width);
    column.append(s);
    column
}

// ---------------------------------------------------------------------------
// Lines
// ---------------------------------------------------------------------------

/// The index of the first line feed, or the length of the text if it has none.
pub open spec fn first_line_feed(s: Seq<char>) -> nat
    decreases s.len(),
{
    if s.len() == 0 || s[0] == '\n' {
        0
    } else {
        1 + first_line_feed(s.drop_first())
    }
}

/// The text without one carriage return at its end.
pub open spec fn without_carriage_return(s: Seq<char>) -> Seq<char> {
    if s.len() > 0 && s.last() == '\r' {
        s.drop_last()
    } else {
        s
    }
}

/// The lines of a text. A line ends in a line feed, or in a carriage return and a
/// line feed, which are not part of it; the end of the last line is optional.
pub open spec fn lines(s: Seq<char>) -> Seq<Seq<char>>
    decreases s.len(),
{
    let end = first_line_feed(s);
    if s.len() == 0 {
        seq![]
    } else if end >= s.len() {
        seq![s]
    } else {
        seq![without_carriage_return(s.take(end as int))] + lines(s.skip(end as int + 1))
    }
}

proof fn lemma_first_line_feed(head: Seq<char>, tail: Seq<char>)
    requires
        !head.contains('\n'),
        tail.len() == 0 || tail[0] == '\n',
    ensures
        first_line_feed(head + tail) == head.len(),
    decreases head.len(),
{
    let s = head + tail;
    if head.len() > 0 {
        assert(head.contains(head[0]));
        assert(s.drop_first() =~= head.drop_first() + tail);
        assert forall|c: char| head.drop_first().contains(c) implies head.contains(c) by {
            let i = choose|i: int| 0 <= i < head.drop_first().len() && head.drop_first()[i] == c;
            assert(head[i + 1] == c);
        }
        lemma_first_line_feed(head.drop_first(), tail);
    }
}

proof fn lemma_lines_next(head: Seq<char>, rest: Seq<char>)
    requires
        !head.contains('\n'),
    ensures
        lines(head + (seq!['\n'] + rest)) == seq![without_carriage_return(head)] + lines(rest),
{
    let s = head + (seq!['\n'] + rest);
    lemma_first_line_feed(head, seq!['\n'] + rest);
    assert(s.take(head.len() as int) =~= head);
    assert(s.skip(head.len() as int + 1) =~= rest);
}

/// Splits a text into its lines.
pub fn split_lines(s: &str) -> (list: Vec<String>)
    ensures
        texts(list@) == lines(s@),
{
    let mut list: Vec<String> = Vec::new();
    let mut line: Vec<char> = Vec::new();
    let mut rest: Chars<'_> = s.chars();
    assert(line@ + rest.remaining() =~= s@);
    assert(texts(list@) + lines(s@) =~= lines(s@));
    loop
        invariant
            lines(s@) == texts(list@) + lines(line@ + rest.remaining()),
            !line@.contains('\n'),
            rest.obeys_prophetic_iter_laws(),
            rest.decrease() is Some,
        ensures
            lines(s@) == texts(list@) + lines(line@),
            !line@.contains('\n'),
        decreases rest.decrease()->0,
    {
        let ghost before = rest.remaining();
        match rest.next() {
            Some(c) => {
                assert(before =~= seq![c] + rest.remaining());
                if c == '\n' {
                    proof {
                        lemma_lines_next(line@, rest.remaining());
                    }
                    let len: usize = line.len();
                    let end: usize = if len > 0 && line[len - 1] == '\r' {
                        len - 1
                    } else {
                        len
                    };
                    let whole: String = string_from(&line, 0, end);
                    assert(whole@ =~= without_carriage_return(line@));
                    let ghost listed = texts(list@);
                    list.push(whole);
                    assert(texts(list@) =~= listed.push(whole@));
                    line = Vec::new();
                    assert(line@ + rest.remaining() =~= rest.remaining());
                    assert(listed + (seq![whole@] + lines(rest.remaining())) =~= texts(list@) + lines(
                        rest.remaining(),
                    ));
                } else {
                    let ghost head = line@;
                    line.push(c);
                    assert(head + before =~= line@ + rest.remaining());
                    assert(!line@.contains('\n')) by {
                        if line@.contains('\n') {
                            let i = choose|i: int| 0 <= i < line@.len() && line@[i] == '\n';
                            assert(head[i] == '\n');
                        }
                    }
                }
            },
            None => {
                assert(line@ + rest.remaining() =~= line@);
                break;
            },
        }
    }
    let len: usize = line.len();
    if len > 0 {
        proof {
            lemma_first_line_feed(line@, seq![]);
            assert(line@ + Seq::<char>::empty() =~= line@);
        }
        let last: String = string_from(&line, 0, len);
        assert(last@ =~= line@);
        let ghost listed = texts(list@);
        list.push(last);
        assert(texts(list@) =~= listed + seq![last@]);
    } else {
        assert(lines(line@) =~= seq![]);
        assert(texts(list@) + lines(line@) =~= texts(list@));
    }
    list
}

/// Counts the lines of a text.
pub fn line_count(s: &str) -> (n: usize)
    ensures
        n == lines(s@).len(),
{
    let list: Vec<String> = split_lines(s);
    assert(texts(list@).len() == list@.len());
    list.len()
}

// ---------------------------------------------------------------------------
// White space
// ---------------------------------------------------------------------------

/// The characters with Unicode's `White_Space` property.
pub open spec fn is_white_space(c: char) -> bool {
    ||| '\u{9}' <= c <= '\u{d}'
    ||| c == '\u{20}'
    ||| c == '\u{85}'
    ||| c == '\u{a0}'
    ||| c == '\u{1680}'
    ||| '\u{2000}' <= c <= '\u{200a}'
    ||| c == '\u{2028}'
    ||| c == '\u{2029}'
    ||| c == '\u{202f}'
    ||| c == '\u{205f}'
    ||| c == '\u{3000}'
}

/// The text without the white space at its start.
pub open spec fn trimmed_start(s: Seq<char>) -> Seq<char>
    decreases s.len(),
{
    if s.len() > 0 && is_white_space(s[0]) {
        trimmed_start(s.drop_first())
    } else {
        s
    }
}

/// The text without the white space at its end.
pub open spec fn trimmed_end(s: Seq<char>) -> Seq<char>
    decreases s.len(),
{
    if s.len() > 0 && is_white_space(s.last()) {
        trimmed_end(s.drop_last())
    } else {
        s
    }
}

/// The text without the white space at its start and at its end.
pub open spec fn trimmed(s: Seq<char>) -> Seq<char> {
    trimmed_end(trimmed_start(s))
}

/// Tells whether a character is white space.
pub fn white_space(c: char) -> (yes: bool)
    ensures
        yes == is_white_space(c),
{
    ('\u{9}' <= c && c <= '\u{d}') || c == '\u{20}' || c == '\u{85}' || c == '\u{a0}' || c
        == '\u{1680}' || ('\u{2000}' <= c && c <= '\u{200a}') || c == '\u{2028}' || c == '\u{2029}'
        || c == '\u{202f}' || c == '\u{205f}' || c == '\u{3000}'
}

/// Removes the white space at both ends of a text.
pub fn trim(s: &str) -> (text: String)
    ensures
        text@ == trimmed(s@),
{
    let chars: Vec<char> = characters(s);
    let mut from: usize = 0;
    assert(chars@.skip(0) =~= s@);
    while from < chars.len() && white_space(chars[from])
        invariant
            from <= chars@.len(),
            trimmed_start(s@) == trimmed_start(chars@.skip(from as int)),
        decreases chars@.len() - from,
    {
        assert(chars@.skip(from as int).drop_first() =~= chars@.skip(from + 1));
        from = from + 1;
    }
    let mut to: usize = chars.len();
    assert(chars@.skip(from as int) =~= chars@.subrange(from as int, to as int));
    while from < to && white_space(chars[to - 1])
        invariant
            from <= to <= chars@.len(),
            trimmed(s@) == trimmed_end(chars@.subrange(from as int, to as int)),
        decreases to,
    {
        assert(chars@.subrange(from as int, to as int).drop_last() =~= chars@.subrange(
            from as int,
            to - 1,
        ));
        to = to - 1;
    }
    string_from(&chars, from, to)
}

// ---------------------------------------------------------------------------
// Search
// ---------------------------------------------------------------------------

/// The text holds the pattern from the given index on.
pub open spec fn occurs_at(pattern: Seq<char>, s: Seq<char>, at: int) -> bool {
    &&& 0 <= at
    &&& at + pattern.len() <= s.len()
    &&& s.subrange(at, at + pattern.len()) == pattern
}

/// The text holds the pattern somewhere.
pub open spec fn occurs_in(pattern: Seq<char>, s: Seq<char>) -> bool {
    exists|at: int| occurs_at(pattern, s, at)
}

fn matches_at(pattern: &Vec<char>, s: &Vec<char>, at: usize) -> (yes: bool)
    requires
        at + pattern@.len() <= s@.len(),
    ensures
        yes == occurs_at(pattern@, s@, at as int),
{
    let len: usize = s.len();
    let mut i: usize = 0;
    while i < pattern.len()
        invariant
            i <= pattern@.len(),
            len == s@.len(),
            at + pattern@.len() <= len,
            forall|j: int| 0 <= j < i ==> pattern@[j] == s@[at + j],
        decreases pattern@.len() - i,
    {
        if pattern[i] != s[at + i] {
            assert(s@.subrange(at as int, at + pattern@.len())[i as int] != pattern@[i as int]);
            return false;
        }
        i = i + 1;
    }
    assert(s@.subrange(at as int, at + pattern@.len()) =~= pattern@);
    true
}

/// Tells whether the text holds the pattern.
pub fn contains(s: &str, pattern: &str) -> (yes: bool)
    ensures
        yes == occurs_in(pattern@, s@),
{
    let wanted: Vec<char> = characters(pattern);
    let chars: Vec<char> = characters(s);
    if chars.len() < wanted.len() {
        return false;
    }
    let last: usize = chars.len() - wanted.len();
    let mut at: usize = 0;
    while at <= last
        invariant
            wanted@ == pattern@,
            chars@ == s@,
            last == chars@.len() - wanted@.len(),
            at <= last + 1,
            forall|k: int| 0 <= k < at ==> !occurs_at(pattern@, s@, k),
        decreases last + 1 - at,
    {
        if matches_at(&wanted, &chars, at) {
            return true;
        }
        if at == last {
            return false;
        }
        at = at + 1;
    }
    false
}

// ---------------------------------------------------------------------------
// Laws
// ---------------------------------------------------------------------------

/// The texts of a list are those of its strings, one for one.
pub proof fn law_texts_are_those_of_the_strings(list: Seq<String>)
    ensures
        texts(list).len() == list.len(),
        forall|i: int| 0 <= i < list.len() ==> #[trigger] texts(list)[i] == list[i]@,
{
}

/// A string that may be absent has its text where it is there, and none where it is not.
pub proof fn law_absent_strings_have_no_text(owned: String, borrowed: &str, text: Seq<char>)
    ensures
        optional_text(Some(owned)) == Some(owned@),
        optional_text(None) == None::<Seq<char>>,
        optional_str(Some(borrowed)) == Some(borrowed@),
        optional_str(None) == None::<Seq<char>>,
        text_or_empty(Some(text)) == text,
        text_or_empty(None).len() == 0,
{
}

/// A number in decimal is made of digits, does not begin with a zero unless it is
/// zero, and reads back as the number.
pub proof fn law_decimal_reads_back(n: nat)
    ensures
        decimal(n).len() > 0,
        forall|i: int| 0 <= i < decimal(n).len() ==> '0' <= #[trigger] decimal(n)[i] <= '9',
        decimal(n)[0] == '0' ==> n == 0 && decimal(n).len() == 1,
        decimal(n).fold_left(0int, |v: int, c: char| 10 * v + (c as int - '0' as int)) == n,
    decreases n,
{
    let read = |v: int, c: char| 10 * v + (c as int - '0' as int);
    reveal_with_fuel(Seq::fold_left, 2);
    if n < 10 {
        assert(decimal(n).drop_last() =~= seq![]);
        assert(decimal(n).last() == digit(n));
    } else {
        let front = decimal(n / 10);
        law_decimal_reads_back(n / 10);
        assert(decimal(n).drop_last() =~= front);
        assert(decimal(n).last() == digit(n % 10));
        assert(decimal(n)[0] == front[0]);
        assert forall|i: int| 0 <= i < decimal(n).len() implies '0' <= #[trigger] decimal(n)[i]
            <= '9' by {
            if i < front.len() {
                assert(decimal(n)[i] == front[i]);
            }
        }
        assert(decimal(n).fold_left(0int, read) == read(
            front.fold_left(0int, read),
            digit(n % 10),
        ));
    }
}

/// A negative number is a minus sign and its magnitude; any other has no sign.
pub proof fn law_only_negative_numbers_have_a_sign(n: nat)
    ensures
        signed_decimal(n as int) == decimal(n),
        n > 0 ==> signed_decimal(-n) == seq!['-'] + decimal(n),
{
}

/// A column is as wide as it has to be, and as the text at least; beside the text
/// stand spaces only, behind it in one that is aligned at the left, before it in one
/// that is aligned at the right.
pub proof fn law_columns_are_padded_with_spaces(s: Seq<char>, width: nat)
    ensures
        left_aligned(s, width).len() == if s.len() < width {
            width
        } else {
            s.len()
        },
        left_aligned(s, width).take(s.len() as int) == s,
        forall|i: int|
            s.len() <= i < left_aligned(s, width).len() ==> #[trigger] left_aligned(s, width)[i]
                == ' ',
        right_aligned(s, width).len() == if s.len() < width {
            width
        } else {
            s.len()
        },
        right_aligned(s, width).skip(right_aligned(s, width).len() - s.len()) == s,
        forall|i: int|
            0 <= i < right_aligned(s, width).len() - s.len() ==> #[trigger] right_aligned(
                s,
                width,
            )[i] == ' ',
{
    assert(left_aligned(s, width).take(s.len() as int) =~= s);
    assert(right_aligned(s, width).skip(right_aligned(s, width).len() - s.len()) =~= s);
}

/// A character that is repeated stands there as often as asked, and nothing else.
pub proof fn law_repeated_is_one_character(c: char, n: nat)
    ensures
        repeated(c, n).len() == n,
        forall|i: int| 0 <= i < n ==> #[trigger] repeated(c, n)[i] == c,
{
}

/// A line feed ends a line, whose last character is left out if it is a carriage
/// return, and the lines of what follows come next. A text without a line feed is one
/// line as it stands, or none if it is empty.
pub proof fn law_line_feeds_end_lines(line: Seq<char>, rest: Seq<char>)
    requires
        forall|i: int| 0 <= i < line.len() ==> #[trigger] line[i] != '\n',
    ensures
        lines(line + (seq!['\n'] + rest)).len() == lines(rest).len() + 1,
        lines(line + (seq!['\n'] + rest))[0] == if line.len() > 0 && line[line.len() - 1] == '\r' {
            line.take(line.len() - 1)
        } else {
            line
        },
        forall|i: int|
            0 <= i < lines(rest).len() ==> #[trigger] lines(line + (seq!['\n'] + rest))[i + 1]
                == lines(rest)[i],
        lines(line) == if line.len() > 0 {
            seq![line]
        } else {
            seq![]
        },
{
    assert(!line.contains('\n'));
    lemma_lines_next(line, rest);
    lemma_first_line_feed(line, seq![]);
    assert(line + Seq::<char>::empty() =~= line);
    if line.len() > 0 {
        assert(line.drop_last() =~= line.take(line.len() - 1));
    }
}

/// White space is what Unicode counts as such, by code point.
pub proof fn law_white_space_is_that_of_unicode(c: char)
    ensures
        is_white_space(c) <==> {
            ||| 9 <= c as int <= 13
            ||| c as int == 32
            ||| c as int == 133
            ||| c as int == 160
            ||| c as int == 5760
            ||| 8192 <= c as int <= 8202
            ||| c as int == 8232
            ||| c as int == 8233
            ||| c as int == 8239
            ||| c as int == 8287
            ||| c as int == 12288
        },
{
}

proof fn lemma_trimmed_start(s: Seq<char>) -> (from: int)
    ensures
        0 <= from <= s.len(),
        trimmed_start(s) == s.skip(from),
        forall|i: int| 0 <= i < from ==> is_white_space(#[trigger] s[i]),
        from < s.len() ==> !is_white_space(s[from]),
    decreases s.len(),
{
    if s.len() > 0 && is_white_space(s[0]) {
        let rest = s.drop_first();
        let from = lemma_trimmed_start(rest);
        assert(rest.skip(from) =~= s.skip(from + 1));
        assert forall|i: int| 0 <= i < from + 1 implies is_white_space(#[trigger] s[i]) by {
            if i > 0 {
                assert(rest[i - 1] == s[i]);
            }
        }
        from + 1
    } else {
        assert(s.skip(0) =~= s);
        0
    }
}

proof fn lemma_trimmed_end(s: Seq<char>) -> (to: int)
    ensures
        0 <= to <= s.len(),
        trimmed_end(s) == s.take(to),
        forall|i: int| to <= i < s.len() ==> is_white_space(#[trigger] s[i]),
        to > 0 ==> !is_white_space(s[to - 1]),
    decreases s.len(),
{
    if s.len() > 0 && is_white_space(s.last()) {
        let rest = s.drop_last();
        let to = lemma_trimmed_end(rest);
        assert(rest.take(to) =~= s.take(to));
        assert forall|i: int| to <= i < s.len() implies is_white_space(#[trigger] s[i]) by {
            if i < rest.len() {
                assert(rest[i] == s[i]);
            }
        }
        to
    } else {
        assert(s.take(s.len() as int) =~= s);
        s.len() as int
    }
}

/// Trimming takes white space away at both ends and nothing else: what is left is a
/// part of the text, all before and behind it is white space, and it neither begins
/// nor ends with white space.
pub proof fn law_trimming_takes_white_space_alone(s: Seq<char>)
    ensures
        exists|from: int, to: int|
            0 <= from <= to <= s.len() && trimmed(s) == #[trigger] s.subrange(from, to) && (forall|
                i: int,
            |
                0 <= i < from || to <= i < s.len() ==> is_white_space(#[trigger] s[i])),
        trimmed(s).len() > 0 ==> !is_white_space(trimmed(s)[0]) && !is_white_space(
            trimmed(s)[trimmed(s).len() - 1],
        ),
        trimmed(s).len() > 0 <==> exists|i: int|
            0 <= i < s.len() && !is_white_space(#[trigger] s[i]),
{
    let from = lemma_trimmed_start(s);
    let middle = s.skip(from);
    let len = lemma_trimmed_end(middle);
    let to = from + len;
    assert(middle.take(len) =~= s.subrange(from, to));
    assert forall|i: int| 0 <= i < from || to <= i < s.len() implies is_white_space(
        #[trigger] s[i],
    ) by {
        if to <= i {
            assert(middle[i - from] == s[i]);
        }
    }
    if len > 0 {
        assert(middle[0] == s[from]);
        assert(middle[len - 1] == s[to - 1]);
        assert(trimmed(s)[0] == s[from]);
        assert(trimmed(s)[trimmed(s).len() - 1] == s[to - 1]);
        assert(!is_white_space(s[to - 1]));
    }
}

/// A text holds a pattern exactly where it is the pattern with some text before and
/// some behind it, either of which may be empty.
pub proof fn law_pattern_stands_between_two_parts(pattern: Seq<char>, s: Seq<char>)
    ensures
        occurs_in(pattern, s) <==> exists|before: Seq<char>, behind: Seq<char>|
            s == #[trigger] (before + pattern + behind),
{
    if occurs_in(pattern, s) {
        let at = choose|at: int| occurs_at(pattern, s, at);
        let before = s.take(at);
        let behind = s.skip(at + pattern.len());
        assert(s =~= before + pattern + behind);
    }
    if exists|before: Seq<char>, behind: Seq<char>| s == #[trigger] (before + pattern + behind) {
        let (before, behind) = choose|before: Seq<char>, behind: Seq<char>|
            s == #[trigger] (before + pattern + behind);
        let at = before.len() as int;
        assert(s.subrange(at, at + pattern.len()) =~= pattern);
        assert(occurs_at(pattern, s, at));
    }
}

} // verus!
