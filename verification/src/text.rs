//! Facts and operations on text that the rest of the library builds on.

use vstd::prelude::*;
use vstd::string::*;

verus! {

/// `needle` stands in `hay` starting at position `i`.
pub open spec fn occurs_at(hay: Seq<char>, needle: Seq<char>, i: int) -> bool {
    0 <= i && i + needle.len() <= hay.len() && hay.subrange(i, i + needle.len()) == needle
}

/// `needle` stands somewhere in `hay`, case-sensitively.
pub open spec fn is_substring(needle: Seq<char>, hay: Seq<char>) -> bool {
    exists|i: int| occurs_at(hay, needle, i)
}

/// The empty text stands in every text.
pub proof fn lemma_empty_is_substring(hay: Seq<char>)
    ensures
        is_substring(Seq::<char>::empty(), hay),
{
    assert(hay.subrange(0, 0) =~= Seq::<char>::empty());
    assert(occurs_at(hay, Seq::<char>::empty(), 0));
}

/// Every text stands in itself.
pub proof fn lemma_substring_of_itself(s: Seq<char>)
    ensures
        is_substring(s, s),
{
    assert(s.subrange(0, s.len() as int) =~= s);
    assert(occurs_at(s, s, 0));
}

/// A text is at least as long as a text that stands in it.
pub proof fn lemma_substring_length(needle: Seq<char>, hay: Seq<char>)
    requires
        is_substring(needle, hay),
    ensures
        needle.len() <= hay.len(),
{
}

/// Calls `str::contains` of std with a string pattern. The contract says what
/// std documents: the answer is whether the pattern matches a sub-slice of the
/// text.
#[verifier::external_body]
pub(crate) fn text_contains(hay: &str, needle: &str) -> (found: bool)
    ensures
        found == is_substring(needle@, hay@),
{
    hay.contains(needle)
}

/// Calls `==` of std on two string slices. The contract says what std
/// documents: the answer is whether the two hold the same characters.
#[verifier::external_body]
pub(crate) fn same_text(a: &str, b: &str) -> (same: bool)
    ensures
        same == (a@ == b@),
{
    a == b
}

/// The texts that a sequence of strings holds.
pub open spec fn texts(lines: Seq<String>) -> Seq<Seq<char>> {
    Seq::new(lines.len(), |i: int| lines[i]@)
}

/// `a` comes before `b` in the order of `String`: the first character in which
/// they differ decides, by its code point, and a proper prefix comes first.
pub open spec fn text_lt(a: Seq<char>, b: Seq<char>) -> bool
    decreases a.len(),
{
    if b.len() == 0 {
        false
    } else if a.len() == 0 {
        true
    } else if a[0] != b[0] {
        (a[0] as u32) < (b[0] as u32)
    } else {
        text_lt(a.drop_first(), b.drop_first())
    }
}

/// No text comes before itself.
pub proof fn lemma_text_lt_irreflexive(a: Seq<char>)
    ensures
        !text_lt(a, a),
    decreases a.len(),
{
    if a.len() > 0 {
        lemma_text_lt_irreflexive(a.drop_first());
    }
}

/// What comes before a text comes before all that the text comes before.
pub proof fn lemma_text_lt_transitive(a: Seq<char>, b: Seq<char>, c: Seq<char>)
    requires
        text_lt(a, b),
        text_lt(b, c),
    ensures
        text_lt(a, c),
    decreases a.len(),
{
    if a.len() > 0 && a[0] == b[0] && b[0] == c[0] {
        lemma_text_lt_transitive(a.drop_first(), b.drop_first(), c.drop_first());
    }
}

/// `text` where it does not begin with `prefix`; else what follows `prefix`
/// in it, with `marker` in front.
pub open spec fn prefix_replaced(text: Seq<char>, prefix: Seq<char>, marker: Seq<char>) -> Seq<char> {
    if prefix.is_prefix_of(text) {
        marker + text.skip(prefix.len() as int)
    } else {
        text
    }
}

/// Calls `str::strip_prefix` of std with a string pattern. The contract says
/// what std documents: where the text starts with the prefix, what comes after
/// it; nothing where it does not.
#[verifier::external_body]
pub(crate) fn text_strip_prefix<'a>(text: &'a str, prefix: &str) -> (rest: Option<&'a str>)
    ensures
        match rest {
            Some(tail) => prefix@.is_prefix_of(text@) && tail@ == text@.skip(prefix@.len() as int),
            None => !prefix@.is_prefix_of(text@),
        },
{
    text.strip_prefix(prefix)
}

/// `line` without the newline at its end, where it has one.
pub open spec fn newline_dropped(line: Seq<char>) -> Seq<char> {
    if line.len() > 0 && line.last() == '\n' {
        line.drop_last()
    } else {
        line
    }
}

/// A line as it was read, without the newline that ends it.
pub fn without_newline(line: &str) -> (text: &str)
    ensures
        text@ == newline_dropped(line@),
{
    let length = line.unicode_len();
    if length > 0 && line.get_char(length - 1) == '\n' {
        line.substring_char(0, length - 1)
    } else {
        line
    }
}

/// `count` spaces.
pub open spec fn spaces(count: nat) -> Seq<char> {
    Seq::new(count, |i: int| ' ')
}

/// `text`, filled up with spaces on the right to `width` characters; `text`
/// itself where it is that long already.
pub open spec fn padded(text: Seq<char>, width: nat) -> Seq<char> {
    if text.len() < width {
        text + spaces((width - text.len()) as nat)
    } else {
        text
    }
}

/// `text` filled up with spaces on the right to `width` characters.
pub fn pad_right(text: &str, width: usize) -> (filled: String)
    ensures
        filled@ == padded(text@, width as nat),
{
    let mut filled = String::from_str(text);
    let mut length: usize = text.unicode_len();
    let ghost start = length;
    proof {
        reveal_strlit(" ");
        assert(text@ + spaces(0) =~= text@);
    }
    while length < width
        invariant
            start == text@.len(),
            start <= length,
            start < width ==> length <= width,
            start >= width ==> length == start,
            filled@ == text@ + spaces((length - start) as nat),
            " "@ == seq![' '],
        decreases width - length,
    {
        filled.append(" ");
        length += 1;
        proof {
            assert(filled@ =~= text@ + spaces((length - start) as nat));
        }
    }
    proof {
        if start >= width {
            assert(length == start);
            assert(text@ + spaces(0) =~= text@);
        }
    }
    filled
}

/// The decimal digit `d`.
pub open spec fn digit(d: nat) -> char {
    if d == 0 {
        '0'
    } else if d == 1 {
        '1'
    } else if d == 2 {
        '2'
    } else if d == 3 {
        '3'
    } else if d == 4 {
        '4'
    } else if d == 5 {
        '5'
    } else if d == 6 {
        '6'
    } else if d == 7 {
        '7'
    } else if d == 8 {
        '8'
    } else {
        '9'
    }
}

/// `n` in decimal, without leading zeros.
pub open spec fn decimal(n: nat) -> Seq<char>
    decreases n,
{
    if n < 10 {
        seq![digit(n)]
    } else {
        decimal(n / 10).push(digit(n % 10))
    }
}

fn digit_text(d: usize) -> (text: &'static str)
    requires
        d < 10,
    ensures
        text@ == seq![digit(d as nat)],
{
    proof {
        reveal_strlit("0");
        reveal_strlit("1");
        reveal_strlit("2");
        reveal_strlit("3");
        reveal_strlit("4");
        reveal_strlit("5");
        reveal_strlit("6");
        reveal_strlit("7");
        reveal_strlit("8");
        reveal_strlit("9");
    }
    let text = if d == 0 {
        "0"
    } else if d == 1 {
        "1"
    } else if d == 2 {
        "2"
    } else if d == 3 {
        "3"
    } else if d == 4 {
        "4"
    } else if d == 5 {
        "5"
    } else if d == 6 {
        "6"
    } else if d == 7 {
        "7"
    } else if d == 8 {
        "8"
    } else {
        "9"
    };
    assert(text@ =~= seq![digit(d as nat)]);
    text
}

/// `n` written in decimal.
pub fn decimal_text(n: usize) -> (text: String)
    ensures
        text@ == decimal(n as nat),
    decreases n,
{
    if n < 10 {
        String::from_str(digit_text(n))
    } else {
        let mut text = decimal_text(n / 10);
        text.append(digit_text(n % 10));
        proof {
            assert(text@ =~= decimal((n / 10) as nat).push(digit((n % 10) as nat)));
        }
        text
    }
}

} // verus!
