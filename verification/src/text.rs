//! String operations of std that verified code here calls, each with what
//! is taken on trust of it.

use vstd::prelude::*;

verus! {

/// Whether a character is whitespace: one with the Unicode property
/// `White_Space`.
pub open spec fn is_whitespace(c: char) -> bool {
    ||| '\u{9}' <= c <= '\u{d}'
    ||| c == ' '
    ||| c == '\u{85}'
    ||| c == '\u{a0}'
    ||| c == '\u{1680}'
    ||| '\u{2000}' <= c <= '\u{200a}'
    ||| c == '\u{2028}'
    ||| c == '\u{2029}'
    ||| c == '\u{202f}'
    ||| c == '\u{205f}'
    ||| c == '\u{3000}'
}

/// A text without the whitespace that it starts with.
pub open spec fn trimmed_start(text: Seq<char>) -> Seq<char>
    decreases text.len(),
{
    if text.len() > 0 && is_whitespace(text[0]) {
        trimmed_start(text.drop_first())
    } else {
        text
    }
}

/// A text without the whitespace that it ends with.
pub open spec fn trimmed_end(text: Seq<char>) -> Seq<char>
    decreases text.len(),
{
    if text.len() > 0 && is_whitespace(text.last()) {
        trimmed_end(text.drop_last())
    } else {
        text
    }
}

/// A text without its leading and trailing whitespace.
pub open spec fn trimmed(text: Seq<char>) -> Seq<char> {
    trimmed_end(trimmed_start(text))
}

/// A line without the carriage return that it ends with, if it ends with
/// one.
pub open spec fn without_cr(line: Seq<char>) -> Seq<char> {
    if line.len() > 0 && line.last() == '\r' {
        line.drop_last()
    } else {
        line
    }
}

/// The lines of a text. A line ends with a line feed, or with a carriage
/// return and a line feed, neither of which belongs to the line; the last
/// line needs no line ending, and keeps a carriage return that it ends with.
pub open spec fn lines_of(text: Seq<char>) -> Seq<Seq<char>>
    decreases text.len(),
    via lines_of_decreases
{
    let at = find_char(text, '\n');
    if text.len() == 0 {
        Seq::empty()
    } else if at >= text.len() {
        seq![text]
    } else {
        seq![without_cr(text.take(at))] + lines_of(text.skip(at + 1))
    }
}

/// Whether `text` begins with `prefix`.
pub open spec fn starts_with(text: Seq<char>, prefix: Seq<char>) -> bool {
    prefix.len() <= text.len() && text.subrange(0, prefix.len() as int) == prefix
}

/// Whether `text` ends with `suffix`.
pub open spec fn ends_with(text: Seq<char>, suffix: Seq<char>) -> bool {
    suffix.len() <= text.len() && text.subrange(text.len() - suffix.len(), text.len() as int)
        == suffix
}

#[via_fn]
proof fn lines_of_decreases(text: Seq<char>) {
    lemma_find_char(text, '\n');
}

/// `String::push` of std: the character is added at the end.
#[verifier::external_body]
pub(crate) fn push_char(text: &mut String, c: char)
    ensures
        final(text)@ == old(text)@.push(c),
{
    text.push(c)
}

/// `str::trim` of std: the text without its leading and trailing
/// whitespace.
#[verifier::external_body]
pub(crate) fn trim(text: &str) -> (r: String)
    ensures
        r@ == trimmed(text@),
{
    text.trim().to_owned()
}

/// `str::lines` of std: the lines of the text, in order and without their
/// line endings.
#[verifier::external_body]
pub(crate) fn lines(text: &str) -> (r: Vec<String>)
    ensures
        r.deep_view() == lines_of(text@),
{
    text.lines().map(|line| line.to_owned()).collect()
}

/// `str::strip_prefix` of std: where the text begins with the prefix, what
/// follows the prefix; otherwise nothing.
#[verifier::external_body]
pub(crate) fn strip_prefix(text: &str, prefix: &str) -> (r: Option<String>)
    ensures
        match r {
            Some(rest) => starts_with(text@, prefix@) && rest@ == text@.skip(prefix@.len() as int),
            None => !starts_with(text@, prefix@),
        },
{
    text.strip_prefix(prefix).map(|rest| rest.to_owned())
}

/// `str::ends_with` of std, for a string as the pattern: whether the text
/// ends with it.
#[verifier::external_body]
pub(crate) fn has_suffix(text: &str, suffix: &str) -> (r: bool)
    ensures
        r == ends_with(text@, suffix@),
{
    text.ends_with(suffix)
}

/// Where `c` first stands in `text`, or the length of `text` where it does
/// not stand in it.
pub open spec fn find_char(text: Seq<char>, c: char) -> int
    decreases text.len(),
{
    if text.len() == 0 {
        0
    } else if text[0] == c {
        0
    } else {
        1 + find_char(text.drop_first(), c)
    }
}

/// What stands before and after the first `c` of `text`, where there is one.
pub open spec fn split_at_char(text: Seq<char>, c: char) -> Option<(Seq<char>, Seq<char>)> {
    let at = find_char(text, c);
    if at < text.len() {
        Some((text.take(at), text.skip(at + 1)))
    } else {
        None
    }
}

/// `find_char` finds the first `c`, and nothing before it is `c`.
pub proof fn lemma_find_char(text: Seq<char>, c: char)
    ensures
        0 <= find_char(text, c) <= text.len(),
        find_char(text, c) < text.len() ==> text[find_char(text, c)] == c,
        forall|i: int| 0 <= i < find_char(text, c) ==> #[trigger] text[i] != c,
    decreases text.len(),
{
    if text.len() > 0 && text[0] != c {
        let rest = text.drop_first();
        lemma_find_char(rest, c);
        assert forall|i: int| 0 <= i < find_char(text, c) implies #[trigger] text[i] != c by {
            if i > 0 {
                assert(text[i] == rest[i - 1]);
            }
        }
    }
}

/// `str::split_once` of std, for a character as the separator: what stands
/// before and after its first occurrence, if it occurs.
#[verifier::external_body]
pub(crate) fn split_once(text: &str, separator: char) -> (r: Option<(String, String)>)
    ensures
        match r {
            Some((before, after)) => split_at_char(text@, separator) == Some((before@, after@)),
            None => split_at_char(text@, separator) is None,
        },
{
    text.split_once(separator).map(|(before, after)| (before.to_owned(), after.to_owned()))
}

/// `str::starts_with` of std, for a string as the pattern: whether the text
/// begins with it.
#[verifier::external_body]
pub(crate) fn has_prefix(text: &str, prefix: &str) -> (r: bool)
    ensures
        r == starts_with(text@, prefix@),
{
    text.starts_with(prefix)
}

/// `==` of std on string slices: whether the two hold the same text.
#[verifier::external_body]
pub(crate) fn same_text(a: &str, b: &str) -> (r: bool)
    ensures
        r == (a@ == b@),
{
    a == b
}

} // verus!
