//! What holds of texts: their upper case, stems, normal form and numbers.

use crate::harvest::normalized;
use crate::text::{decimal, opt_view, stem, trimmed, unix_lines, upper, white_space};
use vstd::prelude::*;

verus! {

/// Only the ASCII letters change in upper case, each into its capital, and a text keeps
/// its length.
pub proof fn upper_changes_small_letters_alone(s: Seq<char>, i: int)
    requires
        0 <= i < s.len(),
    ensures
        upper(s).len() == s.len(),
        'a' <= s[i] <= 'z' ==> upper(s)[i] as u32 + 32 == s[i] as u32,
        !('a' <= s[i] <= 'z') ==> upper(s)[i] == s[i],
{
}

/// The stem of a text with a dot lacks exactly the last dot and what follows it.
pub proof fn stem_lacks_the_extension(stem_part: Seq<char>, extension: Seq<char>)
    requires
        !extension.contains('.'),
    ensures
        stem(stem_part + seq!['.'] + extension) == stem_part,
    decreases extension.len(),
{
    let whole = stem_part + seq!['.'] + extension;
    last_dot_is_before(stem_part, extension);
    assert(whole.take(stem_part.len() as int) == stem_part);
}

proof fn last_dot_is_before(stem_part: Seq<char>, extension: Seq<char>)
    requires
        !extension.contains('.'),
    ensures
        crate::text::last_dot(stem_part + seq!['.'] + extension) == stem_part.len(),
    decreases extension.len(),
{
    let whole = stem_part + seq!['.'] + extension;
    if extension.len() > 0 {
        let shorter = extension.drop_last();
        assert(whole.drop_last() == stem_part + seq!['.'] + shorter);
        assert(extension.last() != '.') by {
            assert(extension.contains(extension.last()));
        }
        assert(!shorter.contains('.')) by {
            if shorter.contains('.') {
                let i = choose|i: int| 0 <= i < shorter.len() && shorter[i] == '.';
                assert(extension[i] == '.');
            }
        }
        last_dot_is_before(stem_part, shorter);
    } else {
        assert(whole.last() == '.');
    }
}

/// A text without a dot is its own stem.
pub proof fn stem_without_dot_is_whole(s: Seq<char>)
    requires
        !s.contains('.'),
    ensures
        stem(s) == s,
{
    no_dot_is_found(s);
}

proof fn no_dot_is_found(s: Seq<char>)
    requires
        !s.contains('.'),
    ensures
        crate::text::last_dot(s) == -1,
    decreases s.len(),
{
    if s.len() > 0 {
        let shorter = s.drop_last();
        assert(s.contains(s.last()));
        assert(!shorter.contains('.')) by {
            if shorter.contains('.') {
                let i = choose|i: int| 0 <= i < shorter.len() && shorter[i] == '.';
                assert(s[i] == '.');
            }
        }
        no_dot_is_found(shorter);
    }
}

/// Every pair of carriage return and line feed becomes a line feed, whatever stands
/// around it.
pub proof fn line_end_becomes_line_feed(a: Seq<char>, b: Seq<char>)
    ensures
        unix_lines(a + seq!['\r', '\n'] + b) == unix_lines(a) + seq!['\n'] + unix_lines(b),
    decreases a.len(),
{
    let pair = seq!['\r', '\n'];
    let s = a + pair + b;
    if a.len() == 0 {
        assert(s.skip(2) == b);
        assert(unix_lines(a) + seq!['\n'] + unix_lines(b) == seq!['\n'] + unix_lines(b));
    } else if a.len() >= 2 && a[0] == '\r' && a[1] == '\n' {
        assert(s.skip(2) == a.skip(2) + pair + b);
        line_end_becomes_line_feed(a.skip(2), b);
        assert(unix_lines(s) == unix_lines(a) + seq!['\n'] + unix_lines(b));
    } else {
        assert(s.skip(1) == a.skip(1) + pair + b);
        assert(!(s[0] == '\r' && s[1] == '\n'));
        line_end_becomes_line_feed(a.skip(1), b);
        assert(unix_lines(s) == unix_lines(a) + seq!['\n'] + unix_lines(b));
    }
}

/// A text without such a pair keeps its lines as they are.
pub proof fn other_characters_are_kept(s: Seq<char>)
    requires
        forall|i: int| 0 <= i < s.len() - 1 ==> !(#[trigger] s[i] == '\r' && s[i + 1] == '\n'),
    ensures
        unix_lines(s) == s,
    decreases s.len(),
{
    if s.len() > 0 {
        let rest = s.skip(1);
        assert forall|i: int| 0 <= i < rest.len() - 1 implies !(#[trigger] rest[i] == '\r' && rest[i
            + 1] == '\n') by {
            assert(s[i + 1] == rest[i]);
        }
        if s.len() >= 2 {
            assert(!(s[0] == '\r' && s[1] == '\n'));
        }
        other_characters_are_kept(rest);
        assert(s == seq![s[0]] + rest);
    }
}

/// White space is what Unicode calls so: these code points and no others.
pub proof fn white_space_is_that_of_unicode(c: char)
    ensures
        white_space(c) <==> 0x9 <= c as u32 <= 0xd || 0x2000 <= c as u32 <= 0x200a || set![
            0x20u32,
            0x85,
            0xa0,
            0x1680,
            0x2028,
            0x2029,
            0x202f,
            0x205f,
            0x3000,
        ].contains(c as u32),
{
}

/// Trimming takes off white space at the two ends and nothing else: what is left does
/// not begin or end with white space, and what was taken off is white space alone.
pub proof fn trimming_takes_outer_white_space_alone(s: Seq<char>) -> (r: (Seq<char>, Seq<char>))
    ensures
        s == r.0 + trimmed(s) + r.1,
        forall|i: int| 0 <= i < r.0.len() ==> white_space(#[trigger] r.0[i]),
        forall|i: int| 0 <= i < r.1.len() ==> white_space(#[trigger] r.1[i]),
        trimmed(s).len() > 0 ==> !white_space(trimmed(s)[0]) && !white_space(
            trimmed(s)[trimmed(s).len() - 1],
        ),
    decreases s.len(),
{
    let none = Seq::<char>::empty();
    if s.len() == 0 {
        assert(s == none + trimmed(s) + none);
        (none, none)
    } else if white_space(s.first()) {
        let (a, b) = trimming_takes_outer_white_space_alone(s.drop_first());
        let front = seq![s.first()] + a;
        assert(s == seq![s.first()] + s.drop_first());
        assert(s == front + trimmed(s) + b);
        (front, b)
    } else if white_space(s.last()) {
        let (a, b) = trimming_takes_outer_white_space_alone(s.drop_last());
        let back = b.push(s.last());
        assert(s == s.drop_last().push(s.last()));
        assert(s == a + trimmed(s) + back);
        (a, back)
    } else {
        assert(s == none + trimmed(s) + none);
        (none, none)
    }
}

/// The harvested form of a text keeps everything between its outer white space, inner
/// line feeds included.
pub proof fn harvested_text_is_whole(text: Seq<char>) -> (r: (Seq<char>, Seq<char>))
    requires
        !text.contains('\r'),
    ensures
        text == r.0 + normalized(text) + r.1,
        forall|i: int| 0 <= i < r.0.len() ==> white_space(#[trigger] r.0[i]),
        forall|i: int| 0 <= i < r.1.len() ==> white_space(#[trigger] r.1[i]),
        normalized(text).len() > 0 ==> !white_space(normalized(text)[0]) && !white_space(
            normalized(text)[normalized(text).len() - 1],
        ),
{
    assert forall|i: int| 0 <= i < text.len() - 1 implies !(#[trigger] text[i] == '\r' && text[i
        + 1] == '\n') by {
        assert(text.contains(text[i]));
    }
    other_characters_are_kept(text);
    trimming_takes_outer_white_space_alone(text)
}

/// A text without outer white space and without pairs of carriage return and line feed is
/// harvested unchanged.
pub proof fn clean_text_is_harvested_unchanged(text: Seq<char>)
    requires
        forall|i: int|
            0 <= i < text.len() - 1 ==> !(#[trigger] text[i] == '\r' && text[i + 1] == '\n'),
        text.len() > 0 ==> !white_space(text[0]) && !white_space(text[text.len() - 1]),
    ensures
        normalized(text) == text,
{
    other_characters_are_kept(text);
}

/// Where a line ends within a text by carriage return and line feed, the text is harvested
/// as if it ended by a line feed alone.
pub proof fn harvested_lines_end_alike(a: Seq<char>, b: Seq<char>)
    requires
        a.len() > 0 ==> a[a.len() - 1] != '\r',
    ensures
        normalized(a + seq!['\r', '\n'] + b) == normalized(a + seq!['\n'] + b),
{
    line_end_becomes_line_feed(a, b);
    line_feed_is_kept(a, b);
}

proof fn line_feed_is_kept(a: Seq<char>, b: Seq<char>)
    requires
        a.len() > 0 ==> a[a.len() - 1] != '\r',
    ensures
        unix_lines(a + seq!['\n'] + b) == unix_lines(a) + seq!['\n'] + unix_lines(b),
    decreases a.len(),
{
    let s = a + seq!['\n'] + b;
    if a.len() == 0 {
        assert(s.skip(1) == b);
        assert(unix_lines(a) + seq!['\n'] + unix_lines(b) == seq!['\n'] + unix_lines(b));
    } else if a.len() >= 2 && a[0] == '\r' && a[1] == '\n' {
        assert(s.skip(2) == a.skip(2) + seq!['\n'] + b);
        line_feed_is_kept(a.skip(2), b);
        assert(unix_lines(s) == unix_lines(a) + seq!['\n'] + unix_lines(b));
    } else {
        assert(s.skip(1) == a.skip(1) + seq!['\n'] + b);
        line_feed_is_kept(a.skip(1), b);
        assert(unix_lines(s) == unix_lines(a) + seq!['\n'] + unix_lines(b));
    }
}

/// The number that decimal digits stand for.
pub open spec fn number_of(digits: Seq<char>) -> int
    decreases digits.len(),
{
    if digits.len() == 0 {
        0
    } else {
        10 * number_of(digits.drop_last()) + (digits.last() as int - '0' as int)
    }
}

/// A number is written in decimal digits that stand for it, without leading zeros.
pub proof fn decimal_stands_for_its_number(n: nat)
    ensures
        number_of(decimal(n)) == n,
        forall|i: int| 0 <= i < decimal(n).len() ==> '0' <= #[trigger] decimal(n)[i] <= '9',
        decimal(n).len() > 0,
        n > 0 ==> decimal(n)[0] != '0',
    decreases n,
{
    if n < 10 {
        assert(decimal(n).drop_last() == Seq::<char>::empty());
        assert(number_of(decimal(n).drop_last()) == 0);
    } else {
        decimal_stands_for_its_number(n / 10);
        assert(decimal(n).drop_last() == decimal(n / 10));
    }
}

/// An optional text keeps its characters.
pub proof fn optional_text_is_kept(text: Option<String>)
    ensures
        match (text, opt_view(text)) {
            (Some(given), Some(characters)) => given@ == characters,
            (None, None) => true,
            _ => false,
        },
{
}

} // verus!
