//! Recognition of `cfg(...)` predicates that no real target platform satisfies.

use crate::text::characters;
use vstd::prelude::*;

verus! {

/// What `std`'s `char::is_alphanumeric` says of a character.
pub uninterp spec fn unicode_alphanumeric(c: char) -> bool;

/// `char::is_alphanumeric`: a function of the character alone.
#[verifier::external_body]
fn is_unicode_alphanumeric(c: char) -> (r: bool)
    ensures
        r == unicode_alphanumeric(c),
{
    c.is_alphanumeric()
}

/// Whether `c` can stand in a name: letters, digits and `_`.
pub open spec fn name_char(c: char) -> bool {
    if c <= '\u{7f}' {
        'a' <= c <= 'z' || 'A' <= c <= 'Z' || '0' <= c <= '9' || c == '_'
    } else {
        unicode_alphanumeric(c)
    }
}

/// `s` without its quotation marks and what they enclose; `quoted` says whether a
/// quotation is open where `s` begins.
pub open spec fn unquoted(s: Seq<char>, quoted: bool) -> Seq<char>
    decreases s.len(),
{
    if s.len() == 0 {
        s
    } else if s[0] == '"' {
        unquoted(s.skip(1), !quoted)
    } else if quoted {
        unquoted(s.skip(1), quoted)
    } else {
        seq![s[0]] + unquoted(s.skip(1), quoted)
    }
}

/// Whether a quotation is open behind `s`.
pub open spec fn quote_open(s: Seq<char>, quoted: bool) -> bool
    decreases s.len(),
{
    if s.len() == 0 {
        quoted
    } else {
        quote_open(s.skip(1), if s[0] == '"' { !quoted } else { quoted })
    }
}

/// Whether `word` stands at position `i` of `s` as a whole name.
pub open spec fn word_at(s: Seq<char>, i: int, word: Seq<char>) -> bool {
    &&& 0 <= i <= s.len() - word.len()
    &&& s.subrange(i, i + word.len()) == word
    &&& i == 0 || !name_char(s[i - 1])
    &&& i + word.len() == s.len() || !name_char(s[i + word.len()])
}

/// Whether `word` is one of the names in `s`.
pub open spec fn has_word(s: Seq<char>, word: Seq<char>) -> bool {
    exists|i: int| word_at(s, i, word)
}

/// Whether the predicate `target` names, outside quotation marks, a flag that is
/// never set in a normal build.
pub open spec fn synthetic_cfg(target: Seq<char>) -> bool {
    let bare = unquoted(target, false);
    has_word(bare, "fuzzing"@) || has_word(bare, "test"@) || has_word(bare, "miri"@) || has_word(
        bare,
        "clippy"@,
    )
}

/// Whether `c` can stand in a name.
fn is_name_char(c: char) -> (r: bool)
    ensures
        r == name_char(c),
{
    if c <= '\u{7f}' {
        ('a' <= c && c <= 'z') || ('A' <= c && c <= 'Z') || ('0' <= c && c <= '9') || c == '_'
    } else {
        is_unicode_alphanumeric(c)
    }
}

/// The characters of `s` outside quotation marks.
fn unquoted_characters(s: &str) -> (r: Vec<char>)
    ensures
        r@ == unquoted(s@, false),
{
    let chars = characters(s);
    let mut out: Vec<char> = Vec::new();
    let mut quoted: bool = false;
    let mut i: usize = 0;
    assert(chars@.skip(0) == chars@);
    while i < chars.len()
        invariant
            i <= chars@.len(),
            unquoted(chars@, false) == out@ + unquoted(chars@.skip(i as int), quoted),
        decreases chars@.len() - i,
    {
        assert(chars@.skip(i as int).skip(1) == chars@.skip(i + 1));
        if chars[i] == '"' {
            quoted = !quoted;
        } else if !quoted {
            out.push(chars[i]);
        }
        i += 1;
    }
    out
}

/// Whether `word` stands at position `i` of `s` as a whole name.
fn stands_at(s: &Vec<char>, i: usize, word: &Vec<char>) -> (r: bool)
    requires
        i <= s@.len(),
    ensures
        r == word_at(s@, i as int, word@),
{
    if s.len() - i < word.len() {
        return false;
    }
    let mut j: usize = 0;
    while j < word.len()
        invariant
            j <= word@.len(),
            i + word@.len() <= s.len(),
            forall|n: int| 0 <= n < j ==> s@[i + n] == word@[n],
        decreases word@.len() - j,
    {
        if s[i + j] != word[j] {
            assert(s@.subrange(i as int, i + word@.len())[j as int] != word@[j as int]);
            return false;
        }
        j += 1;
    }
    assert(s@.subrange(i as int, i + word@.len()) == word@);
    (i == 0 || !is_name_char(s[i - 1])) && (i + word.len() == s.len() || !is_name_char(
        s[i + word.len()],
    ))
}

/// Whether `word` is one of the names in `s`.
fn names(s: &Vec<char>, word: &str) -> (r: bool)
    ensures
        r == has_word(s@, word@),
{
    let flag = characters(word);
    let mut i: usize = 0;
    while i < s.len()
        invariant
            i <= s@.len(),
            flag@ == word@,
            forall|n: int| 0 <= n < i ==> !word_at(s@, n, word@),
        decreases s@.len() - i,
    {
        if stands_at(s, i, &flag) {
            return true;
        }
        i += 1;
    }
    stands_at(s, i, &flag)
}

/// Whether a `cfg(...)` target predicate references a synthetic build flag
/// (`fuzzing`, `test`, `miri`, `clippy`) that is never set for a real target
/// platform in a normal build. Quoted values (e.g. `target_os = "..."`) are
/// ignored so only bare cfg flags are matched.
pub fn is_synthetic_cfg(target: &str) -> (r: bool)
    ensures
        r == synthetic_cfg(target@),
{
    let bare = unquoted_characters(target);
    names(&bare, "fuzzing") || names(&bare, "test") || names(&bare, "miri") || names(
        &bare,
        "clippy",
    )
}

/// What stands before a text decides only whether a quotation is open in it.
pub proof fn unquoted_splits(a: Seq<char>, b: Seq<char>, quoted: bool)
    ensures
        unquoted(a + b, quoted) == unquoted(a, quoted) + unquoted(b, quote_open(a, quoted)),
    decreases a.len(),
{
    if a.len() == 0 {
        assert(a + b == b);
        assert(unquoted(a, quoted) + unquoted(b, quoted) == unquoted(b, quoted));
    } else {
        assert((a + b).skip(1) == a.skip(1) + b);
        unquoted_splits(a.skip(1), b, if a[0] == '"' { !quoted } else { quoted });
    }
}

/// A quotation without inner quotation marks leaves nothing behind.
pub proof fn quotation_vanishes(q: Seq<char>)
    requires
        !q.contains('"'),
    ensures
        unquoted(q, true) == Seq::<char>::empty(),
        quote_open(q, true),
    decreases q.len(),
{
    if q.len() > 0 {
        assert(q[0] != '"');
        assert(!q.skip(1).contains('"')) by {
            if q.skip(1).contains('"') {
                let i = choose|i: int| 0 <= i < q.skip(1).len() && q.skip(1)[i] == '"';
                assert(q[i + 1] == '"');
            }
        }
        quotation_vanishes(q.skip(1));
    }
}

/// What a predicate is taken for does not depend on its quoted values: with `before`
/// closing every quotation that it opens, one value can stand for another.
pub proof fn quoted_values_are_ignored(
    before: Seq<char>,
    value: Seq<char>,
    other: Seq<char>,
    after: Seq<char>,
)
    requires
        !quote_open(before, false),
        !value.contains('"'),
        !other.contains('"'),
    ensures
        synthetic_cfg(before + seq!['"'] + value + seq!['"'] + after) == synthetic_cfg(
            before + seq!['"'] + other + seq!['"'] + after,
        ),
{
    quoted_value_vanishes(before, value, after);
    quoted_value_vanishes(before, other, after);
}

proof fn quoted_value_vanishes(before: Seq<char>, value: Seq<char>, after: Seq<char>)
    requires
        !quote_open(before, false),
        !value.contains('"'),
    ensures
        unquoted(before + seq!['"'] + value + seq!['"'] + after, false) == unquoted(before, false)
            + unquoted(after, false),
{
    let mark = seq!['"'];
    let tail = mark + after;
    let middle = value + tail;
    let rest = mark + middle;
    assert(before + mark + value + mark + after == before + rest);
    unquoted_splits(before, rest, false);
    assert(rest.skip(1) == middle);
    unquoted_splits(value, tail, true);
    quotation_vanishes(value);
    assert(tail.skip(1) == after);
    assert(unquoted(rest, false) == unquoted(after, false));
}

} // verus!
