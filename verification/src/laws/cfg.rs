//! What holds of target predicates.

use crate::cfg::{has_word, name_char, quotation_vanishes, quote_open, synthetic_cfg,
    unicode_alphanumeric, unquoted, unquoted_splits, word_at};
use vstd::prelude::*;

verus! {

/// Names are made of letters, digits and `_`.
pub proof fn names_are_made_of_letters_digits_and_underscores(c: char)
    ensures
        'a' <= c <= 'z' || 'A' <= c <= 'Z' || '0' <= c <= '9' || c == '_' ==> name_char(c),
        c as u32 <= 0x7f && name_char(c) ==> 'a' <= c <= 'z' || 'A' <= c <= 'Z' || '0' <= c <= '9'
            || c == '_',
        c as u32 > 0x7f ==> name_char(c) == unicode_alphanumeric(c),
{
}

/// Whether `word` stands in `target` with no letter, digit or `_` on either side.
pub open spec fn stands_alone_in(target: Seq<char>, word: Seq<char>) -> bool {
    exists|before: Seq<char>, after: Seq<char>|
        #![trigger before + word + after]
        target == before + word + after && (before.len() > 0 ==> !name_char(before.last())) && (
        after.len() > 0 ==> !name_char(after[0]))
}

proof fn word_is_one_that_stands_alone(target: Seq<char>, word: Seq<char>)
    ensures
        has_word(target, word) <==> stands_alone_in(target, word),
{
    if has_word(target, word) {
        let i = choose|i: int| word_at(target, i, word);
        let before = target.take(i);
        let after = target.skip(i + word.len());
        assert(target == before + target.subrange(i, i + word.len()) + after);
        assert(target == before + word + after);
    }
    if stands_alone_in(target, word) {
        let (before, after) = choose|before: Seq<char>, after: Seq<char>|
            #![trigger before + word + after]
            target == before + word + after && (before.len() > 0 ==> !name_char(before.last())) && (
            after.len() > 0 ==> !name_char(after[0]));
        let i = before.len() as int;
        assert(target.subrange(i, i + word.len()) == word);
        assert(word_at(target, i, word));
    }
}

proof fn text_without_quotation_marks_is_kept(s: Seq<char>)
    requires
        !s.contains('"'),
    ensures
        unquoted(s, false) == s,
        !quote_open(s, false),
    decreases s.len(),
{
    if s.len() > 0 {
        let rest = s.skip(1);
        assert(s.contains(s[0]));
        assert(!rest.contains('"')) by {
            if rest.contains('"') {
                let i = choose|i: int| 0 <= i < rest.len() && rest[i] == '"';
                assert(s[i + 1] == '"');
            }
        }
        text_without_quotation_marks_is_kept(rest);
        assert(s == seq![s[0]] + rest);
    }
}

/// A predicate without quotation marks is synthetic exactly where `fuzzing`, `test`, `miri`
/// or `clippy` stands in it as a whole name.
pub proof fn synthetic_flags_are_whole_names(target: Seq<char>)
    requires
        !target.contains('"'),
    ensures
        synthetic_cfg(target) <==> stands_alone_in(target, "fuzzing"@) || stands_alone_in(
            target,
            "test"@,
        ) || stands_alone_in(target, "miri"@) || stands_alone_in(target, "clippy"@),
{
    text_without_quotation_marks_is_kept(target);
    word_is_one_that_stands_alone(target, "fuzzing"@);
    word_is_one_that_stands_alone(target, "test"@);
    word_is_one_that_stands_alone(target, "miri"@);
    word_is_one_that_stands_alone(target, "clippy"@);
}

proof fn first_quotation_is_cut(before: Seq<char>, value: Seq<char>, after: Seq<char>)
    requires
        !before.contains('"'),
        !value.contains('"'),
    ensures
        unquoted(before + seq!['"'] + value + seq!['"'] + after, false) == before + unquoted(
            after,
            false,
        ),
{
    let mark = seq!['"'];
    let tail = mark + after;
    let middle = value + tail;
    let rest = mark + middle;
    assert(before + mark + value + mark + after == before + rest);
    text_without_quotation_marks_is_kept(before);
    quotation_vanishes(value);
    unquoted_splits(before, rest, false);
    assert(rest.skip(1) == middle);
    unquoted_splits(value, tail, true);
    assert(tail.skip(1) == after);
    assert(unquoted(middle, true) == Seq::<char>::empty() + unquoted(tail, true));
    assert(unquoted(rest, false) == unquoted(after, false));
}

/// The first quotation of a predicate counts as little as if it were not there.
pub proof fn quotation_counts_for_nothing(before: Seq<char>, value: Seq<char>, after: Seq<char>)
    requires
        !before.contains('"'),
        !value.contains('"'),
    ensures
        synthetic_cfg(before + seq!['"'] + value + seq!['"'] + after) == synthetic_cfg(
            before + after,
        ),
{
    first_quotation_is_cut(before, value, after);
    text_without_quotation_marks_is_kept(before);
    unquoted_splits(before, after, false);
}

/// What follows a quotation mark that no other closes counts for nothing.
pub proof fn open_quotation_counts_for_nothing(before: Seq<char>, value: Seq<char>)
    requires
        !before.contains('"'),
        !value.contains('"'),
    ensures
        synthetic_cfg(before + seq!['"'] + value) == synthetic_cfg(before),
{
    let rest = seq!['"'] + value;
    assert(before + seq!['"'] + value == before + rest);
    text_without_quotation_marks_is_kept(before);
    quotation_vanishes(value);
    unquoted_splits(before, rest, false);
    assert(rest.skip(1) == value);
    assert(unquoted(rest, false) == Seq::<char>::empty());
    assert(before + Seq::<char>::empty() == before);
}

} // verus!
