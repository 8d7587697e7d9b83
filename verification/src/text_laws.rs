//! What holds of every text and number.

use crate::text::{ascii_lowercase, decimal, occurs_at, split, text_at_most};
use vstd::prelude::*;

verus! {

/// The number that decimal digits stand for.
pub open spec fn digits_value(digits: Seq<char>) -> int
    decreases digits.len(),
{
    if digits.len() == 0 {
        0
    } else {
        digits_value(digits.drop_last()) * 10 + (digits.last() as int - '0' as int)
    }
}

/// Whether all of these characters are decimal digits.
pub open spec fn are_digits(text: Seq<char>) -> bool {
    forall|i: int| 0 <= i < text.len() ==> '0' <= #[trigger] text[i] && text[i] <= '9'
}

/// A number is written with the digits that stand for it, and with no more of them than it takes.
pub proof fn law_numbers_are_written_in_decimal(number: nat)
    ensures
        are_digits(decimal(number)),
        digits_value(decimal(number)) == number,
        decimal(number).len() > 0,
        number > 0 ==> decimal(number)[0] != '0',
        number == 0 ==> decimal(number).len() == 1,
    decreases number,
{
    let digits = decimal(number);
    let last = (48 + number % 10) as char;
    assert(last as int == 48 + number % 10);
    if number >= 10 {
        law_numbers_are_written_in_decimal(number / 10);
        assert(digits.drop_last() =~= decimal(number / 10));
        assert(number == (number / 10) * 10 + number % 10);
        assert forall|i: int| 0 <= i < digits.len() implies '0' <= #[trigger] digits[i]
            && digits[i] <= '9' by {
            if i < digits.len() - 1 {
                assert(digits[i] == decimal(number / 10)[i]);
            }
        }
        assert(digits[0] == decimal(number / 10)[0]);
    } else {
        assert(digits.drop_last() =~= Seq::<char>::empty());
        assert(digits_value(digits.drop_last()) == 0);
    }
    assert(digits.last() == last);
}

/// Dictionary order: the first difference decides, and without one the shorter text comes first.
pub proof fn law_texts_are_in_dictionary_order(
    common: Seq<char>,
    left: Seq<char>,
    right: Seq<char>,
)
    ensures
        left.len() == 0 ==> text_at_most(common + left, common + right),
        left.len() > 0 && right.len() == 0 ==> !text_at_most(common + left, common + right),
        left.len() > 0 && right.len() > 0 && left[0] != right[0] ==> (text_at_most(
            common + left,
            common + right,
        ) <==> left[0] < right[0]),
    decreases common.len(),
{
    let a = common + left;
    let b = common + right;
    if common.len() == 0 {
        assert(a =~= left);
        assert(b =~= right);
    } else {
        law_texts_are_in_dictionary_order(common.drop_first(), left, right);
        assert(a[0] == common[0] && b[0] == common[0]);
        assert(a.drop_first() =~= common.drop_first() + left);
        assert(b.drop_first() =~= common.drop_first() + right);
    }
}

/// ASCII capitals become the small letters that stand 32 places behind them; every other character
/// stays.
pub proof fn law_capitals_become_small(text: Seq<char>, at: int)
    requires
        0 <= at < text.len(),
    ensures
        ascii_lowercase(text).len() == text.len(),
        'A' <= text[at] && text[at] <= 'Z' ==> ascii_lowercase(text)[at] as int == text[at] as int
            + ('a' as int - 'A' as int),
        !('A' <= text[at] && text[at] <= 'Z') ==> ascii_lowercase(text)[at] == text[at],
{
}

/// Without a separator there is one piece, the text.
pub proof fn lemma_split_whole(text: Seq<char>, separator: char)
    requires
        !text.contains(separator),
    ensures
        split(text, separator) == seq![text],
    decreases text.len(),
{
    if text.len() == 0 {
        assert(text =~= Seq::<char>::empty());
    } else {
        let front = text.drop_last();
        assert(text.last() != separator) by {
            assert(text[text.len() - 1] == text.last());
        }
        assert(!front.contains(separator)) by {
            if front.contains(separator) {
                let i = choose|i: int| 0 <= i < front.len() && front[i] == separator;
                assert(text[i] == separator);
            }
        }
        lemma_split_whole(front, separator);
        assert(seq![front].drop_last() =~= Seq::<Seq<char>>::empty());
        assert(front.push(text.last()) =~= text);
        assert(split(text, separator) =~= seq![text]);
    }
}

/// Splitting goes from separator to separator: what comes behind one is split on its own.
pub proof fn lemma_split_at_separator(left: Seq<char>, right: Seq<char>, separator: char)
    ensures
        split(left.push(separator) + right, separator) == split(left, separator) + split(
            right,
            separator,
        ),
    decreases right.len(),
{
    let whole = left.push(separator) + right;
    if right.len() == 0 {
        assert(whole =~= left.push(separator));
        assert(left.push(separator).drop_last() =~= left);
        assert(split(whole, separator) =~= split(left, separator) + split(right, separator));
    } else {
        let front = right.drop_last();
        lemma_split_at_separator(left, front, separator);
        crate::text::lemma_split_has_a_piece(front, separator);
        assert(whole.drop_last() =~= left.push(separator) + front);
        assert(whole.last() == right.last());
        let a = split(left, separator);
        let b = split(front, separator);
        if right.last() == separator {
            assert((a + b).push(Seq::<char>::empty()) =~= a + b.push(Seq::<char>::empty()));
        } else {
            assert((a + b).last() == b.last());
            assert((a + b).drop_last().push(b.last().push(right.last())) =~= a
                + b.drop_last().push(b.last().push(right.last())));
        }
    }
}

/// A text with a separator is split in front of the last one and behind it.
pub proof fn lemma_split_last(text: Seq<char>, separator: char) -> (at: int)
    requires
        text.contains(separator),
    ensures
        0 <= at < text.len(),
        text[at] == separator,
        !text.skip(at + 1).contains(separator),
        split(text, separator) == split(text.take(at), separator).push(text.skip(at + 1)),
    decreases text.len(),
{
    let i = choose|i: int| 0 <= i < text.len() && text[i] == separator;
    let rest = text.skip(i + 1);
    if rest.contains(separator) {
        let k = lemma_split_last(rest, separator);
        let at = i + 1 + k;
        assert(text.skip(at + 1) =~= rest.skip(k + 1));
        lemma_split_whole(text.skip(at + 1), separator);
        lemma_split_at_separator(text.take(at), text.skip(at + 1), separator);
        assert(text =~= text.take(at).push(separator) + text.skip(at + 1));
        assert(split(text.take(at), separator) + seq![text.skip(at + 1)] =~= split(
            text.take(at),
            separator,
        ).push(text.skip(at + 1)));
        at
    } else {
        lemma_split_whole(rest, separator);
        lemma_split_at_separator(text.take(i), rest, separator);
        assert(text =~= text.take(i).push(separator) + rest);
        assert(split(text.take(i), separator) + seq![rest] =~= split(text.take(i), separator).push(
            rest,
        ));
        i
    }
}

/// A pattern stands in a text where the characters are the same.
pub proof fn lemma_occurs_at(text: Seq<char>, pattern: Seq<char>, at: int)
    ensures
        occurs_at(text, pattern, at) <==> {
            &&& 0 <= at
            &&& at + pattern.len() <= text.len()
            &&& forall|i: int| 0 <= i < pattern.len() ==> #[trigger] text[at + i] == pattern[i]
        },
{
    if 0 <= at && at + pattern.len() <= text.len() {
        let part = text.subrange(at, at + pattern.len());
        if occurs_at(text, pattern, at) {
            assert forall|i: int| 0 <= i < pattern.len() implies #[trigger] text[at + i]
                == pattern[i] by {
                assert(part[i] == text[at + i]);
            }
        }
        if forall|i: int| 0 <= i < pattern.len() ==> #[trigger] text[at + i] == pattern[i] {
            assert forall|i: int| 0 <= i < pattern.len() implies part[i] == pattern[i] by {
                assert(text[at + i] == pattern[i]);
            }
            assert(part =~= pattern);
        }
    }
}

} // verus!
