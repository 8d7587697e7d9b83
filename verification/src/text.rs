//! Text as sequences of characters.
//!
//! Contracts in this crate speak of a string through its view, a `Seq<char>`.
//! The functions here move between strings and characters and search in them.

use vstd::prelude::*;

verus! {

/// `String::push` appends the character to the end of the string.
pub assume_specification[ String::push ](text: &mut String, ch: char)
    ensures
        final(text)@ == old(text)@.push(ch),
;

/// The texts that a sequence of strings holds.
pub open spec fn texts(strings: Seq<String>) -> Seq<Seq<char>> {
    strings.map_values(|text: String| text@)
}

/// What an optional string holds.
pub open spec fn optional_text(text: Option<String>) -> Option<Seq<char>> {
    match text {
        Some(text) => Some(text@),
        None => None,
    }
}

/// Whether `pattern` stands in `text` at position `at`.
pub open spec fn occurs_at(text: Seq<char>, pattern: Seq<char>, at: int) -> bool {
    &&& 0 <= at
    &&& at + pattern.len() <= text.len()
    &&& text.subrange(at, at + pattern.len()) == pattern
}

/// Whether `pattern` stands anywhere in `text`.
pub open spec fn occurs(text: Seq<char>, pattern: Seq<char>) -> bool {
    exists|at: int| occurs_at(text, pattern, at)
}

/// Whether `at` is the leftmost position of `pattern` in `text`.
pub open spec fn occurs_first_at(text: Seq<char>, pattern: Seq<char>, at: int) -> bool {
    &&& occurs_at(text, pattern, at)
    &&& forall|earlier: int| 0 <= earlier < at ==> !occurs_at(text, pattern, earlier)
}

/// The text in front of the leftmost `pattern`.
pub open spec fn before_first(text: Seq<char>, pattern: Seq<char>) -> Seq<char>
    recommends
        occurs(text, pattern),
{
    text.take(choose|at: int| occurs_first_at(text, pattern, at))
}

/// Dictionary order of sequences: the first place where they differ decides by `below`, and
/// where there is none the shorter one comes first.
pub open spec fn sequence_at_most<T>(
    left: Seq<T>,
    right: Seq<T>,
    below: spec_fn(T, T) -> bool,
) -> bool
    decreases left.len(),
{
    if left.len() == 0 {
        true
    } else if right.len() == 0 {
        false
    } else if left[0] == right[0] {
        sequence_at_most(left.drop_first(), right.drop_first(), below)
    } else {
        below(left[0], right[0])
    }
}

/// Whether `below` puts any two different values into one order.
pub open spec fn is_strict_order<T>(below: spec_fn(T, T) -> bool) -> bool {
    &&& forall|a: T, b: T| #![trigger below(a, b)] a != b ==> below(a, b) != below(b, a)
    &&& forall|a: T| !#[trigger] below(a, a)
    &&& forall|a: T, b: T, c: T|
        #[trigger] below(a, b) && #[trigger] below(b, c) ==> below(a, c)
}

/// Dictionary order compares any two sequences.
pub proof fn lemma_sequence_total<T>(left: Seq<T>, right: Seq<T>, below: spec_fn(T, T) -> bool)
    requires
        is_strict_order(below),
    ensures
        sequence_at_most(left, right, below) || sequence_at_most(right, left, below),
    decreases left.len(),
{
    if left.len() > 0 && right.len() > 0 {
        if left[0] == right[0] {
            lemma_sequence_total(left.drop_first(), right.drop_first(), below);
        } else {
            assert(below(left[0], right[0]) != below(right[0], left[0]));
        }
    }
}

/// Dictionary order is transitive.
pub proof fn lemma_sequence_transitive<T>(
    low: Seq<T>,
    middle: Seq<T>,
    high: Seq<T>,
    below: spec_fn(T, T) -> bool,
)
    requires
        is_strict_order(below),
        sequence_at_most(low, middle, below),
        sequence_at_most(middle, high, below),
    ensures
        sequence_at_most(low, high, below),
    decreases low.len(),
{
    if low.len() > 0 && middle.len() > 0 && high.len() > 0 {
        if low[0] == middle[0] && middle[0] == high[0] {
            lemma_sequence_transitive(
                low.drop_first(),
                middle.drop_first(),
                high.drop_first(),
                below,
            );
        } else if low[0] == high[0] {
            assert(below(low[0], middle[0]) != below(middle[0], low[0]));
        }
    }
}

/// Sequences that dictionary order puts in front of each other are equal.
pub proof fn lemma_sequence_antisymmetric<T>(
    left: Seq<T>,
    right: Seq<T>,
    below: spec_fn(T, T) -> bool,
)
    requires
        is_strict_order(below),
        sequence_at_most(left, right, below),
        sequence_at_most(right, left, below),
    ensures
        left == right,
    decreases left.len(),
{
    if left.len() > 0 && right.len() > 0 {
        if left[0] == right[0] {
            lemma_sequence_antisymmetric(left.drop_first(), right.drop_first(), below);
            assert(left =~= seq![left[0]] + left.drop_first());
            assert(right =~= seq![right[0]] + right.drop_first());
        } else {
            assert(below(left[0], right[0]) != below(right[0], left[0]));
        }
    } else {
        assert(left =~= right);
    }
}

/// Characters are ordered by their code points.
pub proof fn lemma_char_order()
    ensures
        is_strict_order(|a: char, b: char| a < b),
{
}

/// Dictionary order of texts, by the code points of their characters.
pub open spec fn text_at_most(left: Seq<char>, right: Seq<char>) -> bool {
    sequence_at_most(left, right, |a: char, b: char| a < b)
}

/// An ASCII capital turned into its small letter; every other character as it is.
pub open spec fn ascii_lowercase_char(ch: char) -> char {
    if 'A' <= ch && ch <= 'Z' {
        (ch as u32 + 32) as char
    } else {
        ch
    }
}

/// `text` with every ASCII capital turned into its small letter.
pub open spec fn ascii_lowercase(text: Seq<char>) -> Seq<char> {
    text.map_values(|ch: char| ascii_lowercase_char(ch))
}

/// `text` without the `ch` that stand at its front.
pub open spec fn trim_start(text: Seq<char>, ch: char) -> Seq<char>
    decreases text.len(),
{
    if text.len() > 0 && text[0] == ch {
        trim_start(text.drop_first(), ch)
    } else {
        text
    }
}

/// The pieces of `text` between the `separator` characters: one more than there are
/// separators, empty pieces among them.
pub open spec fn split(text: Seq<char>, separator: char) -> Seq<Seq<char>>
    decreases text.len(),
{
    if text.len() == 0 {
        seq![Seq::<char>::empty()]
    } else {
        let pieces = split(text.drop_last(), separator);
        if text.last() == separator {
            pieces.push(Seq::<char>::empty())
        } else {
            pieces.drop_last().push(pieces.last().push(text.last()))
        }
    }
}

/// Whether a character is an ASCII digit.
pub open spec fn is_ascii_number(ch: char) -> bool {
    '0' <= ch && ch <= '9'
}

/// The decimal digits of a number.
pub open spec fn decimal(number: nat) -> Seq<char>
    decreases number,
{
    let digit = (48 + number % 10) as char;
    if number < 10 {
        seq![digit]
    } else {
        decimal(number / 10).push(digit)
    }
}

/// A split text has at least one piece.
pub proof fn lemma_split_has_a_piece(text: Seq<char>, separator: char)
    ensures
        split(text, separator).len() >= 1,
    decreases text.len(),
{
    if text.len() > 0 {
        lemma_split_has_a_piece(text.drop_last(), separator);
    }
}

/// The characters of a string.
pub fn chars_of(text: &str) -> (chars: Vec<char>)
    ensures
        chars@ == text@,
{
    let mut chars: Vec<char> = Vec::new();
    for ch in it: text.chars()
        invariant
            it.seq() == text@,
            chars@ == text@.take(it.index()),
    {
        chars.push(ch);
    }
    chars
}

/// The first character of a string.
pub fn first_char(text: &str) -> (first: Option<char>)
    ensures
        first == if text@.len() > 0 {
            Some(text@[0])
        } else {
            None
        },
{
    let mut chars = text.chars();
    chars.next()
}

/// The string that holds these characters.
pub fn string_of(chars: &[char]) -> (text: String)
    ensures
        text@ == chars@,
{
    let mut text = String::new();
    for i in 0..chars.len()
        invariant
            text@ == chars@.take(i as int),
    {
        text.push(chars[i]);
    }
    text
}

/// The pieces of a string between the `separator` characters.
pub fn split_text(text: &str, separator: char) -> (pieces: Vec<String>)
    ensures
        texts(pieces@) == split(text@, separator),
{
    let mut done: Vec<String> = Vec::new();
    let mut piece = String::new();
    assert(texts(done@) =~= Seq::<Seq<char>>::empty());
    assert(texts(done@).push(piece@) =~= split(text@.take(0), separator));
    for ch in it: text.chars()
        invariant
            it.seq() == text@,
            texts(done@).push(piece@) == split(text@.take(it.index()), separator),
    {
        let ghost earlier = text@.take(it.index());
        let ghost now = text@.take(it.index() + 1);
        let ghost pieces = texts(done@).push(piece@);
        proof {
            assert(now.drop_last() =~= earlier);
            assert(now.last() == ch);
            assert(pieces.drop_last() =~= texts(done@));
        }
        if ch == separator {
            done.push(piece);
            piece = String::new();
            assert(texts(done@) =~= pieces);
        } else {
            piece.push(ch);
        }
    }
    assert(text@.take(text@.len() as int) =~= text@);
    let ghost before = done@;
    done.push(piece);
    assert(texts(done@) =~= texts(before).push(piece@));
    done
}

/// Where `text` first stands among the strings.
pub fn first_index(strings: &[String], text: &str) -> (index: Option<usize>)
    ensures
        match index {
            Some(index) => texts(strings@).index_of_first(text@) == Some(index as int),
            None => texts(strings@).index_of_first(text@) is None,
        },
{
    let ghost all = texts(strings@);
    for i in 0..strings.len()
        invariant
            all == texts(strings@),
            forall|j: int| 0 <= j < i ==> #[trigger] all[j] != text@,
    {
        assert(all[i as int] == strings[i as int]@);
        if same_text(strings[i].as_str(), text) {
            assert(all.contains(text@));
            proof {
                all.index_of_first_ensures(text@);
            }
            return Some(i);
        }
    }
    proof {
        all.index_of_first_ensures(text@);
    }
    None
}

/// Where `text` last stands among the strings.
pub fn last_index(strings: &[String], text: &str) -> (index: Option<usize>)
    ensures
        match index {
            Some(index) => texts(strings@).index_of_last(text@) == Some(index as int),
            None => texts(strings@).index_of_last(text@) is None,
        },
{
    let ghost all = texts(strings@);
    let mut i: usize = strings.len();
    while i > 0
        invariant
            all == texts(strings@),
            i <= strings.len(),
            forall|j: int| i <= j < strings.len() ==> #[trigger] all[j] != text@,
        decreases i,
    {
        i = i - 1;
        assert(all[i as int] == strings[i as int]@);
        if same_text(strings[i].as_str(), text) {
            assert(all.contains(text@));
            proof {
                all.index_of_last_ensures(text@);
            }
            return Some(i);
        }
    }
    proof {
        all.index_of_last_ensures(text@);
    }
    None
}

/// Whether two character slices are equal.
pub fn chars_equal(left: &[char], right: &[char]) -> (equal: bool)
    ensures
        equal == (left@ == right@),
{
    if left.len() != right.len() {
        return false;
    }
    for i in 0..left.len()
        invariant
            left.len() == right.len(),
            forall|j: int| 0 <= j < i ==> left[j] == right[j],
    {
        if left[i] != right[i] {
            return false;
        }
    }
    assert(left@ =~= right@);
    true
}

/// Whether two strings hold the same text.
pub fn same_text(left: &str, right: &str) -> (equal: bool)
    ensures
        equal == (left@ == right@),
{
    chars_equal(chars_of(left).as_slice(), chars_of(right).as_slice())
}

/// Whether `left` comes before `right` in dictionary order, or is the same text.
pub fn is_text_at_most(left: &str, right: &str) -> (result: bool)
    ensures
        result == text_at_most(left@, right@),
{
    let a = chars_of(left);
    let b = chars_of(right);
    let mut i: usize = 0;
    assert(left@.skip(0) =~= left@);
    assert(right@.skip(0) =~= right@);
    while i < a.len() && i < b.len() && a[i] == b[i]
        invariant
            a@ == left@,
            b@ == right@,
            i <= a.len(),
            i <= b.len(),
            text_at_most(left@, right@) == text_at_most(left@.skip(i as int), right@.skip(i as int)),
        decreases a.len() - i,
    {
        assert(left@.skip(i as int).drop_first() =~= left@.skip(i + 1));
        assert(right@.skip(i as int).drop_first() =~= right@.skip(i + 1));
        i = i + 1;
    }
    if i == a.len() {
        true
    } else if i == b.len() {
        false
    } else {
        a[i] < b[i]
    }
}

/// Whether `pattern` stands in `text` at position `at`.
pub fn stands_at(text: &[char], pattern: &[char], at: usize) -> (found: bool)
    requires
        at <= text.len(),
    ensures
        found == occurs_at(text@, pattern@, at as int),
{
    if pattern.len() > text.len() - at {
        return false;
    }
    for i in 0..pattern.len()
        invariant
            at + pattern.len() <= text.len(),
            forall|j: int| 0 <= j < i ==> text[at + j] == pattern[j],
    {
        if text[at + i] != pattern[i] {
            assert(text@.subrange(at as int, at + pattern.len())[i as int] != pattern[i as int]);
            return false;
        }
    }
    assert(text@.subrange(at as int, at + pattern.len()) =~= pattern@);
    true
}

/// The leftmost position of `pattern` in `text`.
pub fn find(text: &[char], pattern: &[char]) -> (at: Option<usize>)
    ensures
        match at {
            Some(at) => occurs_first_at(text@, pattern@, at as int),
            None => !occurs(text@, pattern@),
        },
{
    for at in 0..text.len()
        invariant
            forall|earlier: int| 0 <= earlier < at ==> !occurs_at(text@, pattern@, earlier),
    {
        if stands_at(text, pattern, at) {
            return Some(at);
        }
    }
    let at: usize = text.len();
    if stands_at(text, pattern, at) {
        Some(at)
    } else {
        None
    }
}

/// Whether `pattern` stands anywhere in `text`.
pub fn contains(text: &str, pattern: &str) -> (found: bool)
    ensures
        found == occurs(text@, pattern@),
{
    find(chars_of(text).as_slice(), chars_of(pattern).as_slice()).is_some()
}

/// Whether `text` begins with `prefix`.
pub fn starts_with(text: &str, prefix: &str) -> (found: bool)
    ensures
        found == prefix@.is_prefix_of(text@),
{
    stands_at(chars_of(text).as_slice(), chars_of(prefix).as_slice(), 0)
}

/// `text` with every ASCII capital turned into its small letter.
pub fn to_ascii_lowercase(text: &str) -> (lower: String)
    ensures
        lower@ == ascii_lowercase(text@),
{
    let mut lower = String::new();
    for ch in it: text.chars()
        invariant
            it.seq() == text@,
            lower@ == ascii_lowercase(text@).take(it.index()),
    {
        if 'A' <= ch && ch <= 'Z' {
            lower.push((ch as u8 + 32) as char);
        } else {
            lower.push(ch);
        }
    }
    lower
}

/// The decimal digits of a number.
pub fn decimal_text(number: u64) -> (text: String)
    ensures
        text@ == decimal(number as nat),
    decreases number,
{
    let mut text = if number < 10 {
        String::new()
    } else {
        decimal_text(number / 10)
    };
    let ghost front = text@;
    let digit: u8 = (number % 10) as u8;
    text.push((48 + digit) as char);
    assert(text@ =~= front.push((48 + number % 10) as char));
    text
}

} // verus!
