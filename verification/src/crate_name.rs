//! Which Rust crate a symbol comes from, as far as its path and its name tell.

use crate::source_path::{components, names, normalized, with_slashes, without_prefix};
use crate::text::{
    before_first, chars_of, find, first_char, is_ascii_number, last_index, occurs, occurs_at,
    occurs_first_at, optional_text, same_text, string_of, texts, trim_start,
};
use vstd::prelude::*;
use vstd::slice::slice_subrange;
use vstd::string::StrSliceExecFns;

verus! {

/// Whether `char::is_alphabetic` holds of a character.
pub uninterp spec fn unicode_alphabetic(ch: char) -> bool;

/// Whether `char::is_alphanumeric` holds of a character.
pub uninterp spec fn unicode_alphanumeric(ch: char) -> bool;

/// Whether `char::is_whitespace` holds of a character.
pub uninterp spec fn unicode_whitespace(ch: char) -> bool;

/// `char::is_alphabetic` tells whether the character has the Unicode property `Alphabetic`,
/// which depends on the character alone.
pub assume_specification[ char::is_alphabetic ](ch: char) -> (result: bool)
    ensures
        result == unicode_alphabetic(ch),
;

/// `char::is_alphanumeric` tells whether the character is a letter or a number in Unicode's
/// terms, which depends on the character alone. It holds of every alphabetic character.
pub assume_specification[ char::is_alphanumeric ](ch: char) -> (result: bool)
    ensures
        result == unicode_alphanumeric(ch),
        unicode_alphabetic(ch) ==> result,
;

/// `char::is_whitespace` tells whether the character has the Unicode property `White_Space`,
/// which depends on the character alone.
pub assume_specification[ char::is_whitespace ](ch: char) -> (result: bool)
    ensures
        result == unicode_whitespace(ch),
;

/// Whether a character is an ASCII letter.
pub open spec fn is_ascii_letter(ch: char) -> bool {
    'a' <= ch && ch <= 'z' || 'A' <= ch && ch <= 'Z'
}

/// Whether a character is a letter. Of ASCII characters the letters are spelled out.
pub open spec fn is_letter(ch: char) -> bool {
    if ch <= '\x7f' {
        is_ascii_letter(ch)
    } else {
        unicode_alphabetic(ch)
    }
}

/// Whether a character is a letter or a number. Of ASCII characters these are spelled out.
pub open spec fn is_letter_or_number(ch: char) -> bool {
    if ch <= '\x7f' {
        is_ascii_letter(ch) || is_ascii_number(ch)
    } else {
        unicode_alphanumeric(ch)
    }
}

/// Whether a character is white space. Of ASCII characters these are the space and the
/// characters from tab to carriage return.
pub open spec fn is_blank(ch: char) -> bool {
    if ch <= '\x7f' {
        ch == ' ' || '\t' <= ch && ch <= '\r'
    } else {
        unicode_whitespace(ch)
    }
}

/// `text` without the white space at its front.
pub open spec fn without_leading_blanks(text: Seq<char>) -> Seq<char>
    decreases text.len(),
{
    if text.len() > 0 && is_blank(text[0]) {
        without_leading_blanks(text.drop_first())
    } else {
        text
    }
}

/// `text` without the white space at its end.
pub open spec fn without_trailing_blanks(text: Seq<char>) -> Seq<char>
    decreases text.len(),
{
    if text.len() > 0 && is_blank(text.last()) {
        without_trailing_blanks(text.drop_last())
    } else {
        text
    }
}

/// `text` without the white space around it.
pub open spec fn trimmed(text: Seq<char>) -> Seq<char> {
    without_trailing_blanks(without_leading_blanks(text))
}

/// Whether a text can be the name of a crate: it begins with a letter or an underscore, and
/// goes on with letters, numbers, underscores and hyphens.
pub open spec fn is_crate_name(value: Seq<char>) -> bool {
    &&& value.len() > 0
    &&& is_letter(value[0]) || value[0] == '_'
    &&& forall|i: int|
        0 <= i < value.len() ==> is_letter_or_number(#[trigger] value[i]) || value[i] == '_'
            || value[i] == '-'
}

/// Whether the version in a name like `name-1.2.3` begins behind the hyphen at `dash`.
pub open spec fn is_version_dash(value: Seq<char>, dash: int) -> bool {
    &&& 0 < dash
    &&& dash + 1 < value.len()
    &&& value[dash] == '-'
    &&& is_ascii_number(value[dash + 1])
}

/// Whether `dash` is the last hyphen behind which a version begins.
pub open spec fn is_last_version_dash(value: Seq<char>, dash: int) -> bool {
    &&& is_version_dash(value, dash)
    &&& forall|later: int| dash < later < value.len() ==> !is_version_dash(value, later)
}

/// The name in front of the version, if there is a version.
pub open spec fn name_without_version(value: Seq<char>) -> Option<Seq<char>> {
    if exists|dash: int| is_last_version_dash(value, dash) {
        Some(value.take(choose|dash: int| is_last_version_dash(value, dash)))
    } else {
        None
    }
}

/// The crate that a path in a registry belongs to.
pub open spec fn registry_crate(path: Seq<Seq<char>>) -> Option<Seq<char>> {
    if path.len() > 1 && path[0] == "cargo-registry"@ {
        name_without_version(path[1])
    } else {
        None
    }
}

/// The crate whose `src` directory a path goes through.
pub open spec fn local_crate(path: Seq<Seq<char>>) -> Option<Seq<char>> {
    match path.index_of_last("src"@) {
        Some(src) => if src > 0 && is_crate_name(path[src - 1]) {
            Some(path[src - 1])
        } else {
            None
        },
        None => None,
    }
}

/// The crate that the path of an item names first.
pub open spec fn symbol_crate(symbol: Seq<char>) -> Option<Seq<char>> {
    let namespace = trimmed(before_first(trim_start(symbol, '<'), "::"@));
    if occurs(symbol, "::"@) && is_crate_name(namespace) {
        Some(namespace)
    } else {
        None
    }
}

/// The crate that a symbol comes from: what a registry path says, else what a path through a
/// `src` directory says, else what the name of the symbol says.
pub open spec fn inferred_crate(symbol: Seq<char>, path: Seq<Seq<char>>) -> Option<Seq<char>> {
    match registry_crate(path) {
        Some(name) => Some(name),
        None => match local_crate(path) {
            Some(name) => Some(name),
            None => symbol_crate(symbol),
        },
    }
}

/// Whether a text can be the name of a crate.
pub fn valid_crate_name(value: &str) -> (valid: bool)
    ensures
        valid == is_crate_name(value@),
{
    let first = match first_char(value) {
        Some(ch) => ch,
        None => return false,
    };
    if !(alphabetic(first) || first == '_') {
        return false;
    }
    for ch in it: value.chars()
        invariant
            it.seq() == value@,
            forall|i: int|
                0 <= i < it.index() ==> is_letter_or_number(#[trigger] value@[i]) || value@[i]
                    == '_' || value@[i] == '-',
    {
        assert(ch == value@[it.index()]);
        if !(alphanumeric(ch) || ch == '_' || ch == '-') {
            return false;
        }
    }
    true
}

/// Whether a character is a letter.
fn alphabetic(ch: char) -> (result: bool)
    ensures
        result == is_letter(ch),
{
    if ch <= '\x7f' {
        'a' <= ch && ch <= 'z' || 'A' <= ch && ch <= 'Z'
    } else {
        ch.is_alphabetic()
    }
}

/// Whether a character is a letter or a number.
fn alphanumeric(ch: char) -> (result: bool)
    ensures
        result == is_letter_or_number(ch),
{
    if ch <= '\x7f' {
        'a' <= ch && ch <= 'z' || 'A' <= ch && ch <= 'Z' || '0' <= ch && ch <= '9'
    } else {
        ch.is_alphanumeric()
    }
}

/// Whether a character is white space.
fn blank(ch: char) -> (result: bool)
    ensures
        result == is_blank(ch),
{
    if ch <= '\x7f' {
        ch == ' ' || '\t' <= ch && ch <= '\r'
    } else {
        ch.is_whitespace()
    }
}

/// The text without the white space around it.
fn trim(text: &[char]) -> (result: &[char])
    ensures
        result@ == trimmed(text@),
{
    let mut from: usize = 0;
    assert(text@.skip(0) =~= text@);
    while from < text.len() && blank(text[from])
        invariant
            from <= text.len(),
            without_leading_blanks(text@.skip(from as int)) == without_leading_blanks(text@),
        decreases text.len() - from,
    {
        assert(text@.skip(from as int).drop_first() =~= text@.skip(from + 1));
        from = from + 1;
    }
    let ghost front = text@.skip(from as int);
    let mut to: usize = text.len();
    assert(front == without_leading_blanks(text@)) by {
        if from < text.len() {
            assert(front[0] == text@[from as int]);
        }
    }
    assert(text@.subrange(from as int, to as int) =~= front);
    while from < to && blank(text[to - 1])
        invariant
            from <= to <= text.len(),
            without_trailing_blanks(text@.subrange(from as int, to as int))
                == without_trailing_blanks(front),
        decreases to,
    {
        assert(text@.subrange(from as int, to as int).drop_last() =~= text@.subrange(
            from as int,
            to - 1,
        ));
        to = to - 1;
    }
    slice_subrange(text, from, to)
}

/// The name in front of the version, if there is a version.
pub fn strip_crate_version(value: &str) -> (name: Option<&str>)
    ensures
        (match name {
            Some(name) => Some(name@),
            None => None,
        }) == name_without_version(value@),
{
    let chars = chars_of(value);
    let mut dash: usize = chars.len();
    while dash > 1
        invariant
            chars@ == value@,
            dash <= chars.len(),
            forall|later: int|
                dash <= later < value@.len() ==> !#[trigger] is_version_dash(value@, later),
        decreases dash,
    {
        dash = dash - 1;
        if chars[dash] == '-' && chars.len() - dash > 1 && '0' <= chars[dash + 1] && chars[dash + 1]
            <= '9' {
            assert(is_last_version_dash(value@, dash as int));
            assert forall|other: int| is_last_version_dash(value@, other) implies other
                == dash by {
                if other < dash {
                    assert(!is_version_dash(value@, dash as int));
                }
            }
            return Some(value.substring_char(0, dash));
        }
        assert(!is_version_dash(value@, dash as int));
    }
    None
}

/// The crate that the path of an item names first.
fn crate_of_symbol(symbol: &str) -> (name: Option<String>)
    ensures
        optional_text(name) == symbol_crate(symbol@),
{
    let chars = chars_of(symbol);
    let separator = chars_of("::");
    if find(chars.as_slice(), separator.as_slice()).is_none() {
        return None;
    }
    let mut from: usize = 0;
    assert(symbol@.skip(0) =~= symbol@);
    while from < chars.len() && chars[from] == '<'
        invariant
            chars@ == symbol@,
            from <= chars.len(),
            trim_start(symbol@.skip(from as int), '<') == trim_start(symbol@, '<'),
            forall|i: int| 0 <= i < from ==> symbol@[i] == '<',
        decreases chars.len() - from,
    {
        assert(symbol@.skip(from as int).drop_first() =~= symbol@.skip(from + 1));
        from = from + 1;
    }
    let rest = slice_subrange(chars.as_slice(), from, chars.len());
    assert(rest@ =~= symbol@.skip(from as int));
    assert(rest@ == trim_start(symbol@, '<')) by {
        if from < chars.len() {
            assert(rest@[0] == symbol@[from as int]);
        }
    }
    proof {
        reveal_strlit("::");
        let at = choose|at: int| occurs_at(symbol@, "::"@, at);
        assert(symbol@.subrange(at, at + 2)[0] == symbol@[at]);
        assert(symbol@.subrange(at, at + 2) =~= rest@.subrange(at - from, at - from + 2));
        assert(occurs_at(rest@, "::"@, at - from));
    }
    match find(rest, separator.as_slice()) {
        Some(at) => {
            assert(before_first(rest@, "::"@) == rest@.take(at as int)) by {
                let other = choose|other: int| occurs_first_at(rest@, "::"@, other);
                assert(occurs_first_at(rest@, "::"@, other));
                if other < at {
                    assert(!occurs_at(rest@, "::"@, other));
                } else if at < other {
                    assert(!occurs_at(rest@, "::"@, at as int));
                }
            }
            assert(rest@.subrange(0, at as int) =~= rest@.take(at as int));
            let namespace = string_of(trim(slice_subrange(rest, 0, at)));
            if valid_crate_name(namespace.as_str()) {
                Some(namespace)
            } else {
                None
            }
        },
        None => None,
    }
}

/// The crate that a symbol comes from, by its path or else by its name.
pub fn infer_crate_name(symbol: &str, path: &[String]) -> (name: Option<String>)
    ensures
        optional_text(name) == inferred_crate(symbol@, texts(path@)),
{
    let ghost parts = texts(path@);
    if path.len() > 1 && same_text(path[0].as_str(), "cargo-registry") {
        if let Some(name) = strip_crate_version(path[1].as_str()) {
            return Some(name.to_string());
        }
    }
    proof {
        parts.index_of_last_ensures("src"@);
    }
    if let Some(src) = last_index(path, "src") {
        if src > 0 && valid_crate_name(path[src - 1].as_str()) {
            return Some(path[src - 1].clone());
        }
    }
    crate_of_symbol(symbol)
}

/// The names that come from a `src` directory or from a symbol are names of crates.
pub proof fn law_inferred_names_are_crate_names(symbol: Seq<char>, path: Seq<Seq<char>>)
    requires
        registry_crate(path) is None,
    ensures
        inferred_crate(symbol, path) matches Some(name) ==> is_crate_name(name),
{
}

/// A version is stripped: of `name-version` the name is left, where the version begins with a
/// digit and holds no further hyphen in front of a digit.
pub proof fn law_version_is_stripped(name: Seq<char>, version: Seq<char>)
    requires
        name.len() > 0,
        version.len() > 0,
        is_ascii_number(version[0]),
        forall|i: int| 0 <= i < version.len() ==> !#[trigger] is_version_dash(version, i),
    ensures
        name_without_version(name + seq!['-'] + version) == Some(name),
{
    let value = name + seq!['-'] + version;
    let dash = name.len() as int;
    assert forall|later: int| dash < later < value.len() implies !is_version_dash(value, later) by {
        let inside = later - dash - 1;
        assert(value[later] == version[inside]);
        if inside + 1 < version.len() {
            assert(value[later + 1] == version[inside + 1]);
            assert(!is_version_dash(version, inside));
        }
    }
    assert(is_last_version_dash(value, dash));
    let chosen = choose|chosen: int| is_last_version_dash(value, chosen);
    assert(is_last_version_dash(value, chosen));
    if chosen < dash {
        assert(!is_version_dash(value, dash));
    }
    assert(value.take(dash) =~= name);
}

/// Source files of crates from a registry are attributed to the crate, without its version: a
/// file under `registry/src/<index>/<name>-<version>` belongs to `name`, whatever the symbol is
/// called. The path must be short enough to be kept whole.
pub proof fn law_registry_sources_are_attributed(
    source: Seq<char>,
    strip_prefixes: Seq<Seq<char>>,
    front: Seq<Seq<char>>,
    index: Seq<char>,
    name: Seq<char>,
    version: Seq<char>,
    rest: Seq<Seq<char>>,
    symbol: Seq<char>,
)
    requires
        names(without_prefix(components(with_slashes(source)), strip_prefixes)) == front + seq![
            "registry"@,
            "src"@,
            index,
            name + seq!['-'] + version,
        ] + rest,
        !front.contains("registry"@),
        !front.contains("RIOT"@),
        index != "RIOT"@,
        name + seq!['-'] + version != "RIOT"@,
        !rest.contains("RIOT"@),
        rest.len() <= 5,
        name.len() > 0,
        version.len() > 0,
        is_ascii_number(version[0]),
        forall|i: int| 0 <= i < version.len() ==> !#[trigger] is_version_dash(version, i),
    ensures
        normalized(source, strip_prefixes) == seq![
            "cargo-registry"@,
            name + seq!['-'] + version,
        ] + rest,
        inferred_crate(symbol, normalized(source, strip_prefixes)) == Some(name),
{
    let directory = name + seq!['-'] + version;
    let names = front + seq!["registry"@, "src"@, index, directory] + rest;
    let at = front.len() as int;
    reveal_strlit("RIOT");
    reveal_strlit("registry");
    reveal_strlit("src");
    assert("registry"@.len() == 8 && "src"@.len() == 3 && "RIOT"@.len() == 4);
    assert(!names.contains("RIOT"@)) by {
        if names.contains("RIOT"@) {
            let i = choose|i: int| 0 <= i < names.len() && names[i] == "RIOT"@;
            if i < at {
                assert(front[i] == "RIOT"@);
            } else if i >= at + 4 {
                assert(rest[i - at - 4] == "RIOT"@);
            }
        }
    }
    names.index_of_last_ensures("RIOT"@);
    assert(names[at] == "registry"@);
    names.index_of_first_ensures("registry"@);
    assert(names.index_of_first("registry"@) == Some(at)) by {
        let first = names.index_of_first("registry"@).unwrap();
        if first < at {
            assert(front[first] == "registry"@);
        }
    }
    assert(names[at + 1] == "src"@);
    let expected = seq!["cargo-registry"@, directory] + rest;
    assert(seq!["cargo-registry"@] + names.skip(at + 3) =~= expected);
    assert(expected[1] == directory);
    law_version_is_stripped(name, version);
}

} // verus!
