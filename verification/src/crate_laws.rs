//! What holds of every crate that is inferred, in terms of the characters of the names.

use crate::crate_name::{
    inferred_crate, is_blank, is_crate_name, is_last_version_dash, is_version_dash,
    law_version_is_stripped, local_crate, name_without_version, registry_crate,
    trimmed, unicode_alphabetic, unicode_alphanumeric, unicode_whitespace, without_leading_blanks,
    without_trailing_blanks,
};
use crate::path_laws::{are_plain, is_plain, law_crate_files_group_by_their_crate, rooted};
use crate::source_path::normalized;
use crate::text::{before_first, occurs, occurs_at, occurs_first_at, trim_start};
use crate::text_laws::lemma_occurs_at;
use vstd::prelude::*;

verus! {

/// Whether the name of a crate can begin with this character.
pub open spec fn can_begin(ch: char) -> bool {
    ||| 'a' <= ch && ch <= 'z'
    ||| 'A' <= ch && ch <= 'Z'
    ||| ch == '_'
    ||| ch > '\x7f' && unicode_alphabetic(ch)
}

/// Whether this character can stand in the name of a crate.
pub open spec fn can_stand(ch: char) -> bool {
    ||| 'a' <= ch && ch <= 'z'
    ||| 'A' <= ch && ch <= 'Z'
    ||| '0' <= ch && ch <= '9'
    ||| ch == '_'
    ||| ch == '-'
    ||| ch > '\x7f' && unicode_alphanumeric(ch)
}

/// Whether a character is white space.
pub open spec fn is_space(ch: char) -> bool {
    ||| ch == ' '
    ||| '\t' <= ch && ch <= '\r'
    ||| ch > '\x7f' && unicode_whitespace(ch)
}

/// Whether a text is white space.
pub open spec fn are_spaces(text: Seq<char>) -> bool {
    forall|i: int| 0 <= i < text.len() ==> is_space(#[trigger] text[i])
}

/// Whether a directory is named like a crate with its version: a hyphen behind some name, and a
/// digit behind the hyphen.
pub open spec fn has_version(text: Seq<char>) -> bool {
    exists|dash: int|
        0 < dash && dash + 1 < text.len() && #[trigger] text[dash] == '-' && '0' <= text[dash + 1]
            && text[dash + 1] <= '9'
}

/// Whether a path goes to a crate in a registry.
pub open spec fn goes_to_registry(path: Seq<Seq<char>>) -> bool {
    path.len() > 1 && path[0] == "cargo-registry"@ && has_version(path[1])
}

/// Whether a path goes through no `src` directory below another directory.
pub open spec fn has_no_sources(path: Seq<Seq<char>>) -> bool {
    forall|i: int| 0 < i < path.len() ==> #[trigger] path[i] != "src"@
}

/// The name of a crate begins with a letter or an underscore, and goes on with letters, numbers,
/// underscores and hyphens.
pub proof fn law_crate_names_have_these_characters(name: Seq<char>)
    ensures
        is_crate_name(name) <==> {
            &&& name.len() > 0
            &&& can_begin(name[0])
            &&& forall|i: int| 0 <= i < name.len() ==> can_stand(#[trigger] name[i])
        },
{
    if is_crate_name(name) {
        assert forall|i: int| 0 <= i < name.len() implies can_stand(#[trigger] name[i]) by {
            assert(crate::crate_name::is_letter_or_number(name[i]) || name[i] == '_' || name[i]
                == '-');
        }
    }
    if name.len() > 0 && can_begin(name[0]) && forall|i: int|
        0 <= i < name.len() ==> can_stand(#[trigger] name[i]) {
        assert forall|i: int| 0 <= i < name.len() implies crate::crate_name::is_letter_or_number(
            #[trigger] name[i],
        ) || name[i] == '_' || name[i] == '-' by {
            assert(can_stand(name[i]));
        }
    }
}

/// A name has a version to strip exactly if a digit follows one of its hyphens, the first character
/// apart.
pub proof fn law_versions_follow_hyphens(text: Seq<char>)
    ensures
        name_without_version(text) is Some <==> has_version(text),
{
    if has_version(text) {
        let dash = choose|dash: int|
            0 < dash && dash + 1 < text.len() && #[trigger] text[dash] == '-' && '0' <= text[dash
                + 1] && text[dash + 1] <= '9';
        lemma_last_version(text, dash);
    }
    if exists|dash: int| is_last_version_dash(text, dash) {
        let dash = choose|dash: int| is_last_version_dash(text, dash);
        assert(text[dash] == '-');
    }
}

proof fn lemma_last_version(text: Seq<char>, dash: int)
    requires
        is_version_dash(text, dash),
    ensures
        exists|last: int| is_last_version_dash(text, last),
    decreases text.len() - dash,
{
    if exists|later: int| dash < later < text.len() && is_version_dash(text, later) {
        let later = choose|later: int| dash < later < text.len() && is_version_dash(text, later);
        lemma_last_version(text, later);
    } else {
        assert(is_last_version_dash(text, dash));
    }
}

proof fn lemma_no_registry(path: Seq<Seq<char>>)
    requires
        !goes_to_registry(path),
    ensures
        registry_crate(path) is None,
{
    if path.len() > 1 && path[0] == "cargo-registry"@ {
        law_versions_follow_hyphens(path[1]);
    }
}

/// Without a path that says more, the crate is what the symbol names in front of its first `::`,
/// less the angle brackets in front of it and the white space around it, where that can be the
/// name of a crate.
pub proof fn law_symbols_name_their_crate(
    brackets: Seq<char>,
    before: Seq<char>,
    name: Seq<char>,
    after: Seq<char>,
    rest: Seq<char>,
    path: Seq<Seq<char>>,
)
    requires
        !goes_to_registry(path),
        has_no_sources(path),
        forall|i: int| 0 <= i < brackets.len() ==> #[trigger] brackets[i] == '<',
        are_spaces(before),
        are_spaces(after),
        name.len() > 0 ==> !is_space(name[0]) && !is_space(name.last()) && name[0] != '<',
        forall|i: int|
            0 <= i < name.len() - 1 ==> !(#[trigger] name[i] == ':' && name[i + 1] == ':'),
        name.len() > 0 && after.len() == 0 ==> name.last() != ':',
    ensures
        inferred_crate(brackets + (before + name + after) + seq![':', ':'] + rest, path) == (if {
            &&& name.len() > 0
            &&& can_begin(name[0])
            &&& forall|i: int| 0 <= i < name.len() ==> can_stand(#[trigger] name[i])
        } {
            Some(name)
        } else {
            None
        }),
{
    let front = before + name + after;
    let symbol = brackets + front + seq![':', ':'] + rest;
    let tail = front + seq![':', ':'] + rest;
    lemma_path_says_nothing(path);
    assert(symbol =~= brackets + tail);
    assert(tail.len() > 0 && tail[0] != '<') by {
        if before.len() > 0 {
            assert(tail[0] == before[0] && is_space(before[0]));
        } else if name.len() > 0 {
            assert(tail[0] == name[0]);
        } else if after.len() > 0 {
            assert(tail[0] == after[0] && is_space(after[0]));
        }
    }
    lemma_brackets_fall_away(brackets, tail);
    assert forall|i: int| 0 <= i < front.len() implies !(#[trigger] front[i] == ':' && (i + 1
        == front.len() || front[i + 1] == ':')) by {
        let to = before.len() as int;
        let end = to + name.len();
        if i < to {
            assert(is_space(before[i]));
        } else if i >= end {
            assert(front[i] == after[i - end] && is_space(after[i - end]));
        } else if i + 1 < end {
            assert(front[i] == name[i - to] && front[i + 1] == name[i - to + 1]);
        } else {
            assert(front[i] == name.last());
            if after.len() > 0 {
                assert(front[i + 1] == after[0] && is_space(after[0]));
            }
        }
    }
    lemma_front_of_separator(front, rest);
    reveal_strlit("::");
    assert("::"@ =~= seq![':', ':']);
    let at = brackets.len() + front.len();
    lemma_occurs_at(symbol, "::"@, at as int);
    assert forall|i: int| 0 <= i < "::"@.len() implies #[trigger] symbol[at + i] == "::"@[i] by {}
    assert(occurs_at(symbol, "::"@, at as int));
    lemma_space_falls_away(before, name, after);
    law_crate_names_have_these_characters(name);
}

/// A name made of ASCII letters, digits, underscores and hyphens, which begins with a letter or an
/// underscore, is the crate of every symbol whose path begins with it, and of every file in its
/// `src` directory.
pub proof fn law_ascii_names_are_crates(name: Seq<char>, rest: Seq<char>, file: Seq<char>)
    requires
        name.len() > 0,
        'a' <= name[0] && name[0] <= 'z' || 'A' <= name[0] && name[0] <= 'Z' || name[0] == '_',
        forall|i: int|
            0 <= i < name.len() ==> 'a' <= #[trigger] name[i] && name[i] <= 'z' || 'A' <= name[i]
                && name[i] <= 'Z' || '0' <= name[i] && name[i] <= '9' || name[i] == '_' || name[i]
                == '-',
        file != "src"@,
    ensures
        inferred_crate(name + seq![':', ':'] + rest, Seq::<Seq<char>>::empty()) == Some(name),
        inferred_crate(rest, seq![name, "src"@, file]) == Some(name),
{
    let none = Seq::<char>::empty();
    assert(name.last() == name[name.len() - 1]);
    law_symbols_name_their_crate(none, none, name, none, rest, Seq::<Seq<char>>::empty());
    assert(none + (none + name + none) + seq![':', ':'] + rest =~= name + seq![':', ':'] + rest);
    assert forall|i: int| 0 <= i < name.len() implies can_stand(#[trigger] name[i]) by {}
    let front = Seq::<Seq<char>>::empty();
    assert(!goes_to_registry(seq![name, "src"@, file])) by {
        lemma_src_has_no_version();
    }
    assert(front + seq![name, "src"@] + seq![file] =~= seq![name, "src"@, file]);
    law_sources_name_their_crate(front, name, seq![file], rest);
}

/// A symbol without `::` names no crate.
pub proof fn law_plain_symbols_name_no_crate(symbol: Seq<char>, path: Seq<Seq<char>>)
    requires
        !goes_to_registry(path),
        has_no_sources(path),
        forall|i: int|
            0 <= i < symbol.len() - 1 ==> !(#[trigger] symbol[i] == ':' && symbol[i + 1] == ':'),
    ensures
        inferred_crate(symbol, path) is None,
{
    lemma_path_says_nothing(path);
    reveal_strlit("::");
    if occurs(symbol, "::"@) {
        let at = choose|at: int| occurs_at(symbol, "::"@, at);
        lemma_occurs_at(symbol, "::"@, at);
        assert(symbol[at + 0] == "::"@[0]);
        assert(symbol[at + 1] == "::"@[1]);
        assert(symbol[at] == ':');
    }
}

/// A file in a `src` directory belongs to the crate that the directory around it is named after,
/// whatever the symbol is called. Where that cannot be the name of a crate, the symbol decides.
pub proof fn law_sources_name_their_crate(
    front: Seq<Seq<char>>,
    name: Seq<char>,
    rest: Seq<Seq<char>>,
    symbol: Seq<char>,
)
    requires
        !goes_to_registry(front + seq![name, "src"@] + rest),
        !rest.contains("src"@),
    ensures
        inferred_crate(symbol, front + seq![name, "src"@] + rest) == (if {
            &&& name.len() > 0
            &&& can_begin(name[0])
            &&& forall|i: int| 0 <= i < name.len() ==> can_stand(#[trigger] name[i])
        } {
            Some(name)
        } else {
            inferred_crate(symbol, Seq::<Seq<char>>::empty())
        }),
{
    let path = front + seq![name, "src"@] + rest;
    let at = front.len() + 1;
    lemma_no_registry(path);
    assert(path[at as int] == "src"@);
    path.index_of_last_ensures("src"@);
    let found = path.index_of_last("src"@).unwrap();
    if found > at {
        assert(rest[found - at - 1] == "src"@);
    }
    assert(found == at);
    law_crate_names_have_these_characters(name);
    lemma_path_says_nothing(Seq::<Seq<char>>::empty());
}

/// A path that goes neither to a registry nor through a `src` directory leaves it to the symbol.
pub proof fn law_other_paths_leave_it_to_the_symbol(symbol: Seq<char>, path: Seq<Seq<char>>)
    requires
        !goes_to_registry(path),
        has_no_sources(path),
    ensures
        inferred_crate(symbol, path) == inferred_crate(symbol, Seq::<Seq<char>>::empty()),
{
    lemma_path_says_nothing(path);
    lemma_path_says_nothing(Seq::<Seq<char>>::empty());
}

/// A file in a registry belongs to the crate that its directory is named after, less the version,
/// whatever the symbol is called and whatever directories follow. The version begins behind the
/// last hyphen with a digit behind it.
pub proof fn law_registry_directories_name_their_crate(
    name: Seq<char>,
    version: Seq<char>,
    rest: Seq<Seq<char>>,
    symbol: Seq<char>,
)
    requires
        name.len() > 0,
        version.len() > 0,
        '0' <= version[0] && version[0] <= '9',
        forall|i: int|
            0 <= i < version.len() - 1 ==> !(#[trigger] version[i] == '-' && '0' <= version[i + 1]
                && version[i + 1] <= '9'),
    ensures
        inferred_crate(symbol, seq!["cargo-registry"@, name + seq!['-'] + version] + rest) == Some(
            name,
        ),
{
    let directory = name + seq!['-'] + version;
    let path = seq!["cargo-registry"@, directory] + rest;
    assert(path[0] == "cargo-registry"@ && path[1] == directory);
    assert forall|i: int| 0 <= i < version.len() implies !#[trigger] is_version_dash(
        version,
        i,
    ) by {
        if 0 < i && i + 1 < version.len() {
            assert(!(version[i] == '-' && '0' <= version[i + 1] && version[i + 1] <= '9'));
        }
    }
    law_version_is_stripped(name, version);
}

/// A file in the `src` directory of a crate belongs to the crate, whatever its path begins with.
pub proof fn law_crate_files_belong_to_their_crate(
    front: Seq<Seq<char>>,
    krate: Seq<char>,
    rest: Seq<Seq<char>>,
    symbol: Seq<char>,
)
    requires
        are_plain(front),
        is_plain(krate),
        are_plain(rest),
        !(front.push(krate) + rest).contains("RIOT"@),
        !(front.push(krate) + rest).contains("registry"@),
        !rest.contains("src"@),
        rest.len() <= 5,
        can_begin(krate[0]),
        forall|i: int| 0 <= i < krate.len() ==> can_stand(#[trigger] krate[i]),
    ensures
        inferred_crate(
            symbol,
            normalized(
                rooted(front + seq![krate, "src"@] + rest),
                Seq::<Seq<char>>::empty(),
            ),
        ) == Some(krate),
{
    law_crate_files_group_by_their_crate(front, krate, rest);
    let none = Seq::<Seq<char>>::empty();
    assert(none + seq![krate, "src"@] + rest =~= seq![krate, "src"@] + rest);
    assert(!goes_to_registry(seq![krate, "src"@] + rest)) by {
        lemma_src_has_no_version();
    }
    law_sources_name_their_crate(none, krate, rest, symbol);
}

proof fn lemma_src_has_no_version()
    ensures
        !has_version("src"@),
{
    reveal_strlit("src");
    assert("src"@.len() == 3);
    assert("src"@[1] == 'r');
}

proof fn lemma_path_says_nothing(path: Seq<Seq<char>>)
    requires
        !goes_to_registry(path),
        has_no_sources(path),
    ensures
        registry_crate(path) is None,
        local_crate(path) is None,
{
    lemma_no_registry(path);
    path.index_of_last_ensures("src"@);
    if let Some(src) = path.index_of_last("src"@) {
        assert(path[src] == "src"@);
    }
}

proof fn lemma_brackets_fall_away(brackets: Seq<char>, tail: Seq<char>)
    requires
        forall|i: int| 0 <= i < brackets.len() ==> #[trigger] brackets[i] == '<',
        tail.len() > 0,
        tail[0] != '<',
    ensures
        trim_start(brackets + tail, '<') == tail,
    decreases brackets.len(),
{
    if brackets.len() == 0 {
        assert(brackets + tail =~= tail);
    } else {
        let fewer = brackets.drop_first();
        assert forall|i: int| 0 <= i < fewer.len() implies #[trigger] fewer[i] == '<' by {
            assert(brackets[i + 1] == '<');
        }
        lemma_brackets_fall_away(fewer, tail);
        assert((brackets + tail).drop_first() =~= fewer + tail);
        assert((brackets + tail)[0] == brackets[0]);
    }
}

proof fn lemma_front_of_separator(front: Seq<char>, rest: Seq<char>)
    requires
        forall|i: int|
            0 <= i < front.len() ==> !(#[trigger] front[i] == ':' && (i + 1 == front.len()
                || front[i + 1] == ':')),
    ensures
        before_first(front + seq![':', ':'] + rest, "::"@) == front,
{
    let text = front + seq![':', ':'] + rest;
    let at = front.len() as int;
    reveal_strlit("::");
    assert("::"@.len() == 2);
    lemma_occurs_at(text, "::"@, at);
    assert forall|i: int| 0 <= i < "::"@.len() implies #[trigger] text[at + i] == "::"@[i] by {}
    assert forall|earlier: int| 0 <= earlier < at implies !occurs_at(text, "::"@, earlier) by {
        lemma_occurs_at(text, "::"@, earlier);
        if occurs_at(text, "::"@, earlier) {
            assert(text[earlier + 0] == "::"@[0]);
            assert(text[earlier + 1] == "::"@[1]);
            assert(front[earlier] == ':');
        }
    }
    assert(occurs_first_at(text, "::"@, at));
    let other = choose|other: int| occurs_first_at(text, "::"@, other);
    assert(occurs_first_at(text, "::"@, other));
    if other < at {
        assert(!occurs_at(text, "::"@, other));
    } else if at < other {
        assert(!occurs_at(text, "::"@, at));
    }
    assert(text.take(at) =~= front);
}

proof fn lemma_space_falls_away(before: Seq<char>, name: Seq<char>, after: Seq<char>)
    requires
        are_spaces(before),
        are_spaces(after),
        name.len() > 0 ==> !is_space(name[0]) && !is_space(name.last()),
    ensures
        trimmed(before + name + after) == name,
{
    if name.len() == 0 {
        let all = before + after;
        assert(before + name + after =~= all);
        assert forall|i: int| 0 <= i < all.len() implies is_space(#[trigger] all[i]) by {
            if i < before.len() {
                assert(is_space(before[i]));
            } else {
                assert(is_space(after[i - before.len()]));
            }
        }
        lemma_leading_space(all, name);
        assert(all + name =~= all);
        assert(without_trailing_blanks(name) == name);
    } else {
        lemma_leading_space(before, name + after);
        assert(before + (name + after) =~= before + name + after);
        assert((name + after)[0] == name[0]);
        lemma_trailing_space(name, after);
    }
}

proof fn lemma_leading_space(space: Seq<char>, text: Seq<char>)
    requires
        are_spaces(space),
        text.len() > 0 ==> !is_space(text[0]),
    ensures
        without_leading_blanks(space + text) == text,
    decreases space.len(),
{
    if space.len() == 0 {
        assert(space + text =~= text);
    } else {
        let fewer = space.drop_first();
        assert forall|i: int| 0 <= i < fewer.len() implies is_space(#[trigger] fewer[i]) by {
            assert(is_space(space[i + 1]));
        }
        lemma_leading_space(fewer, text);
        assert((space + text).drop_first() =~= fewer + text);
        assert((space + text)[0] == space[0]);
        assert(is_space(space[0]));
        assert(is_blank(space[0]));
    }
}

proof fn lemma_trailing_space(text: Seq<char>, space: Seq<char>)
    requires
        are_spaces(space),
        text.len() > 0,
        !is_space(text.last()),
    ensures
        without_trailing_blanks(text + space) == text,
    decreases space.len(),
{
    if space.len() == 0 {
        assert(text + space =~= text);
    } else {
        let fewer = space.drop_last();
        assert forall|i: int| 0 <= i < fewer.len() implies is_space(#[trigger] fewer[i]) by {
            assert(is_space(space[i]));
        }
        lemma_trailing_space(text, fewer);
        assert((text + space).drop_last() =~= text + fewer);
        assert((text + space).last() == space.last());
        assert(is_space(space[space.len() - 1]));
        assert(is_blank(space.last()));
    }
}

} // verus!
