//! What holds of every source path: how it comes apart, and what is left of it for grouping.

use crate::source_path::{
    components, grouping, names, normalized, part_below, path_at_most, piece_components,
    with_slashes, without_prefix, PathPart,
};
use crate::text::{lemma_split_has_a_piece, split, text_at_most};
use crate::text_laws::{lemma_split_at_separator, lemma_split_whole};
use vstd::prelude::*;

verus! {

/// A path begins with the root where it begins with a slash. Its first piece is a directory to stay
/// in, to leave, or to enter, and an empty piece is nothing.
pub proof fn law_paths_begin_with_their_first_piece(piece: Seq<char>)
    requires
        !piece.contains('/'),
    ensures
        piece.len() == 0 ==> components(piece) == Seq::<PathPart>::empty(),
        piece == "."@ ==> components(piece) == seq![PathPart::Current],
        piece == ".."@ ==> components(piece) == seq![PathPart::Parent],
        piece.len() > 0 && piece != "."@ && piece != ".."@ ==> components(piece) == seq![
            PathPart::Name(piece),
        ],
        components(seq!['/'] + piece) == seq![PathPart::Root] + (if piece.len() == 0 || piece == "."@ {
            Seq::<PathPart>::empty()
        } else if piece == ".."@ {
            seq![PathPart::Parent]
        } else {
            seq![PathPart::Name(piece)]
        }),
{
    reveal_strlit(".");
    reveal_strlit("..");
    reveal_with_fuel(piece_components, 3);
    lemma_split_whole(piece, '/');
    let none = Seq::<PathPart>::empty();
    assert(seq![piece].drop_last() =~= Seq::<Seq<char>>::empty());
    if piece.len() > 0 {
        assert(piece[0] != '/') by {
            if piece[0] == '/' {
                assert(piece.contains('/'));
            }
        }
    }
    assert(none + piece_components(seq![piece]) =~= piece_components(seq![piece]));
    assert(none.push(PathPart::Current) =~= seq![PathPart::Current]);
    assert(none.push(PathPart::Parent) =~= seq![PathPart::Parent]);
    assert(none.push(PathPart::Name(piece)) =~= seq![PathPart::Name(piece)]);
    let empty = Seq::<char>::empty();
    lemma_split_whole(empty, '/');
    lemma_split_at_separator(empty, piece, '/');
    assert(empty.push('/') + piece =~= seq!['/'] + piece);
    let pieces = seq![empty] + seq![piece];
    assert(pieces.drop_last() =~= seq![empty]);
    assert(seq![empty].drop_last() =~= Seq::<Seq<char>>::empty());
    assert(pieces.len() == 2 && pieces.last() == piece);
    assert(piece_components(seq![empty]) =~= none);
    assert(seq![PathPart::Root] + piece_components(pieces) =~= components(seq!['/'] + piece));
}

/// Each further slash begins a new piece: a directory to leave or to enter, or nothing where the
/// piece is empty or a dot. The pieces in front stay as they are.
pub proof fn law_slashes_begin_pieces(path: Seq<char>, piece: Seq<char>)
    requires
        path.len() > 0,
        !piece.contains('/'),
    ensures
        piece.len() == 0 || piece == "."@ ==> components(path.push('/') + piece) == components(path),
        piece == ".."@ ==> components(path.push('/') + piece) == components(path).push(
            PathPart::Parent,
        ),
        piece.len() > 0 && piece != "."@ && piece != ".."@ ==> components(path.push('/') + piece)
            == components(path).push(PathPart::Name(piece)),
{
    reveal_strlit(".");
    reveal_strlit("..");
    let whole = path.push('/') + piece;
    lemma_split_whole(piece, '/');
    lemma_split_at_separator(path, piece, '/');
    lemma_split_has_a_piece(path, '/');
    let pieces = split(path, '/') + seq![piece];
    assert(pieces.drop_last() =~= split(path, '/'));
    assert(pieces.last() == piece);
    assert(whole[0] == path[0]);
    let root = if path[0] == '/' {
        seq![PathPart::Root]
    } else {
        Seq::<PathPart>::empty()
    };
    let parts = piece_components(split(path, '/'));
    assert(root + parts.push(PathPart::Parent) =~= (root + parts).push(PathPart::Parent));
    assert(root + parts.push(PathPart::Name(piece)) =~= (root + parts).push(
        PathPart::Name(piece),
    ));
}

/// Whether a text is a plain name of a file or directory.
pub open spec fn is_plain(name: Seq<char>) -> bool {
    &&& name.len() > 0
    &&& !name.contains('/')
    &&& !name.contains('\\')
    &&& name != "."@
    &&& name != ".."@
}

/// Whether all of these are plain names.
pub open spec fn are_plain(directories: Seq<Seq<char>>) -> bool {
    forall|i: int| 0 <= i < directories.len() ==> is_plain(#[trigger] directories[i])
}

/// The path that goes through these directories from the root on.
pub open spec fn rooted(directories: Seq<Seq<char>>) -> Seq<char>
    decreases directories.len(),
{
    if directories.len() == 0 {
        Seq::<char>::empty()
    } else {
        rooted(directories.drop_last()).push('/') + directories.last()
    }
}

/// Names are picked part by part.
proof fn lemma_names_push(parts: Seq<PathPart>, part: PathPart)
    ensures
        names(parts.push(part)) == match part {
            PathPart::Name(name) => names(parts).push(name),
            _ => names(parts),
        },
{
    assert(parts.push(part).drop_last() =~= parts);
    if let PathPart::Name(name) = part {
        assert(names(parts.push(part)) =~= names(parts).push(name));
    }
}

proof fn lemma_names_add(left: Seq<PathPart>, right: Seq<PathPart>)
    ensures
        names(left + right) == names(left) + names(right),
    decreases right.len(),
{
    if right.len() == 0 {
        assert(left + right =~= left);
        assert(names(left) + names(right) =~= names(left));
    } else {
        let front = right.drop_last();
        lemma_names_add(left, front);
        assert(left + right =~= (left + front).push(right.last()));
        assert(right =~= front.push(right.last()));
        lemma_names_push(left + front, right.last());
        lemma_names_push(front, right.last());
        if let PathPart::Name(name) = right.last() {
            assert((names(left) + names(front)).push(name) =~= names(left) + names(front).push(
                name,
            ));
        }
    }
}

proof fn lemma_rooted(directories: Seq<Seq<char>>)
    requires
        are_plain(directories),
    ensures
        with_slashes(rooted(directories)) == rooted(directories),
        names(components(rooted(directories))) == directories,
        directories.len() > 0 ==> rooted(directories).len() > 0 && rooted(directories)[0] == '/',
    decreases directories.len(),
{
    if directories.len() == 0 {
        law_paths_begin_with_their_first_piece(Seq::<char>::empty());
        assert(with_slashes(rooted(directories)) =~= rooted(directories));
        assert(names(Seq::<PathPart>::empty()) =~= directories);
    } else {
        let front = directories.drop_last();
        let last = directories.last();
        assert(is_plain(directories[directories.len() - 1]));
        assert forall|i: int| 0 <= i < front.len() implies is_plain(#[trigger] front[i]) by {
            assert(is_plain(directories[i]));
        }
        lemma_rooted(front);
        let path = rooted(directories);
        assert forall|i: int| 0 <= i < path.len() implies #[trigger] with_slashes(path)[i]
            == path[i] by {
            let before = rooted(front);
            if i < before.len() {
                assert(with_slashes(before)[i] == before[i]);
                assert(path[i] == before[i]);
            } else if i > before.len() {
                assert(path[i] == last[i - before.len() - 1]);
                assert(last.contains(path[i]));
            }
        }
        assert(with_slashes(path) =~= path);
        let name = PathPart::Name(last);
        if front.len() == 0 {
            law_paths_begin_with_their_first_piece(last);
            assert(path =~= seq!['/'] + last);
            assert(components(path) =~= seq![PathPart::Root].push(name));
            lemma_names_push(seq![PathPart::Root], name);
            assert(seq![PathPart::Root] =~= Seq::<PathPart>::empty().push(PathPart::Root));
            lemma_names_push(Seq::<PathPart>::empty(), PathPart::Root);
            assert(names(Seq::<PathPart>::empty()) =~= front);
        } else {
            law_slashes_begin_pieces(rooted(front), last);
            lemma_names_push(components(rooted(front)), name);
        }
        assert(directories =~= front.push(last));
    }
}

/// The last seven of these names, or a placeholder where there is none.
pub open spec fn last_seven(all: Seq<Seq<char>>) -> Seq<Seq<char>> {
    if all.len() == 0 {
        seq!["[source]"@]
    } else if all.len() > 7 {
        all.subrange(all.len() - 7, all.len() as int)
    } else {
        all
    }
}

proof fn lemma_normalized_rooted(directories: Seq<Seq<char>>)
    requires
        are_plain(directories),
    ensures
        normalized(rooted(directories), Seq::<Seq<char>>::empty()) == last_seven(
            grouping(directories),
        ),
{
    lemma_rooted(directories);
    let grouped = grouping(directories);
    if grouped.len() > 7 {
        assert(grouped.skip(grouped.len() - 7) =~= grouped.subrange(
            grouped.len() - 7,
            grouped.len() as int,
        ));
    }
}

/// A file in a source tree of RIOT is grouped by what comes behind the last `RIOT` directory.
pub proof fn law_riot_files_group_below_riot(front: Seq<Seq<char>>, rest: Seq<Seq<char>>)
    requires
        are_plain(front),
        are_plain(rest),
        !rest.contains("RIOT"@),
    ensures
        normalized(rooted(front + seq!["RIOT"@] + rest), Seq::<Seq<char>>::empty()) == last_seven(
            rest,
        ),
{
    let all = front + seq!["RIOT"@] + rest;
    lemma_word_is_plain();
    lemma_joined_are_plain(front, seq!["RIOT"@], rest);
    lemma_normalized_rooted(all);
    let at = front.len() as int;
    assert(all[at] == "RIOT"@);
    all.index_of_last_ensures("RIOT"@);
    let found = all.index_of_last("RIOT"@).unwrap();
    if found > at {
        assert(rest[found - at - 1] == "RIOT"@);
    }
    assert(found == at);
    assert(all.skip(at + 1) =~= rest);
}

/// A file in a registry of crates is grouped under a marker, by what comes behind the directory of
/// the index.
pub proof fn law_registry_files_group_below_the_index(
    front: Seq<Seq<char>>,
    rest: Seq<Seq<char>>,
)
    requires
        are_plain(front),
        are_plain(rest),
        !front.contains("RIOT"@),
        !front.contains("registry"@),
        !rest.contains("RIOT"@),
    ensures
        normalized(
            rooted(front + seq!["registry"@, "src"@] + rest),
            Seq::<Seq<char>>::empty(),
        ) == last_seven(
            seq!["cargo-registry"@] + (if rest.len() == 0 {
                rest
            } else {
                rest.drop_first()
            }),
        ),
{
    let all = front + seq!["registry"@, "src"@] + rest;
    let at = front.len() as int;
    lemma_word_is_plain();
    lemma_joined_are_plain(front, seq!["registry"@, "src"@], rest);
    lemma_normalized_rooted(all);
    lemma_words_differ();
    assert(!all.contains("RIOT"@)) by {
        if all.contains("RIOT"@) {
            let i = choose|i: int| 0 <= i < all.len() && all[i] == "RIOT"@;
            if i < at {
                assert(front[i] == "RIOT"@);
            } else if i >= at + 2 {
                assert(rest[i - at - 2] == "RIOT"@);
            }
        }
    }
    all.index_of_last_ensures("RIOT"@);
    assert(all[at] == "registry"@ && all[at + 1] == "src"@);
    all.index_of_first_ensures("registry"@);
    let found = all.index_of_first("registry"@).unwrap();
    if found < at {
        assert(front[found] == "registry"@);
    }
    assert(found == at);
    if rest.len() == 0 {
        assert(all.skip(all.len() as int) =~= rest);
    } else {
        assert(all.skip(at + 3) =~= rest.drop_first());
    }
}

/// A path through a `registry` directory that holds no sources is left as it is.
pub proof fn law_other_registries_stay(front: Seq<Seq<char>>, rest: Seq<Seq<char>>)
    requires
        are_plain(front),
        are_plain(rest),
        !front.contains("RIOT"@),
        !front.contains("registry"@),
        !rest.contains("RIOT"@),
        rest.len() > 0 ==> rest[0] != "src"@,
    ensures
        normalized(rooted(front + seq!["registry"@] + rest), Seq::<Seq<char>>::empty())
            == last_seven(front + seq!["registry"@] + rest),
{
    let all = front + seq!["registry"@] + rest;
    let at = front.len() as int;
    lemma_word_is_plain();
    lemma_joined_are_plain(front, seq!["registry"@], rest);
    lemma_normalized_rooted(all);
    lemma_words_differ();
    assert(!all.contains("RIOT"@)) by {
        if all.contains("RIOT"@) {
            let i = choose|i: int| 0 <= i < all.len() && all[i] == "RIOT"@;
            if i < at {
                assert(front[i] == "RIOT"@);
            } else if i > at {
                assert(rest[i - at - 1] == "RIOT"@);
            }
        }
    }
    all.index_of_last_ensures("RIOT"@);
    assert(all[at] == "registry"@);
    all.index_of_first_ensures("registry"@);
    let found = all.index_of_first("registry"@).unwrap();
    if found < at {
        assert(front[found] == "registry"@);
    }
    assert(found == at);
    if rest.len() > 0 {
        assert(all[at + 1] == rest[0]);
    }
}

/// A file in a crate is grouped by the directory around the last `src` and what comes behind it,
/// whatever comes in front.
pub proof fn law_crate_files_group_by_their_crate(
    front: Seq<Seq<char>>,
    krate: Seq<char>,
    rest: Seq<Seq<char>>,
)
    requires
        are_plain(front),
        is_plain(krate),
        are_plain(rest),
        !(front.push(krate) + rest).contains("RIOT"@),
        !(front.push(krate) + rest).contains("registry"@),
        !rest.contains("src"@),
    ensures
        normalized(rooted(front + seq![krate, "src"@] + rest), Seq::<Seq<char>>::empty())
            == last_seven(seq![krate, "src"@] + rest),
        rest.len() <= 5 ==> normalized(
            rooted(front + seq![krate, "src"@] + rest),
            Seq::<Seq<char>>::empty(),
        ) == seq![krate, "src"@] + rest,
{
    let all = front + seq![krate, "src"@] + rest;
    let at = front.len() as int;
    lemma_word_is_plain();
    lemma_joined_are_plain(front, seq![krate, "src"@], rest);
    lemma_normalized_rooted(all);
    lemma_words_differ();
    let given = front.push(krate) + rest;
    assert forall|i: int| 0 <= i < all.len() implies #[trigger] all[i] != "RIOT"@ && all[i]
        != "registry"@ by {
        if i <= at {
            assert(given[i] == all[i]);
        } else if i > at + 1 {
            assert(given[i - 1] == all[i]);
        }
    }
    all.index_of_last_ensures("RIOT"@);
    all.index_of_first_ensures("registry"@);
    assert(all[at + 1] == "src"@);
    all.index_of_last_ensures("src"@);
    let found = all.index_of_last("src"@).unwrap();
    if found > at + 1 {
        assert(rest[found - at - 2] == "src"@);
    }
    assert(found == at + 1);
    assert(all.skip(at) =~= seq![krate, "src"@] + rest);
}

/// A path with none of the words that count keeps all its names, and so does one with a single
/// `src` directory at the root.
pub proof fn law_other_files_group_by_their_path(all: Seq<Seq<char>>)
    requires
        are_plain(all),
        !all.contains("RIOT"@),
        !all.contains("registry"@),
        forall|i: int| 0 < i < all.len() ==> #[trigger] all[i] != "src"@,
    ensures
        normalized(rooted(all), Seq::<Seq<char>>::empty()) == last_seven(all),
{
    lemma_normalized_rooted(all);
    all.index_of_last_ensures("RIOT"@);
    all.index_of_first_ensures("registry"@);
    all.index_of_last_ensures("src"@);
}

proof fn lemma_words_differ()
    ensures
        "RIOT"@ != "registry"@,
        "RIOT"@ != "src"@,
        "registry"@ != "src"@,
{
    reveal_strlit("RIOT");
    reveal_strlit("registry");
    reveal_strlit("src");
    assert("RIOT"@.len() == 4 && "registry"@.len() == 8 && "src"@.len() == 3);
}

proof fn lemma_word_is_plain()
    ensures
        is_plain("RIOT"@),
        is_plain("registry"@),
        is_plain("src"@),
{
    reveal_strlit("RIOT");
    reveal_strlit("registry");
    reveal_strlit("src");
    reveal_strlit(".");
    reveal_strlit("..");
    assert("RIOT"@.len() == 4 && "registry"@.len() == 8 && "src"@.len() == 3 && "."@.len() == 1
        && ".."@.len() == 2);
}

proof fn lemma_joined_are_plain(
    front: Seq<Seq<char>>,
    middle: Seq<Seq<char>>,
    rest: Seq<Seq<char>>,
)
    requires
        are_plain(front),
        are_plain(middle),
        are_plain(rest),
    ensures
        are_plain(front + middle + rest),
{
    let all = front + middle + rest;
    assert forall|i: int| 0 <= i < all.len() implies is_plain(#[trigger] all[i]) by {
        if i < front.len() {
            assert(is_plain(front[i]));
        } else if i < front.len() + middle.len() {
            assert(is_plain(middle[i - front.len()]));
        } else {
            assert(is_plain(rest[i - front.len() - middle.len()]));
        }
    }
}

/// Backslashes are as good as slashes: paths that differ in nothing else are grouped alike.
pub proof fn law_backslashes_are_slashes(
    first: Seq<char>,
    second: Seq<char>,
    strip_prefixes: Seq<Seq<char>>,
)
    requires
        first.len() == second.len(),
        forall|i: int|
            #![trigger first[i], second[i]]
            0 <= i < first.len() ==> first[i] == second[i] || (first[i] == '/' || first[i] == '\\')
                && (second[i] == '/' || second[i] == '\\'),
    ensures
        normalized(first, strip_prefixes) == normalized(second, strip_prefixes),
{
    assert forall|i: int| 0 <= i < first.len() implies with_slashes(first)[i] == with_slashes(
        second,
    )[i] by {
        assert(first[i] == second[i] || (first[i] == '/' || first[i] == '\\') && (second[i] == '/'
            || second[i] == '\\'));
    }
    assert(with_slashes(first) =~= with_slashes(second));
}

/// The components of pieces none of which is the first of its path.
spec fn inner_components(pieces: Seq<Seq<char>>) -> Seq<PathPart>
    decreases pieces.len(),
{
    if pieces.len() == 0 {
        Seq::<PathPart>::empty()
    } else {
        let earlier = inner_components(pieces.drop_last());
        match crate::source_path::component_of(pieces.last(), false) {
            Some(component) => earlier.push(component),
            None => earlier,
        }
    }
}

proof fn lemma_inner_components(left: Seq<Seq<char>>, right: Seq<Seq<char>>)
    requires
        left.len() > 0,
    ensures
        piece_components(left + right) == piece_components(left) + inner_components(right),
    decreases right.len(),
{
    let start = piece_components(left);
    if right.len() == 0 {
        assert(left + right =~= left);
        assert(start + inner_components(right) =~= start);
    } else {
        let front = right.drop_last();
        lemma_inner_components(left, front);
        assert((left + right).drop_last() =~= left + front);
        assert((left + right).last() == right.last());
        let inner = inner_components(front);
        if let Some(component) = crate::source_path::component_of(right.last(), false) {
            assert((start + inner).push(component) =~= start + inner.push(component));
        }
    }
}

proof fn lemma_inner_names(pieces: Seq<Seq<char>>)
    ensures
        names(inner_components(pieces)) == names(piece_components(pieces)),
    decreases pieces.len(),
{
    if pieces.len() > 0 {
        let front = pieces.drop_last();
        lemma_inner_names(front);
        let inner = inner_components(front);
        let outer = piece_components(front);
        if let Some(component) = crate::source_path::component_of(pieces.last(), false) {
            lemma_names_push(inner, component);
            lemma_names_push(outer, component);
        }
        if let Some(component) = crate::source_path::component_of(
            pieces.last(),
            pieces.len() == 1,
        ) {
            lemma_names_push(outer, component);
        }
    }
}

/// A prefix is stripped: a file below it is grouped as if its path began behind the prefix. The
/// prefixes that follow it do not count.
pub proof fn law_prefixes_are_stripped(
    prefix: Seq<char>,
    rest: Seq<char>,
    more: Seq<Seq<char>>,
)
    requires
        prefix.len() > 0,
        !prefix.contains('\\'),
    ensures
        normalized(prefix.push('/') + rest, seq![prefix] + more) == normalized(
            rest,
            Seq::<Seq<char>>::empty(),
        ),
{
    let source = prefix.push('/') + rest;
    let tail = with_slashes(rest);
    let path = with_slashes(source);
    assert forall|i: int| 0 <= i < prefix.len() implies prefix[i] != '\\' by {
        assert(prefix.contains(prefix[i]));
    }
    assert(path =~= prefix.push('/') + tail);
    lemma_split_at_separator(prefix, tail, '/');
    lemma_split_has_a_piece(prefix, '/');
    lemma_inner_components(split(prefix, '/'), split(tail, '/'));
    let root = if prefix[0] == '/' {
        seq![PathPart::Root]
    } else {
        Seq::<PathPart>::empty()
    };
    let inner = inner_components(split(tail, '/'));
    let front = components(prefix);
    assert(path[0] == prefix[0]);
    assert(components(path) =~= front + inner);
    let prefixes = seq![prefix] + more;
    assert(prefixes[0] == prefix);
    assert(front.is_prefix_of(components(path))) by {
        assert(components(path).subrange(0, front.len() as int) =~= front);
    }
    assert(components(path).skip(front.len() as int) =~= inner);
    assert(without_prefix(components(path), prefixes) == inner);
    lemma_inner_names(split(tail, '/'));
    let tail_root = if tail.len() > 0 && tail[0] == '/' {
        seq![PathPart::Root]
    } else {
        Seq::<PathPart>::empty()
    };
    lemma_names_add(tail_root, piece_components(split(tail, '/')));
    lemma_names_push(Seq::<PathPart>::empty(), PathPart::Root);
    assert(Seq::<PathPart>::empty().push(PathPart::Root) =~= seq![PathPart::Root]);
    assert(names(Seq::<PathPart>::empty()) =~= Seq::<Seq<char>>::empty());
    assert(names(tail_root) =~= Seq::<Seq<char>>::empty());
    assert(names(components(tail)) =~= names(inner));
}

/// The names of a path are those of its pieces.
proof fn lemma_names_of_pieces(path: Seq<char>)
    ensures
        names(components(path)) == names(inner_components(split(path, '/'))),
{
    let pieces = split(path, '/');
    let root = if path.len() > 0 && path[0] == '/' {
        seq![PathPart::Root]
    } else {
        Seq::<PathPart>::empty()
    };
    lemma_inner_names(pieces);
    lemma_names_add(root, piece_components(pieces));
    lemma_names_push(Seq::<PathPart>::empty(), PathPart::Root);
    assert(Seq::<PathPart>::empty().push(PathPart::Root) =~= seq![PathPart::Root]);
    assert(names(Seq::<PathPart>::empty()) =~= Seq::<Seq<char>>::empty());
    assert(names(root) =~= Seq::<Seq<char>>::empty());
    assert(names(components(path)) =~= names(piece_components(pieces)));
}

proof fn lemma_inner_add(left: Seq<Seq<char>>, right: Seq<Seq<char>>)
    ensures
        inner_components(left + right) == inner_components(left) + inner_components(right),
    decreases right.len(),
{
    let start = inner_components(left);
    if right.len() == 0 {
        assert(left + right =~= left);
        assert(start + inner_components(right) =~= start);
    } else {
        let front = right.drop_last();
        lemma_inner_add(left, front);
        assert((left + right).drop_last() =~= left + front);
        assert((left + right).last() == right.last());
        let inner = inner_components(front);
        if let Some(component) = crate::source_path::component_of(right.last(), false) {
            assert((start + inner).push(component) =~= start + inner.push(component));
        }
    }
}

/// The names of a path are those in front of a slash and those behind it.
proof fn lemma_names_around_slash(left: Seq<char>, right: Seq<char>)
    ensures
        names(components(left.push('/') + right)) == names(components(left)) + names(
            components(right),
        ),
{
    lemma_names_of_pieces(left.push('/') + right);
    lemma_names_of_pieces(left);
    lemma_names_of_pieces(right);
    lemma_split_at_separator(left, right, '/');
    lemma_inner_add(split(left, '/'), split(right, '/'));
    lemma_names_add(inner_components(split(left, '/')), inner_components(split(right, '/')));
}

/// Where no prefix is stripped, empty pieces of a path and those that stay in a directory or leave
/// it do not count, and it does not matter whether the path begins at the root.
pub proof fn law_dots_do_not_count(before: Seq<char>, dots: Seq<char>, after: Seq<char>)
    requires
        dots.len() == 0 || dots == "."@ || dots == ".."@,
    ensures
        normalized(before.push('/') + dots.push('/') + after, Seq::<Seq<char>>::empty())
            == normalized(before.push('/') + after, Seq::<Seq<char>>::empty()),
        normalized(before.push('/') + dots, Seq::<Seq<char>>::empty()) == normalized(
            before,
            Seq::<Seq<char>>::empty(),
        ),
        normalized(dots.push('/') + after, Seq::<Seq<char>>::empty()) == normalized(
            after,
            Seq::<Seq<char>>::empty(),
        ),
{
    reveal_strlit(".");
    reveal_strlit("..");
    let a = with_slashes(before);
    let b = with_slashes(after);
    assert(with_slashes(dots) =~= dots);
    assert(with_slashes(before.push('/') + dots.push('/') + after) =~= (a.push('/') + dots).push(
        '/',
    ) + b);
    assert(with_slashes(before.push('/') + after) =~= a.push('/') + b);
    assert(with_slashes(before.push('/') + dots) =~= a.push('/') + dots);
    assert(with_slashes(dots.push('/') + after) =~= dots.push('/') + b);
    lemma_names_around_slash(a.push('/') + dots, b);
    lemma_names_around_slash(a, dots);
    lemma_names_around_slash(a, b);
    lemma_names_around_slash(dots, b);
    assert(!dots.contains('/'));
    law_paths_begin_with_their_first_piece(dots);
    assert(names(components(dots)) =~= Seq::<Seq<char>>::empty()) by {
        let none = Seq::<PathPart>::empty();
        lemma_names_push(none, PathPart::Current);
        lemma_names_push(none, PathPart::Parent);
        assert(none.push(PathPart::Current) =~= seq![PathPart::Current]);
        assert(none.push(PathPart::Parent) =~= seq![PathPart::Parent]);
        assert(names(none) =~= Seq::<Seq<char>>::empty());
    }
    let nothing = Seq::<Seq<char>>::empty();
    assert(names(components(a)) + nothing =~= names(components(a)));
    assert(nothing + names(components(b)) =~= names(components(b)));
}

/// Of a prefix only the components count, and of a file at the prefix itself nothing is left.
pub proof fn law_prefixes_go_by_their_components(
    source: Seq<char>,
    first: Seq<char>,
    second: Seq<char>,
    more: Seq<Seq<char>>,
)
    requires
        components(first) == components(second),
    ensures
        normalized(source, seq![first] + more) == normalized(source, seq![second] + more),
        !source.contains('\\') && components(source) == components(first) ==> normalized(
            source,
            seq![first] + more,
        ) == seq!["[source]"@],
{
    let a = seq![first] + more;
    let b = seq![second] + more;
    assert(a[0] == first && b[0] == second);
    assert(a.drop_first() =~= more);
    assert(b.drop_first() =~= more);
    if !source.contains('\\') && components(source) == components(first) {
        assert forall|i: int| 0 <= i < source.len() implies with_slashes(source)[i]
            == source[i] by {
            assert(source.contains(source[i]));
        }
        assert(with_slashes(source) =~= source);
        let parts = components(source);
        assert(parts.subrange(0, parts.len() as int) =~= parts);
        assert(components(first).is_prefix_of(parts));
        assert(parts.skip(parts.len() as int) =~= Seq::<PathPart>::empty());
        assert(names(Seq::<PathPart>::empty()) =~= Seq::<Seq<char>>::empty());
        let nothing = Seq::<Seq<char>>::empty();
        nothing.index_of_last_ensures("RIOT"@);
        nothing.index_of_first_ensures("registry"@);
        nothing.index_of_last_ensures("src"@);
    }
}

/// A prefix without components strips nothing, and those that follow it do not count.
pub proof fn law_empty_prefixes_strip_nothing(
    source: Seq<char>,
    prefix: Seq<char>,
    more: Seq<Seq<char>>,
)
    requires
        components(prefix).len() == 0,
    ensures
        normalized(source, seq![prefix] + more) == normalized(source, Seq::<Seq<char>>::empty()),
{
    let parts = components(with_slashes(source));
    assert((seq![prefix] + more)[0] == prefix);
    assert(parts.subrange(0, 0) =~= components(prefix));
    assert(components(prefix).is_prefix_of(parts));
    assert(parts.skip(0) =~= parts);
}

/// A prefix that is the root leaves the names of a path as they are.
pub proof fn law_root_is_stripped(rest: Seq<char>, more: Seq<Seq<char>>)
    ensures
        normalized(seq!['/'] + rest, seq![seq!['/']] + more) == normalized(
            rest,
            Seq::<Seq<char>>::empty(),
        ),
{
    let source = seq!['/'] + rest;
    let tail = with_slashes(rest);
    let path = with_slashes(source);
    let empty = Seq::<char>::empty();
    assert(path =~= empty.push('/') + tail);
    assert(seq!['/'] + empty =~= seq!['/']);
    law_paths_begin_with_their_first_piece(empty);
    assert(components(seq!['/']) =~= seq![PathPart::Root]);
    assert(components(path) =~= seq![PathPart::Root] + piece_components(split(path, '/')));
    let front = components(seq!['/']);
    assert(components(path).subrange(0, 1) =~= front);
    assert(front.is_prefix_of(components(path)));
    let inner = piece_components(split(path, '/'));
    assert(components(path).skip(1) =~= inner);
    let prefixes = seq![seq!['/']] + more;
    assert(prefixes[0] == seq!['/']);
    assert(without_prefix(components(path), prefixes) == inner);
    lemma_inner_names(split(path, '/'));
    lemma_names_of_pieces(path);
    lemma_names_around_slash(empty, tail);
    assert(names(components(empty)) =~= Seq::<Seq<char>>::empty()) by {
        assert(names(Seq::<PathPart>::empty()) =~= Seq::<Seq<char>>::empty());
    }
    assert(Seq::<Seq<char>>::empty() + names(components(tail)) =~= names(components(tail)));
}

/// Paths are ordered component by component: the first difference decides, and without one the
/// shorter path comes first.
pub proof fn law_paths_are_ordered_by_their_components(
    common: Seq<PathPart>,
    left: Seq<PathPart>,
    right: Seq<PathPart>,
)
    ensures
        left.len() == 0 ==> path_at_most(common + left, common + right),
        left.len() > 0 && right.len() == 0 ==> !path_at_most(common + left, common + right),
        left.len() > 0 && right.len() > 0 && left[0] != right[0] ==> (path_at_most(
            common + left,
            common + right,
        ) <==> part_below(left[0], right[0])),
    decreases common.len(),
{
    let a = common + left;
    let b = common + right;
    if common.len() == 0 {
        assert(a =~= left);
        assert(b =~= right);
    } else {
        law_paths_are_ordered_by_their_components(common.drop_first(), left, right);
        assert(a[0] == common[0] && b[0] == common[0]);
        assert(a.drop_first() =~= common.drop_first() + left);
        assert(b.drop_first() =~= common.drop_first() + right);
    }
}

/// Components of paths come in the order root, current directory, parent directory, name, and names
/// in dictionary order.
pub proof fn law_components_are_ordered_by_kind(left: Seq<char>, right: Seq<char>)
    ensures
        part_below(PathPart::Root, PathPart::Current),
        part_below(PathPart::Current, PathPart::Parent),
        part_below(PathPart::Parent, PathPart::Name(left)),
        part_below(PathPart::Name(left), PathPart::Name(right)) <==> left != right && text_at_most(
            left,
            right,
        ),
{
}

/// A prefix that a path does not begin with, component by component, does not count.
pub proof fn law_other_prefixes_do_not_count(
    source: Seq<char>,
    prefix: Seq<char>,
    more: Seq<Seq<char>>,
    at: int,
)
    requires
        !source.contains('\\'),
        0 <= at < components(prefix).len(),
        at >= components(source).len() || components(source)[at] != components(prefix)[at],
    ensures
        normalized(source, seq![prefix] + more) == normalized(source, more),
{
    assert forall|i: int| 0 <= i < source.len() implies with_slashes(source)[i] == source[i] by {
        assert(source.contains(source[i]));
    }
    assert(with_slashes(source) =~= source);
    let parts = components(source);
    let front = components(prefix);
    if front.is_prefix_of(parts) {
        assert(parts.subrange(0, front.len() as int)[at] == parts[at]);
    }
    assert((seq![prefix] + more)[0] == prefix);
    assert((seq![prefix] + more).drop_first() =~= more);
}

} // verus!
