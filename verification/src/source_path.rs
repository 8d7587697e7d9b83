//! Source paths from debug information, cut down to the parts that group symbols well.

use crate::text::{
    first_char, first_index, is_strict_order, is_text_at_most, last_index, lemma_char_order,
    lemma_sequence_antisymmetric, lemma_sequence_total, lemma_sequence_transitive, same_text,
    sequence_at_most, split, split_text, text_at_most, texts,
};
use vstd::prelude::*;

verus! {

/// A component of a path.
pub enum PathComponent {
    /// The root directory, from which an absolute path starts.
    Root,
    /// The current directory; only at the front of a path.
    Current,
    /// The parent directory.
    Parent,
    /// A file or directory by its name.
    Name(String),
}

/// What a [`PathComponent`] holds.
pub enum PathPart {
    Root,
    Current,
    Parent,
    Name(Seq<char>),
}

impl View for PathComponent {
    type V = PathPart;

    open spec fn view(&self) -> PathPart {
        match *self {
            PathComponent::Root => PathPart::Root,
            PathComponent::Current => PathPart::Current,
            PathComponent::Parent => PathPart::Parent,
            PathComponent::Name(name) => PathPart::Name(name@),
        }
    }
}

/// The component that a piece of a path between slashes stands for. Empty pieces stand for
/// nothing, and neither does a dot except at the front of the path.
pub open spec fn component_of(piece: Seq<char>, front: bool) -> Option<PathPart> {
    if piece.len() == 0 {
        None
    } else if piece == "."@ {
        if front {
            Some(PathPart::Current)
        } else {
            None
        }
    } else if piece == ".."@ {
        Some(PathPart::Parent)
    } else {
        Some(PathPart::Name(piece))
    }
}

/// The components that the pieces of a path stand for.
pub open spec fn piece_components(pieces: Seq<Seq<char>>) -> Seq<PathPart>
    decreases pieces.len(),
{
    if pieces.len() == 0 {
        Seq::<PathPart>::empty()
    } else {
        let earlier = piece_components(pieces.drop_last());
        match component_of(pieces.last(), pieces.len() == 1) {
            Some(component) => earlier.push(component),
            None => earlier,
        }
    }
}

/// The components of a path, by the rules of Unix.
pub open spec fn components(path: Seq<char>) -> Seq<PathPart> {
    let root = if path.len() > 0 && path[0] == '/' {
        seq![PathPart::Root]
    } else {
        Seq::<PathPart>::empty()
    };
    root + piece_components(split(path, '/'))
}

/// The components behind the first of the prefixes that the components begin with; all of them
/// if they begin with none.
pub open spec fn without_prefix(parts: Seq<PathPart>, prefixes: Seq<Seq<char>>) -> Seq<PathPart>
    decreases prefixes.len(),
{
    if prefixes.len() == 0 {
        parts
    } else if components(prefixes[0]).is_prefix_of(parts) {
        parts.skip(components(prefixes[0]).len() as int)
    } else {
        without_prefix(parts, prefixes.drop_first())
    }
}

/// The names among the components.
pub open spec fn names(parts: Seq<PathPart>) -> Seq<Seq<char>> {
    parts.filter_map(
        |part: PathPart|
            match part {
                PathPart::Name(name) => Some(name),
                _ => None,
            },
    )
}

/// `path` with every backslash turned into a slash.
pub open spec fn with_slashes(path: Seq<char>) -> Seq<char> {
    path.map_values(
        |ch: char|
            if ch == '\\' {
                '/'
            } else {
                ch
            },
    )
}

/// What is left of the names of a path for grouping: what comes behind the last `RIOT`
/// directory; or the file's place in a registry of crates, behind a marker for registries; or
/// the crate directory around the last `src`, and what it holds.
pub open spec fn grouping(names: Seq<Seq<char>>) -> Seq<Seq<char>> {
    match names.index_of_last("RIOT"@) {
        Some(riot) => names.skip(riot + 1),
        None => match names.index_of_first("registry"@) {
            Some(registry) => if registry + 1 < names.len() && names[registry + 1] == "src"@ {
                let crate_index = if registry + 3 <= names.len() {
                    registry + 3
                } else {
                    names.len() as int
                };
                seq!["cargo-registry"@] + names.skip(crate_index)
            } else {
                names
            },
            None => match names.index_of_last("src"@) {
                Some(src) => if src > 0 {
                    names.skip(src - 1)
                } else {
                    names
                },
                None => names,
            },
        },
    }
}

/// The last seven names; a placeholder if there is none.
pub open spec fn shortened(names: Seq<Seq<char>>) -> Seq<Seq<char>> {
    if names.len() > 7 {
        names.skip(names.len() - 7)
    } else if names.len() == 0 {
        seq!["[source]"@]
    } else {
        names
    }
}

/// The path under which the report groups what comes from a source file.
pub open spec fn normalized(source: Seq<char>, strip_prefixes: Seq<Seq<char>>) -> Seq<Seq<char>> {
    let parts = components(with_slashes(source));
    shortened(grouping(names(without_prefix(parts, strip_prefixes))))
}

/// The components of a path, by the rules of Unix.
pub fn path_components(path: &str) -> (parts: Vec<PathComponent>)
    ensures
        parts@.map_values(|part: PathComponent| part@) == components(path@),
{
    let mut parts: Vec<PathComponent> = Vec::new();
    let rooted = match first_char(path) {
        Some(ch) => ch == '/',
        None => false,
    };
    if rooted {
        parts.push(PathComponent::Root);
    }
    let ghost root = parts@.map_values(|part: PathComponent| part@);
    let pieces = split_text(path, '/');
    let ghost all = texts(pieces@);
    proof {
        assert(root =~= if path@.len() > 0 && path@[0] == '/' {
            seq![PathPart::Root]
        } else {
            Seq::<PathPart>::empty()
        });
        assert(root + piece_components(all.take(0)) =~= root);
    }
    for i in 0..pieces.len()
        invariant
            all == texts(pieces@),
            parts@.map_values(|part: PathComponent| part@) == root + piece_components(
                all.take(i as int),
            ),
    {
        let ghost before = parts@.map_values(|part: PathComponent| part@);
        let piece = pieces[i].as_str();
        proof {
            assert(all.take(i + 1).drop_last() =~= all.take(i as int));
            assert(all.take(i + 1).last() == pieces[i as int]@);
        }
        if piece.is_empty() {
        } else if same_text(piece, ".") {
            if i == 0 {
                parts.push(PathComponent::Current);
                assert(parts@.map_values(|part: PathComponent| part@) =~= before.push(
                    PathPart::Current,
                ));
            }
        } else if same_text(piece, "..") {
            parts.push(PathComponent::Parent);
            assert(parts@.map_values(|part: PathComponent| part@) =~= before.push(
                PathPart::Parent,
            ));
        } else {
            parts.push(PathComponent::Name(pieces[i].clone()));
            assert(parts@.map_values(|part: PathComponent| part@) =~= before.push(
                PathPart::Name(piece@),
            ));
        }
        assert(parts@.map_values(|part: PathComponent| part@) =~= root + piece_components(
            all.take(i + 1),
        ));
    }
    assert(all.take(all.len() as int) =~= all);
    parts
}

/// Whether two components are the same.
pub fn same_component(left: &PathComponent, right: &PathComponent) -> (equal: bool)
    ensures
        equal == (left@ == right@),
{
    match (left, right) {
        (PathComponent::Root, PathComponent::Root) => true,
        (PathComponent::Current, PathComponent::Current) => true,
        (PathComponent::Parent, PathComponent::Parent) => true,
        (PathComponent::Name(left), PathComponent::Name(right)) => same_text(
            left.as_str(),
            right.as_str(),
        ),
        _ => false,
    }
}

/// Whether the components begin with those of the prefix.
fn begins_with(parts: &[PathComponent], prefix: &[PathComponent]) -> (begins: bool)
    ensures
        begins == prefix@.map_values(|part: PathComponent| part@).is_prefix_of(
            parts@.map_values(|part: PathComponent| part@),
        ),
{
    let ghost whole = parts@.map_values(|part: PathComponent| part@);
    let ghost front = prefix@.map_values(|part: PathComponent| part@);
    if prefix.len() > parts.len() {
        return false;
    }
    for i in 0..prefix.len()
        invariant
            whole == parts@.map_values(|part: PathComponent| part@),
            front == prefix@.map_values(|part: PathComponent| part@),
            prefix.len() <= parts.len(),
            forall|j: int| 0 <= j < i ==> #[trigger] front[j] == whole[j],
    {
        assert(whole[i as int] == parts[i as int]@);
        assert(front[i as int] == prefix[i as int]@);
        if !same_component(&parts[i], &prefix[i]) {
            assert(whole.subrange(0, front.len() as int)[i as int] == whole[i as int]);
            return false;
        }
    }
    assert(front =~= whole.subrange(0, front.len() as int));
    true
}

/// How many components the first prefix takes up that the components begin with.
fn prefix_length(parts: &[PathComponent], prefixes: &[String]) -> (length: usize)
    ensures
        length <= parts.len(),
        parts@.map_values(|part: PathComponent| part@).skip(length as int) == without_prefix(
            parts@.map_values(|part: PathComponent| part@),
            texts(prefixes@),
        ),
{
    let ghost whole = parts@.map_values(|part: PathComponent| part@);
    let ghost all = texts(prefixes@);
    assert(all.skip(0) =~= all);
    for i in 0..prefixes.len()
        invariant
            whole == parts@.map_values(|part: PathComponent| part@),
            all == texts(prefixes@),
            without_prefix(whole, all) == without_prefix(whole, all.skip(i as int)),
    {
        let prefix = path_components(prefixes[i].as_str());
        proof {
            assert(all.skip(i as int)[0] == prefixes[i as int]@);
            assert(all.skip(i as int).drop_first() =~= all.skip(i + 1));
        }
        if begins_with(parts, prefix.as_slice()) {
            return prefix.len();
        }
    }
    assert(whole.skip(0) =~= whole);
    0
}

/// The names among the components from a position on.
fn names_from(parts: &[PathComponent], from: usize) -> (result: Vec<String>)
    requires
        from <= parts.len(),
    ensures
        texts(result@) == names(parts@.map_values(|part: PathComponent| part@).skip(from as int)),
{
    let ghost rest = parts@.map_values(|part: PathComponent| part@).skip(from as int);
    let mut result: Vec<String> = Vec::new();
    assert(texts(result@) =~= names(rest.take(0)));
    for i in from..parts.len()
        invariant
            rest == parts@.map_values(|part: PathComponent| part@).skip(from as int),
            from <= parts.len(),
            texts(result@) == names(rest.take(i - from)),
    {
        let ghost before = result@;
        proof {
            assert(rest.take(i - from + 1).drop_last() =~= rest.take(i - from));
            assert(rest.take(i - from + 1).last() == parts[i as int]@);
        }
        if let PathComponent::Name(name) = &parts[i] {
            result.push(name.clone());
            assert(texts(result@) =~= texts(before) + seq![name@]);
        }
    }
    assert(rest.take(rest.len() as int) =~= rest);
    result
}

/// `path` with every backslash turned into a slash.
fn slashed(path: &str) -> (result: String)
    ensures
        result@ == with_slashes(path@),
{
    let mut result = String::new();
    for ch in it: path.chars()
        invariant
            it.seq() == path@,
            result@ == with_slashes(path@).take(it.index()),
    {
        result.push(if ch == '\\' { '/' } else { ch });
    }
    result
}

/// What is left of the names of a path for grouping.
fn group_names(parts: Vec<String>) -> (result: Vec<String>)
    ensures
        texts(result@) == grouping(texts(parts@)),
{
    let mut parts = parts;
    let ghost all = texts(parts@);
    if let Some(riot) = last_index(parts.as_slice(), "RIOT") {
        proof {
            all.index_of_last_ensures("RIOT"@);
            assert(all.len() == parts.len());
        }
        let rest = parts.split_off(riot + 1);
        assert(texts(rest@) =~= all.skip(riot + 1));
        rest
    } else if let Some(registry) = first_index(parts.as_slice(), "registry") {
        proof {
            all.index_of_first_ensures("registry"@);
        }
        if parts.len() - registry > 1 && same_text(parts[registry + 1].as_str(), "src") {
            let crate_index: usize = if parts.len() - registry >= 3 {
                registry + 3
            } else {
                parts.len()
            };
            let mut rest = parts.split_off(crate_index);
            assert(texts(rest@) =~= all.skip(crate_index as int));
            let mut compact: Vec<String> = Vec::new();
            compact.push("cargo-registry".to_string());
            compact.append(&mut rest);
            assert(texts(compact@) =~= seq!["cargo-registry"@] + all.skip(crate_index as int));
            compact
        } else {
            parts
        }
    } else if let Some(src) = last_index(parts.as_slice(), "src") {
        proof {
            all.index_of_last_ensures("src"@);
        }
        if src > 0 {
            let rest = parts.split_off(src - 1);
            assert(texts(rest@) =~= all.skip(src - 1));
            rest
        } else {
            parts
        }
    } else {
        parts
    }
}

/// The path under which the report groups what comes from a source file.
pub fn normalize_source_path(source: &str, strip_prefixes: &[String]) -> (path: Vec<String>)
    ensures
        texts(path@) == normalized(source@, texts(strip_prefixes@)),
{
    let all = path_components(slashed(source).as_str());
    let skipped: usize = prefix_length(all.as_slice(), strip_prefixes);
    let mut parts = group_names(names_from(all.as_slice(), skipped));
    let ghost grouped = texts(parts@);
    if parts.len() > 7 {
        let surplus: usize = parts.len() - 7;
        parts = parts.split_off(surplus);
        assert(texts(parts@) =~= grouped.skip(surplus as int));
    }
    if parts.is_empty() {
        let mut placeholder: Vec<String> = Vec::new();
        placeholder.push("[source]".to_string());
        assert(texts(placeholder@) =~= seq!["[source]"@]);
        placeholder
    } else {
        parts
    }
}

/// The place of a kind of component in the order of paths.
pub open spec fn part_rank(part: PathPart) -> int {
    match part {
        PathPart::Root => 0,
        PathPart::Current => 1,
        PathPart::Parent => 2,
        PathPart::Name(_) => 3,
    }
}

/// Whether a component comes before a different one in the order of paths: by kind, and names
/// in dictionary order.
pub open spec fn part_below(left: PathPart, right: PathPart) -> bool {
    match (left, right) {
        (PathPart::Name(left), PathPart::Name(right)) => left != right && text_at_most(left, right),
        _ => part_rank(left) < part_rank(right),
    }
}

/// The order of paths, component by component.
pub open spec fn path_at_most(left: Seq<PathPart>, right: Seq<PathPart>) -> bool {
    sequence_at_most(left, right, |a: PathPart, b: PathPart| part_below(a, b))
}

/// Components are put into one order.
pub proof fn lemma_part_order()
    ensures
        is_strict_order(|a: PathPart, b: PathPart| part_below(a, b)),
{
    let below = |a: PathPart, b: PathPart| part_below(a, b);
    let char_below = |a: char, b: char| a < b;
    lemma_char_order();
    assert forall|a: PathPart, b: PathPart| #![trigger below(a, b)] a != b implies below(a, b)
        != below(b, a) by {
        if let (PathPart::Name(left), PathPart::Name(right)) = (a, b) {
            lemma_sequence_total(left, right, char_below);
            if text_at_most(left, right) && text_at_most(right, left) {
                lemma_sequence_antisymmetric(left, right, char_below);
            }
        }
    }
    assert forall|a: PathPart, b: PathPart, c: PathPart| #[trigger]
        below(a, b) && #[trigger] below(b, c) implies below(a, c) by {
        if let (PathPart::Name(low), PathPart::Name(middle)) = (a, b) {
            if let PathPart::Name(high) = c {
                lemma_sequence_transitive(low, middle, high, char_below);
                if low == high {
                    lemma_sequence_antisymmetric(low, middle, char_below);
                }
            }
        }
    }
}

/// Whether a component comes before a different one in the order of paths.
fn is_part_below(left: &PathComponent, right: &PathComponent) -> (result: bool)
    ensures
        result == part_below(left@, right@),
{
    match (left, right) {
        (PathComponent::Name(left), PathComponent::Name(right)) => !same_text(
            left.as_str(),
            right.as_str(),
        ) && is_text_at_most(left.as_str(), right.as_str()),
        (PathComponent::Root, PathComponent::Root) => false,
        (PathComponent::Root, _) => true,
        (PathComponent::Current, PathComponent::Root | PathComponent::Current) => false,
        (PathComponent::Current, _) => true,
        (PathComponent::Parent, PathComponent::Name(_)) => true,
        _ => false,
    }
}

/// Whether a path comes before another in the order of paths, or has the same components.
pub fn is_path_at_most(left: &[PathComponent], right: &[PathComponent]) -> (result: bool)
    ensures
        result == path_at_most(
            left@.map_values(|part: PathComponent| part@),
            right@.map_values(|part: PathComponent| part@),
        ),
{
    let ghost a = left@.map_values(|part: PathComponent| part@);
    let ghost b = right@.map_values(|part: PathComponent| part@);
    let mut i: usize = 0;
    assert(a.skip(0) =~= a);
    assert(b.skip(0) =~= b);
    while i < left.len() && i < right.len() && same_component(&left[i], &right[i])
        invariant
            a == left@.map_values(|part: PathComponent| part@),
            b == right@.map_values(|part: PathComponent| part@),
            i <= left.len(),
            i <= right.len(),
            path_at_most(a, b) == path_at_most(a.skip(i as int), b.skip(i as int)),
        decreases left.len() - i,
    {
        assert(a.skip(i as int)[0] == left[i as int]@);
        assert(b.skip(i as int)[0] == right[i as int]@);
        assert(a.skip(i as int).drop_first() =~= a.skip(i + 1));
        assert(b.skip(i as int).drop_first() =~= b.skip(i + 1));
        i = i + 1;
    }
    if i == left.len() {
        true
    } else if i == right.len() {
        false
    } else {
        assert(a.skip(i as int)[0] == left[i as int]@);
        assert(b.skip(i as int)[0] == right[i as int]@);
        is_part_below(&left[i], &right[i])
    }
}

/// Whether two paths have the same components.
pub fn same_path(left: &[PathComponent], right: &[PathComponent]) -> (equal: bool)
    ensures
        equal == (left@.map_values(|part: PathComponent| part@) == right@.map_values(
            |part: PathComponent| part@,
        )),
{
    let ghost a = left@.map_values(|part: PathComponent| part@);
    let ghost b = right@.map_values(|part: PathComponent| part@);
    if left.len() != right.len() {
        assert(a.len() != b.len());
        return false;
    }
    let equal = begins_with(left, right);
    assert(a.subrange(0, b.len() as int) =~= a);
    equal
}

/// A path under which the report groups has at least one part and at most seven.
pub proof fn law_paths_have_one_to_seven_parts(source: Seq<char>, strip_prefixes: Seq<Seq<char>>)
    ensures
        1 <= normalized(source, strip_prefixes).len() <= 7,
{
}

} // verus!
