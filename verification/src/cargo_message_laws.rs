//! What holds of everything that Cargo prints: how it comes apart into lines, what a line announces,
//! and what is said of the executables.

use crate::cargo::{
    artifact_in, artifact_keys, artifact_names, artifact_on_line, artifacts_in, comma_separated,
    is_accepted_kind, is_selection, lines, message_of, sorted_artifacts, without_carriage_return,
    without_repeats, ArtifactKey, ArtifactKeyView, ArtifactView, CargoMessageView, SelectionError,
};
use crate::json::{json_in, JsonView};
use crate::order::{comes_before, lemma_stable_order_exists, lists, sorting_order, SortKey};
use crate::source_path::{components, path_at_most};
use crate::text::{lemma_split_has_a_piece, split, text_at_most, texts};
use crate::text_laws::{lemma_split_at_separator, lemma_split_whole};
use vstd::prelude::*;

verus! {

/// A line goes up to the newline, less a carriage return in front of it, and the other lines follow.
/// What comes behind the last newline is a line if it is not empty.
pub proof fn law_lines_end_with_newlines(line: Seq<char>, rest: Seq<char>)
    requires
        !line.contains('\n'),
    ensures
        lines(line) == (if line.len() == 0 {
            Seq::<Seq<char>>::empty()
        } else {
            seq![line]
        }),
        lines(line.push('\n') + rest) == seq![
            if line.len() > 0 && line[line.len() - 1] == '\r' {
                line.take(line.len() - 1)
            } else {
                line
            },
        ] + lines(rest),
{
    lemma_split_whole(line, '\n');
    let strip = |line: Seq<char>| without_carriage_return(line);
    let one = seq![line];
    assert(one.drop_last() =~= Seq::<Seq<char>>::empty());
    assert(one.drop_last().map_values(strip) =~= Seq::<Seq<char>>::empty());
    assert(Seq::<Seq<char>>::empty().push(line) =~= seq![line]);
    lemma_split_at_separator(line, rest, '\n');
    lemma_split_has_a_piece(rest, '\n');
    let pieces = split(rest, '\n');
    let all = one + pieces;
    if line.len() > 0 && line[line.len() - 1] == '\r' {
        assert(line.take(line.len() - 1) =~= line.drop_last());
    }
    let first = without_carriage_return(line);
    assert(all.last() == pieces.last());
    assert(all.drop_last().map_values(strip) =~= seq![first] + pieces.drop_last().map_values(strip));
    let ended = pieces.drop_last().map_values(strip);
    assert((seq![first] + ended).push(pieces.last()) =~= seq![first] + ended.push(pieces.last()));
}

proof fn lemma_announced_add(left: Seq<Seq<char>>, right: Seq<Seq<char>>, examples: bool)
    ensures
        (left + right).filter_map(|line: Seq<char>| artifact_on_line(line, examples))
            == left.filter_map(|line: Seq<char>| artifact_on_line(line, examples))
            + right.filter_map(|line: Seq<char>| artifact_on_line(line, examples)),
    decreases right.len(),
{
    let pick = |line: Seq<char>| artifact_on_line(line, examples);
    if right.len() == 0 {
        assert(left + right =~= left);
        assert(left.filter_map(pick) + right.filter_map(pick) =~= left.filter_map(pick));
    } else {
        let front = right.drop_last();
        lemma_announced_add(left, front, examples);
        assert((left + right).drop_last() =~= left + front);
        assert((left + right).last() == right.last());
        assert((left + right).filter_map(pick) =~= left.filter_map(pick) + right.filter_map(pick));
    }
}

/// The output is read line by line: what it announces is what its first line announces, and then
/// what the other lines announce.
pub proof fn law_output_is_read_line_by_line(line: Seq<char>, rest: Seq<char>, examples: bool)
    requires
        !line.contains('\n'),
        line.len() > 0 ==> line[line.len() - 1] != '\r',
    ensures
        artifacts_in(Seq::<char>::empty(), examples).len() == 0,
        artifacts_in(line.push('\n') + rest, examples) == match artifact_on_line(line, examples) {
            Some(artifact) => seq![artifact] + artifacts_in(rest, examples),
            None => artifacts_in(rest, examples),
        },
        artifacts_in(line, examples) == match artifact_on_line(line, examples) {
            Some(artifact) => if line.len() > 0 {
                seq![artifact]
            } else {
                Seq::<ArtifactView>::empty()
            },
            None => Seq::<ArtifactView>::empty(),
        },
{
    let pick = |line: Seq<char>| artifact_on_line(line, examples);
    let none = Seq::<char>::empty();
    assert(!none.contains('\n'));
    law_lines_end_with_newlines(none, none);
    law_lines_end_with_newlines(line, rest);
    lemma_announced_add(seq![line], lines(rest), examples);
    let one = seq![line];
    assert(one.drop_last() =~= Seq::<Seq<char>>::empty());
    assert(one.last() == line);
    assert(one.drop_last().filter_map(pick) =~= Seq::<ArtifactView>::empty());
    match artifact_on_line(line, examples) {
        Some(artifact) => {
            assert(one.filter_map(pick) =~= seq![artifact]);
        },
        None => {
            assert(one.filter_map(pick) =~= Seq::<ArtifactView>::empty());
            assert(one.filter_map(pick) + lines(rest).filter_map(pick) =~= lines(rest).filter_map(
                pick,
            ));
        },
    }
}

/// The first field with a key counts, and only records have fields.
pub proof fn law_first_field_counts(
    front: Seq<(Seq<char>, JsonView)>,
    key: Seq<char>,
    value: JsonView,
    back: Seq<(Seq<char>, JsonView)>,
)
    requires
        forall|i: int| 0 <= i < front.len() ==> (#[trigger] front[i]).0 != key,
    ensures
        JsonView::Record(front + seq![(key, value)] + back).field(key) == Some(value),
        JsonView::Record(front).field(key) is None,
        !(value is Record) ==> value.field(key) is None,
    decreases front.len(),
{
    let fields = front + seq![(key, value)] + back;
    if front.len() > 0 {
        let rest = front.drop_first();
        assert forall|i: int| 0 <= i < rest.len() implies (#[trigger] rest[i]).0 != key by {
            assert(front[i + 1].0 != key);
        }
        law_first_field_counts(rest, key, value, back);
        assert(fields[0] == front[0]);
        assert(fields.drop_first() =~= rest + seq![(key, value)] + back);
    } else {
        assert(fields[0] == (key, value));
    }
}

/// A field of a field, where both are there.
pub open spec fn inner_field(
    json: JsonView,
    outer: Seq<char>,
    inner: Seq<char>,
) -> Option<JsonView> {
    match json.field(outer) {
        Some(value) => value.field(inner),
        None => None,
    }
}

/// Whether one of these values is this text.
pub open spec fn has_text(items: Seq<JsonView>, text: Seq<char>) -> bool {
    exists|i: int| 0 <= i < items.len() && #[trigger] items[i] == JsonView::Text(text)
}

/// Whether a message announces an executable to analyze: an artifact of the compiler, with an
/// executable, for a target that is a binary, or an example where one was asked for.
pub open spec fn announces(json: JsonView, examples: bool) -> bool {
    &&& json.field("reason"@) == Some(JsonView::Text("compiler-artifact"@))
    &&& json.field("executable"@) matches Some(JsonView::Text(_))
    &&& inner_field(json, "target"@, "kind"@) matches Some(JsonView::List(kinds))
    &&& has_text(kinds, "bin"@) || examples && has_text(kinds, "example"@)
}

/// A message is read field by field: of each what is there, where it has the right type.
pub proof fn law_messages_are_read_field_by_field(json: JsonView)
    ensures
        ({
            let message = message_of(json);
            &&& match json.field("reason"@) {
                Some(JsonView::Text(text)) => message.reason == Some(text),
                _ => message.reason is None,
            }
            &&& match json.field("executable"@) {
                Some(JsonView::Text(text)) => message.executable == Some(text),
                _ => message.executable is None,
            }
            &&& match inner_field(json, "target"@, "name"@) {
                Some(JsonView::Text(text)) => message.target_name == Some(text),
                _ => message.target_name is None,
            }
            &&& match inner_field(json, "target"@, "kind"@) {
                Some(JsonView::List(items)) => {
                    &&& message.target_kinds matches Some(kinds)
                    &&& kinds.len() == items.len()
                    &&& forall|i: int|
                        0 <= i < items.len() ==> match #[trigger] items[i] {
                            JsonView::Text(text) => kinds[i] == Some(text),
                            _ => kinds[i] is None,
                        }
                },
                _ => message.target_kinds is None,
            }
        }),
{
}

/// A message announces an executable exactly if it is about an artifact of the compiler, has an
/// executable, and lists a kind of target to analyze; a missing name is replaced.
pub proof fn law_announcements_need_all_fields(message: CargoMessageView, examples: bool)
    ensures
        artifact_in(message, examples) is Some <==> {
            &&& message.reason == Some("compiler-artifact"@)
            &&& message.executable is Some
            &&& message.target_kinds matches Some(kinds)
            &&& exists|i: int|
                0 <= i < kinds.len() && (#[trigger] kinds[i] == Some("bin"@) || examples && kinds[i]
                    == Some("example"@))
        },
        artifact_in(message, examples) matches Some(artifact) ==> {
            &&& message.executable == Some(artifact.path)
            &&& message.target_name matches Some(name) ==> artifact.name == name
            &&& message.target_name is None ==> artifact.name == "unnamed"@
        },
{
    if let Some(kinds) = message.target_kinds {
        if exists|i: int|
            0 <= i < kinds.len() && (#[trigger] kinds[i] == Some("bin"@) || examples && kinds[i]
                == Some("example"@)) {
            let i = choose|i: int|
                0 <= i < kinds.len() && (#[trigger] kinds[i] == Some("bin"@) || examples && kinds[i]
                    == Some("example"@));
            assert(is_accepted_kind(kinds[i], examples));
        }
    }
}

/// A line announces an executable exactly if it is JSON that says so. The executable has the path
/// that the message gives, and the name of its target, if that has one.
pub proof fn law_messages_announce_executables(line: Seq<char>, examples: bool)
    ensures
        json_in(line) is None ==> artifact_on_line(line, examples) is None,
        json_in(line) matches Some(json) ==> match artifact_on_line(line, examples) {
            Some(artifact) => {
                &&& announces(json, examples)
                &&& json.field("executable"@) == Some(JsonView::Text(artifact.path))
                &&& artifact.name == match inner_field(json, "target"@, "name"@) {
                    Some(JsonView::Text(name)) => name,
                    _ => "unnamed"@,
                }
            },
            None => !announces(json, examples),
        },
{
    if let Some(json) = json_in(line) {
        let message = message_of(json);
        if let Some(JsonView::List(items)) = inner_field(json, "target"@, "kind"@) {
            let kinds = items.map_values(|item: JsonView| item.text());
            assert(message.target_kinds == Some(kinds));
            if has_text(items, "bin"@) {
                let i = choose|i: int|
                    0 <= i < items.len() && #[trigger] items[i] == JsonView::Text("bin"@);
                assert(is_accepted_kind(kinds[i], examples));
            }
            if examples && has_text(items, "example"@) {
                let i = choose|i: int|
                    0 <= i < items.len() && #[trigger] items[i] == JsonView::Text("example"@);
                assert(is_accepted_kind(kinds[i], examples));
            }
            if exists|i: int| 0 <= i < kinds.len() && is_accepted_kind(#[trigger] kinds[i], examples) {
                let i = choose|i: int|
                    0 <= i < kinds.len() && is_accepted_kind(#[trigger] kinds[i], examples);
                assert(kinds[i] == items[i].text());
                if kinds[i] == Some("bin"@) {
                    assert(items[i] == JsonView::Text("bin"@));
                } else {
                    assert(items[i] == JsonView::Text("example"@));
                }
            }
        }
    }
}

/// Whether an executable comes before another: by name in dictionary order, and by path where they
/// have one name.
#[verifier::opaque]
pub open spec fn is_before(first: ArtifactView, second: ArtifactView) -> bool {
    &&& text_at_most(first.name, second.name)
    &&& first.name == second.name ==> path_at_most(
        components(first.path),
        components(second.path),
    )
}

/// Whether one of these executables is at the path of this one.
pub open spec fn has_path_of(kept: Seq<ArtifactView>, artifact: ArtifactView) -> bool {
    exists|k: int|
        0 <= k < kept.len() && components((#[trigger] kept[k]).path) == components(artifact.path)
}

/// Whether every executable among some is among others.
pub open spec fn are_among(some: Seq<ArtifactView>, others: Seq<ArtifactView>) -> bool {
    forall|i: int| 0 <= i < some.len() ==> others.contains(#[trigger] some[i])
}

/// Whether each executable comes before those that follow it.
pub open spec fn are_sorted(artifacts: Seq<ArtifactView>) -> bool {
    forall|i: int, j: int|
        0 <= i < j < artifacts.len() ==> is_before(#[trigger] artifacts[i], #[trigger] artifacts[j])
}

/// Whether neighbours are at different paths.
pub open spec fn neighbours_differ(artifacts: Seq<ArtifactView>) -> bool {
    forall|i: int, j: int|
        0 <= i && j == i + 1 && j < artifacts.len() ==> components((#[trigger] artifacts[i]).path)
            != components((#[trigger] artifacts[j]).path)
}

/// Whether each of some executables is at the path of one of the others.
pub open spec fn are_at_paths_of(some: Seq<ArtifactView>, others: Seq<ArtifactView>) -> bool {
    forall|i: int| 0 <= i < some.len() ==> has_path_of(others, #[trigger] some[i])
}

/// Whether these executables stand for the others: they are among them, they are sorted, neighbours
/// are at different paths, and each of the others is at the path of one of them.
pub open spec fn stand_for(kept: Seq<ArtifactView>, artifacts: Seq<ArtifactView>) -> bool {
    &&& are_among(kept, artifacts)
    &&& are_sorted(kept)
    &&& neighbours_differ(kept)
    &&& are_at_paths_of(artifacts, kept)
}

/// The last executable is at the path of the last one that is kept.
proof fn lemma_last_is_kept(artifacts: Seq<ArtifactView>)
    requires
        artifacts.len() > 0,
    ensures
        without_repeats(artifacts).len() > 0,
        components(without_repeats(artifacts).last().path) == components(artifacts.last().path),
{
}

proof fn lemma_kept_are_among(artifacts: Seq<ArtifactView>)
    ensures
        are_among(without_repeats(artifacts), artifacts),
    decreases artifacts.len(),
{
    if artifacts.len() > 0 {
        let front = artifacts.drop_last();
        let before = without_repeats(front);
        let kept = without_repeats(artifacts);
        lemma_kept_are_among(front);
        assert forall|i: int| 0 <= i < kept.len() implies artifacts.contains(#[trigger] kept[i]) by {
            if i < before.len() {
                assert(front.contains(before[i]));
                let k = choose|k: int| 0 <= k < front.len() && front[k] == before[i];
                assert(artifacts[k] == kept[i]);
            } else {
                assert(artifacts[artifacts.len() - 1] == kept[i]);
            }
        }
    }
}

proof fn lemma_kept_are_sorted(artifacts: Seq<ArtifactView>)
    requires
        are_sorted(artifacts),
    ensures
        are_sorted(without_repeats(artifacts)),
    decreases artifacts.len(),
{
    if artifacts.len() > 0 {
        let front = artifacts.drop_last();
        let before = without_repeats(front);
        let kept = without_repeats(artifacts);
        assert(are_sorted(front)) by {
            assert forall|i: int, j: int| 0 <= i < j < front.len() implies is_before(
                #[trigger] front[i],
                #[trigger] front[j],
            ) by {
                assert(is_before(artifacts[i], artifacts[j]));
            }
        }
        lemma_kept_are_sorted(front);
        lemma_kept_are_among(front);
        assert forall|i: int, j: int| 0 <= i < j < kept.len() implies is_before(
            #[trigger] kept[i],
            #[trigger] kept[j],
        ) by {
            if j < before.len() {
                assert(is_before(before[i], before[j]));
            } else {
                assert(front.contains(before[i]));
                let k = choose|k: int| 0 <= k < front.len() && front[k] == before[i];
                assert(is_before(artifacts[k], artifacts[artifacts.len() - 1]));
            }
        }
    }
}

proof fn lemma_kept_neighbours_differ(artifacts: Seq<ArtifactView>)
    ensures
        neighbours_differ(without_repeats(artifacts)),
    decreases artifacts.len(),
{
    if artifacts.len() > 0 {
        let before = without_repeats(artifacts.drop_last());
        let kept = without_repeats(artifacts);
        lemma_kept_neighbours_differ(artifacts.drop_last());
        assert forall|i: int, j: int| 0 <= i && j == i + 1 && j < kept.len() implies components(
            (#[trigger] kept[i]).path,
        ) != components((#[trigger] kept[j]).path) by {
            if j < before.len() {
                assert(components(before[i].path) != components(before[j].path));
            }
        }
    }
}

proof fn lemma_kept_have_all_paths(artifacts: Seq<ArtifactView>)
    ensures
        are_at_paths_of(artifacts, without_repeats(artifacts)),
        artifacts.len() > 0 ==> without_repeats(artifacts).len() > 0 && without_repeats(artifacts)[0]
            == artifacts[0],
    decreases artifacts.len(),
{
    if artifacts.len() > 0 {
        let front = artifacts.drop_last();
        let before = without_repeats(front);
        let kept = without_repeats(artifacts);
        lemma_kept_have_all_paths(front);
        lemma_last_is_kept(artifacts);
        assert forall|i: int| 0 <= i < artifacts.len() implies has_path_of(
            kept,
            #[trigger] artifacts[i],
        ) by {
            if i < front.len() {
                assert(has_path_of(before, front[i]));
                let k = choose|k: int|
                    0 <= k < before.len() && components((#[trigger] before[k]).path) == components(
                        front[i].path,
                    );
                assert(kept[k] == before[k]);
            } else {
                assert(kept[kept.len() - 1] == kept.last());
            }
        }
        if front.len() > 0 {
            assert(kept[0] == before[0]);
        }
    }
}

proof fn lemma_sorted_artifacts(artifacts: Seq<ArtifactView>)
    ensures
        are_sorted(sorted_artifacts(artifacts)),
        are_among(sorted_artifacts(artifacts), artifacts),
        are_among(artifacts, sorted_artifacts(artifacts)),
        sorted_artifacts(artifacts).len() == artifacts.len(),
{
    let keys = artifact_keys(artifacts);
    let order = sorting_order::<ArtifactKey>(keys);
    let sorted = sorted_artifacts(artifacts);
    lemma_stable_order_exists::<ArtifactKey>(keys);
    assert forall|i: int, j: int| 0 <= i < j < sorted.len() implies is_before(
        #[trigger] sorted[i],
        #[trigger] sorted[j],
    ) by {
        assert(comes_before::<ArtifactKey>(keys, order[i], order[j]));
        lemma_before_is_by_key(sorted[i], sorted[j]);
    }
    assert forall|i: int| 0 <= i < sorted.len() implies artifacts.contains(#[trigger] sorted[i]) by {
        assert(sorted[i] == artifacts[order[i]]);
    }
    assert forall|i: int| 0 <= i < artifacts.len() implies sorted.contains(
        #[trigger] artifacts[i],
    ) by {
        assert(lists(order, i));
        let k = choose|k: int| 0 <= k < order.len() && #[trigger] order[k] == i;
        assert(sorted[k] == artifacts[i]);
    }
}

proof fn lemma_text_at_most_itself(text: Seq<char>)
    ensures
        text_at_most(text, text),
    decreases text.len(),
{
    if text.len() > 0 {
        lemma_text_at_most_itself(text.drop_first());
    }
}

/// The executables that an error lists stand for all that Cargo has announced, in their order, and
/// the path that is chosen is that of the first of them, written as it was announced first.
pub proof fn law_listed_executables_stand_for_all(
    result: Result<String, SelectionError>,
    artifacts: Seq<ArtifactView>,
)
    requires
        is_selection(result, artifacts),
    ensures
        result matches Err(SelectionError::SeveralExecutables(names)) ==> exists|
            kept: Seq<ArtifactView>,
        |
            {
                &&& #[trigger] stand_for(kept, artifacts)
                &&& kept.len() == names@.len()
                &&& kept.len() > 1
                &&& forall|i: int| 0 <= i < kept.len() ==> (#[trigger] kept[i]).name == names@[i]@
            },
        result matches Ok(path) ==> exists|i: int|
            {
                &&& 0 <= i < artifacts.len()
                &&& (#[trigger] artifacts[i]).path == path@
                &&& forall|j: int|
                    0 <= j < artifacts.len() && j != i ==> is_before(
                        artifacts[i],
                        #[trigger] artifacts[j],
                    ) && (is_before(artifacts[j], artifacts[i]) ==> i < j)
            },
{
    let sorted = sorted_artifacts(artifacts);
    let kept = without_repeats(sorted);
    match result {
        Err(SelectionError::SeveralExecutables(names)) => {
            lemma_kept_stand_for_all(artifacts);
            assert(texts(names@).len() == kept.len());
            assert forall|i: int| 0 <= i < kept.len() implies (#[trigger] kept[i]).name
                == names@[i]@ by {
                assert(texts(names@)[i] == artifact_names(kept)[i]);
            }
        },
        Ok(path) => {
            let i = lemma_first_is_kept(artifacts);
            assert(artifacts[i].path == path@);
        },
        _ => {},
    }
}

proof fn lemma_kept_stand_for_all(artifacts: Seq<ArtifactView>)
    ensures
        stand_for(without_repeats(sorted_artifacts(artifacts)), artifacts),
{
    let sorted = sorted_artifacts(artifacts);
    let kept = without_repeats(sorted);
    assert(are_among(kept, artifacts)) by {
        lemma_sorted_artifacts(artifacts);
        lemma_kept_are_among(sorted);
        assert forall|i: int| 0 <= i < kept.len() implies artifacts.contains(#[trigger] kept[i]) by {
            assert(sorted.contains(kept[i]));
            let k = choose|k: int| 0 <= k < sorted.len() && sorted[k] == kept[i];
            assert(artifacts.contains(sorted[k]));
        }
    }
    assert(are_at_paths_of(artifacts, kept)) by {
        lemma_sorted_artifacts(artifacts);
        lemma_kept_have_all_paths(sorted);
        assert forall|i: int| 0 <= i < artifacts.len() implies has_path_of(
            kept,
            #[trigger] artifacts[i],
        ) by {
            assert(sorted.contains(artifacts[i]));
            let s = choose|s: int| 0 <= s < sorted.len() && sorted[s] == artifacts[i];
            assert(has_path_of(kept, sorted[s]));
        }
    }
    assert(are_sorted(kept)) by {
        lemma_sorted_artifacts(artifacts);
        lemma_kept_are_sorted(sorted);
    }
    lemma_kept_neighbours_differ(sorted);
}

proof fn lemma_first_is_kept(artifacts: Seq<ArtifactView>) -> (first: int)
    requires
        without_repeats(sorted_artifacts(artifacts)).len() > 0,
    ensures
        0 <= first < artifacts.len(),
        artifacts[first] == without_repeats(sorted_artifacts(artifacts))[0],
        forall|j: int|
            0 <= j < artifacts.len() && j != first ==> is_before(
                artifacts[first],
                #[trigger] artifacts[j],
            ) && (is_before(artifacts[j], artifacts[first]) ==> first < j),
{
    let keys = artifact_keys(artifacts);
    let order = sorting_order::<ArtifactKey>(keys);
    let sorted = sorted_artifacts(artifacts);
    lemma_stable_order_exists::<ArtifactKey>(keys);
    assert(sorted.len() > 0);
    lemma_kept_have_all_paths(sorted);
    let first = order[0];
    assert(sorted[0] == artifacts[first]);
    assert forall|j: int| 0 <= j < artifacts.len() && j != first implies is_before(
        artifacts[first],
        #[trigger] artifacts[j],
    ) && (is_before(artifacts[j], artifacts[first]) ==> first < j) by {
        assert(lists(order, j));
        let k = choose|k: int| 0 <= k < order.len() && #[trigger] order[k] == j;
        assert(comes_before::<ArtifactKey>(keys, order[0], order[k]));
        lemma_before_is_by_key(artifacts[first], artifacts[j]);
        lemma_before_is_by_key(artifacts[j], artifacts[first]);
    }
    first
}

/// The order of executables is that of their keys.
proof fn lemma_before_is_by_key(first: ArtifactView, second: ArtifactView)
    ensures
        is_before(first, second) == ArtifactKey::at_most(key_of(first), key_of(second)),
{
    reveal(is_before);
    if first.name == second.name {
        lemma_text_at_most_itself(first.name);
    }
}

/// By what an executable is sorted.
spec fn key_of(artifact: ArtifactView) -> ArtifactKeyView {
    ArtifactKeyView { name: artifact.name, path: components(artifact.path) }
}

/// Names are listed one after the other, with a comma and a space in between.
pub proof fn law_names_are_listed_with_commas(names: Seq<Seq<char>>, name: Seq<char>)
    ensures
        comma_separated(Seq::<Seq<char>>::empty()).len() == 0,
        names.len() == 0 ==> comma_separated(names.push(name)) == name,
        names.len() > 0 ==> comma_separated(names.push(name)) == comma_separated(names) + seq![
            ',',
            ' ',
        ] + name,
{
    reveal_strlit(", ");
    assert(", "@ =~= seq![',', ' ']);
    assert(names.push(name).drop_last() =~= names);
}

/// Each error says what is wrong, and the second lists the names of the executables.
pub proof fn law_errors_say_what_is_wrong(names: Vec<String>)
    ensures
        SelectionError::NoExecutable.text()
            == "cargo produced no executable ELF artifact; select one with --bin or --example"@,
        SelectionError::SeveralExecutables(names).text() == "cargo produced multiple executables ("@
            + comma_separated(names@.map_values(|name: String| name@))
            + "); select one with --bin"@,
{
    assert(names@.map_values(|name: String| name@) =~= texts(names@));
}

} // verus!
