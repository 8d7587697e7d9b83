//! What holds of every choice of an executable.

use crate::cargo::{
    artifact_keys, artifact_names, artifact_on_line, artifacts_in, is_selection, lines,
    sorted_artifacts, without_repeats, ArtifactKey, ArtifactKeyView, ArtifactView, SelectionError,
};
use crate::order::{comes_before, lemma_stable_order_exists, lists, sorting_order, SortKey};
use crate::source_path::{components, lemma_part_order, part_below, PathPart};
use crate::text::{lemma_char_order, lemma_sequence_antisymmetric};
use vstd::prelude::*;

verus! {

/// What is kept was there before.
proof fn lemma_kept_are_given(artifacts: Seq<ArtifactView>, at: int)
    requires
        0 <= at < without_repeats(artifacts).len(),
    ensures
        artifacts.contains(without_repeats(artifacts)[at]),
    decreases artifacts.len(),
{
    let front = artifacts.drop_last();
    let kept = without_repeats(front);
    if at < kept.len() {
        lemma_kept_are_given(front, at);
        let i = choose|i: int| 0 <= i < front.len() && front[i] == kept[at];
        assert(artifacts[i] == kept[at]);
    } else {
        assert(artifacts[artifacts.len() - 1] == without_repeats(artifacts)[at]);
    }
}

/// Of some executables at least one is kept.
proof fn lemma_some_are_kept(artifacts: Seq<ArtifactView>)
    requires
        artifacts.len() > 0,
    ensures
        without_repeats(artifacts).len() > 0,
{
}

/// Of executables at one path one is kept.
proof fn lemma_one_path_is_kept_once(artifacts: Seq<ArtifactView>, path: Seq<PathPart>)
    requires
        artifacts.len() > 0,
        forall|i: int| 0 <= i < artifacts.len() ==> components((#[trigger] artifacts[i]).path) == path,
    ensures
        without_repeats(artifacts).len() == 1,
    decreases artifacts.len(),
{
    let front = artifacts.drop_last();
    if front.len() > 0 {
        assert forall|i: int| 0 <= i < front.len() implies components((#[trigger] front[i]).path)
            == path by {
            assert(front[i] == artifacts[i]);
        }
        lemma_one_path_is_kept_once(front, path);
        let kept = without_repeats(front);
        lemma_kept_are_given(front, 0);
        let i = choose|i: int| 0 <= i < front.len() && front[i] == kept[0];
        assert(components(front[i].path) == path);
    } else {
        assert(without_repeats(front).len() == 0);
    }
    assert(artifacts[artifacts.len() - 1] == artifacts.last());
}

/// The executable that is chosen is one that Cargo has announced.
pub proof fn law_chosen_executable_was_announced(
    result: Result<String, SelectionError>,
    artifacts: Seq<ArtifactView>,
)
    requires
        is_selection(result, artifacts),
    ensures
        result matches Ok(path) ==> exists|i: int|
            0 <= i < artifacts.len() && (#[trigger] artifacts[i]).path == path@,
{
    if let Ok(path) = result {
        let keys = artifact_keys(artifacts);
        let order = sorting_order::<ArtifactKey>(keys);
        let sorted = sorted_artifacts(artifacts);
        lemma_stable_order_exists::<ArtifactKey>(keys);
        lemma_kept_are_given(sorted, 0);
        let i = choose|i: int|
            0 <= i < sorted.len() && sorted[i] == without_repeats(sorted)[0];
        assert(sorted[i] == artifacts[order[i]]);
    }
}

/// There is no executable to choose exactly when Cargo has announced none.
pub proof fn law_no_executable_means_none_announced(
    result: Result<String, SelectionError>,
    artifacts: Seq<ArtifactView>,
)
    requires
        is_selection(result, artifacts),
    ensures
        result matches Err(SelectionError::NoExecutable) <==> artifacts.len() == 0,
{
    lemma_stable_order_exists::<ArtifactKey>(artifact_keys(artifacts));
    let sorted = sorted_artifacts(artifacts);
    assert(sorted.len() == artifacts.len());
    if artifacts.len() > 0 {
        lemma_some_are_kept(sorted);
    }
}

/// An executable is chosen where all that Cargo has announced are at one path.
pub proof fn law_only_path_is_chosen(
    result: Result<String, SelectionError>,
    artifacts: Seq<ArtifactView>,
    path: Seq<PathPart>,
)
    requires
        is_selection(result, artifacts),
        artifacts.len() > 0,
        forall|i: int| 0 <= i < artifacts.len() ==> components((#[trigger] artifacts[i]).path) == path,
    ensures
        result is Ok,
{
    let keys = artifact_keys(artifacts);
    let order = sorting_order::<ArtifactKey>(keys);
    let sorted = sorted_artifacts(artifacts);
    lemma_stable_order_exists::<ArtifactKey>(keys);
    assert forall|i: int| 0 <= i < sorted.len() implies components((#[trigger] sorted[i]).path)
        == path by {
        assert(sorted[i] == artifacts[order[i]]);
    }
    lemma_one_path_is_kept_once(sorted, path);
}

/// Where one executable is kept, all are at its path.
proof fn lemma_kept_path_is_the_only_one(artifacts: Seq<ArtifactView>, at: int)
    requires
        without_repeats(artifacts).len() == 1,
        0 <= at < artifacts.len(),
    ensures
        components(artifacts[at].path) == components(without_repeats(artifacts)[0].path),
    decreases artifacts.len(),
{
    let front = artifacts.drop_last();
    if front.len() > 0 {
        lemma_some_are_kept(front);
        if at < front.len() {
            lemma_kept_path_is_the_only_one(front, at);
        }
    }
}

/// Executables at different paths are an error that names several.
pub proof fn law_different_paths_are_an_error(
    result: Result<String, SelectionError>,
    artifacts: Seq<ArtifactView>,
    first: int,
    second: int,
)
    requires
        is_selection(result, artifacts),
        0 <= first < artifacts.len(),
        0 <= second < artifacts.len(),
        components(artifacts[first].path) != components(artifacts[second].path),
    ensures
        result matches Err(SelectionError::SeveralExecutables(_)),
{
    let keys = artifact_keys(artifacts);
    let order = sorting_order::<ArtifactKey>(keys);
    let sorted = sorted_artifacts(artifacts);
    lemma_stable_order_exists::<ArtifactKey>(keys);
    lemma_some_are_kept(sorted);
    if without_repeats(sorted).len() == 1 {
        assert(lists(order, first));
        assert(lists(order, second));
        let a = choose|k: int| 0 <= k < order.len() && #[trigger] order[k] == first;
        let b = choose|k: int| 0 <= k < order.len() && #[trigger] order[k] == second;
        lemma_kept_path_is_the_only_one(sorted, a);
        lemma_kept_path_is_the_only_one(sorted, b);
    }
}

/// Keys that come before each other are equal.
proof fn lemma_keys_antisymmetric(left: ArtifactKeyView, right: ArtifactKeyView)
    requires
        ArtifactKey::at_most(left, right),
        ArtifactKey::at_most(right, left),
    ensures
        left == right,
{
    lemma_char_order();
    lemma_part_order();
    if left.name == right.name {
        lemma_sequence_antisymmetric(
            left.path,
            right.path,
            |a: PathPart, b: PathPart| part_below(a, b),
        );
    } else {
        lemma_sequence_antisymmetric(left.name, right.name, |a: char, b: char| a < b);
    }
}

/// The keys without those that follow one with the same path.
spec fn kept_keys(keys: Seq<ArtifactKeyView>) -> Seq<ArtifactKeyView>
    decreases keys.len(),
{
    if keys.len() == 0 {
        keys
    } else {
        let kept = kept_keys(keys.drop_last());
        if kept.len() > 0 && kept.last().path == keys.last().path {
            kept
        } else {
            kept.push(keys.last())
        }
    }
}

/// The keys without those that follow the same key.
spec fn distinct_keys(keys: Seq<ArtifactKeyView>) -> Seq<ArtifactKeyView>
    decreases keys.len(),
{
    if keys.len() == 0 {
        keys
    } else {
        let distinct = distinct_keys(keys.drop_last());
        if distinct.len() > 0 && distinct.last() == keys.last() {
            distinct
        } else {
            distinct.push(keys.last())
        }
    }
}

/// Whether each key comes before all that follow it, and equals none of them.
spec fn ascends(keys: Seq<ArtifactKeyView>) -> bool {
    forall|i: int, j: int|
        0 <= i < j < keys.len() ==> ArtifactKey::at_most(#[trigger] keys[i], #[trigger] keys[j])
            && keys[i] != keys[j]
}

/// Which executables are kept depends on their keys.
proof fn lemma_keys_of_kept(artifacts: Seq<ArtifactView>)
    ensures
        artifact_keys(without_repeats(artifacts)) == kept_keys(artifact_keys(artifacts)),
    decreases artifacts.len(),
{
    if artifacts.len() == 0 {
        assert(artifact_keys(without_repeats(artifacts)) =~= kept_keys(artifact_keys(artifacts)));
    } else {
        let front = artifacts.drop_last();
        let kept = without_repeats(front);
        lemma_keys_of_kept(front);
        assert(artifact_keys(artifacts).drop_last() =~= artifact_keys(front));
        assert(artifact_keys(kept.push(artifacts.last())) =~= artifact_keys(kept).push(
            artifact_keys(artifacts).last(),
        ));
        if kept.len() > 0 {
            assert(artifact_keys(kept).last().path == components(kept.last().path));
        }
    }
}

/// The path of the last key is that of the last key kept.
proof fn lemma_last_path_is_kept(keys: Seq<ArtifactKeyView>)
    requires
        keys.len() > 0,
    ensures
        kept_keys(keys).len() > 0,
        kept_keys(keys).last().path == keys.last().path,
{
}

/// Repeated keys do not change which are kept.
proof fn lemma_kept_of_distinct(keys: Seq<ArtifactKeyView>)
    ensures
        kept_keys(distinct_keys(keys)) == kept_keys(keys),
    decreases keys.len(),
{
    if keys.len() > 0 {
        let front = keys.drop_last();
        let distinct = distinct_keys(front);
        lemma_kept_of_distinct(front);
        if distinct.len() > 0 && distinct.last() == keys.last() {
            lemma_last_path_is_kept(distinct);
        } else {
            assert(distinct.push(keys.last()).drop_last() =~= distinct);
        }
    }
}

/// The distinct keys of a sorted sequence ascend, and they are the keys of the sequence.
proof fn lemma_distinct_keys_ascend(keys: Seq<ArtifactKeyView>)
    requires
        forall|i: int, j: int|
            0 <= i < j < keys.len() ==> ArtifactKey::at_most(#[trigger] keys[i], #[trigger] keys[j]),
    ensures
        ascends(distinct_keys(keys)),
        forall|key: ArtifactKeyView|
            #![trigger distinct_keys(keys).contains(key)]
            #![trigger keys.contains(key)]
            distinct_keys(keys).contains(key) <==> keys.contains(key),
    decreases keys.len(),
{
    if keys.len() > 0 {
        let front = keys.drop_last();
        let distinct = distinct_keys(front);
        let last = keys.last();
        let all = distinct_keys(keys);
        lemma_distinct_keys_ascend(front);
        assert forall|i: int| 0 <= i < distinct.len() implies ArtifactKey::at_most(
            #[trigger] distinct[i],
            last,
        ) by {
            assert(front.contains(distinct[i]));
            let k = choose|k: int| 0 <= k < front.len() && front[k] == distinct[i];
            assert(ArtifactKey::at_most(keys[k], keys[keys.len() - 1]));
        }
        if !(distinct.len() > 0 && distinct.last() == last) {
            assert forall|i: int| 0 <= i < distinct.len() implies #[trigger] distinct[i]
                != last by {
                if distinct[i] == last {
                    assert(ArtifactKey::at_most(distinct[distinct.len() - 1], last));
                    assert(i < distinct.len() - 1);
                    lemma_keys_antisymmetric(distinct[i], distinct[distinct.len() - 1]);
                }
            }
            assert(all == distinct.push(last));
        }
        assert forall|key: ArtifactKeyView| all.contains(key) <==> keys.contains(key) by {
            if all.contains(key) {
                let i = choose|i: int| 0 <= i < all.len() && all[i] == key;
                if i < distinct.len() {
                    assert(distinct.contains(key));
                    assert(front.contains(key));
                    let k = choose|k: int| 0 <= k < front.len() && front[k] == key;
                    assert(keys[k] == key);
                } else {
                    assert(keys[keys.len() - 1] == key);
                }
            }
            if keys.contains(key) {
                let i = choose|i: int| 0 <= i < keys.len() && keys[i] == key;
                if i < front.len() {
                    assert(front[i] == key);
                    assert(front.contains(key));
                    let k = choose|k: int| 0 <= k < distinct.len() && distinct[k] == key;
                    assert(all[k] == key);
                } else {
                    assert(all[all.len() - 1] == key);
                }
            }
        }
    }
}

/// Keys that ascend are determined by which keys there are.
proof fn lemma_ascending_keys_are_unique(
    first: Seq<ArtifactKeyView>,
    second: Seq<ArtifactKeyView>,
)
    requires
        ascends(first),
        ascends(second),
        forall|key: ArtifactKeyView|
            #![trigger first.contains(key)]
            #![trigger second.contains(key)]
            first.contains(key) <==> second.contains(key),
    ensures
        first == second,
    decreases first.len(),
{
    if first.len() == 0 {
        if second.len() > 0 {
            assert(second.contains(second[0]));
        }
        assert(first =~= second);
    } else {
        assert(first.contains(first.last()));
        assert(second.contains(first.last()));
        assert(second.contains(second.last()));
        assert(first.contains(second.last()));
        let i = choose|i: int| 0 <= i < second.len() && second[i] == first.last();
        let j = choose|j: int| 0 <= j < first.len() && first[j] == second.last();
        if i < second.len() - 1 && j < first.len() - 1 {
            assert(ArtifactKey::at_most(second[i], second[second.len() - 1]));
            assert(ArtifactKey::at_most(first[j], first[first.len() - 1]));
            lemma_keys_antisymmetric(first.last(), second.last());
        }
        assert(first.last() == second.last());
        let a = first.drop_last();
        let b = second.drop_last();
        assert forall|key: ArtifactKeyView| a.contains(key) <==> b.contains(key) by {
            if a.contains(key) {
                let k = choose|k: int| 0 <= k < a.len() && a[k] == key;
                assert(first[k] == key && first[k] != first[first.len() - 1]);
                assert(first.contains(key));
                let m = choose|m: int| 0 <= m < second.len() && second[m] == key;
                assert(b[m] == key);
            }
            if b.contains(key) {
                let k = choose|k: int| 0 <= k < b.len() && b[k] == key;
                assert(second[k] == key && second[k] != second[second.len() - 1]);
                assert(second.contains(key));
                let m = choose|m: int| 0 <= m < first.len() && first[m] == key;
                assert(a[m] == key);
            }
        }
        lemma_ascending_keys_are_unique(a, b);
        assert(first =~= a.push(first.last()));
        assert(second =~= b.push(second.last()));
    }
}

/// Whether the same executables are in both sequences.
spec fn has_same_artifacts(first: Seq<ArtifactView>, second: Seq<ArtifactView>) -> bool {
    forall|artifact: ArtifactView| first.contains(artifact) <==> second.contains(artifact)
}

/// Sorting keeps the executables.
proof fn lemma_sorted_keys(artifacts: Seq<ArtifactView>)
    ensures
        forall|i: int, j: int|
            #![trigger artifact_keys(sorted_artifacts(artifacts))[i], artifact_keys(
                sorted_artifacts(artifacts),
            )[j]]
            0 <= i < j < sorted_artifacts(artifacts).len() ==> ArtifactKey::at_most(
                artifact_keys(sorted_artifacts(artifacts))[i],
                artifact_keys(sorted_artifacts(artifacts))[j],
            ),
        has_same_artifacts(artifacts, sorted_artifacts(artifacts)),
{
    let keys = artifact_keys(artifacts);
    let order = sorting_order::<ArtifactKey>(keys);
    let sorted = sorted_artifacts(artifacts);
    lemma_stable_order_exists::<ArtifactKey>(keys);
    assert forall|i: int, j: int|
        #![trigger artifact_keys(sorted)[i], artifact_keys(sorted)[j]]
        0 <= i < j < sorted.len() implies ArtifactKey::at_most(
        artifact_keys(sorted)[i],
        artifact_keys(sorted)[j],
    ) by {
        assert(comes_before::<ArtifactKey>(keys, order[i], order[j]));
    }
    assert forall|artifact: ArtifactView| artifacts.contains(artifact) <==> sorted.contains(
        artifact,
    ) by {
        if artifacts.contains(artifact) {
            let i = choose|i: int| 0 <= i < artifacts.len() && artifacts[i] == artifact;
            assert(lists(order, i));
            let k = choose|k: int| 0 <= k < order.len() && #[trigger] order[k] == i;
            assert(sorted[k] == artifact);
        }
        if sorted.contains(artifact) {
            let k = choose|k: int| 0 <= k < sorted.len() && sorted[k] == artifact;
            assert(artifacts[order[k]] == artifact);
        }
    }
}

/// The same executables have the same keys.
proof fn lemma_same_keys(first: Seq<ArtifactView>, second: Seq<ArtifactView>, key: ArtifactKeyView)
    requires
        has_same_artifacts(first, second),
        artifact_keys(first).contains(key),
    ensures
        artifact_keys(second).contains(key),
{
    let i = choose|i: int|
        0 <= i < artifact_keys(first).len() && artifact_keys(first)[i] == key;
    assert(first.contains(first[i]));
    let j = choose|j: int| 0 <= j < second.len() && second[j] == first[i];
    assert(artifact_keys(second)[j] == key);
}

/// Which keys are kept depends on which executables there are, not on their order or number.
proof fn lemma_kept_depend_on_artifacts(first: Seq<ArtifactView>, second: Seq<ArtifactView>)
    requires
        has_same_artifacts(first, second),
    ensures
        artifact_keys(without_repeats(sorted_artifacts(first))) == artifact_keys(
            without_repeats(sorted_artifacts(second)),
        ),
{
    let a = sorted_artifacts(first);
    let b = sorted_artifacts(second);
    lemma_sorted_keys(first);
    lemma_sorted_keys(second);
    lemma_distinct_keys_ascend(artifact_keys(a));
    lemma_distinct_keys_ascend(artifact_keys(b));
    assert(has_same_artifacts(a, b) && has_same_artifacts(b, a));
    assert forall|key: ArtifactKeyView|
        artifact_keys(a).contains(key) <==> artifact_keys(b).contains(key) by {
        if artifact_keys(a).contains(key) {
            lemma_same_keys(a, b, key);
        }
        if artifact_keys(b).contains(key) {
            lemma_same_keys(b, a, key);
        }
    }
    assert forall|key: ArtifactKeyView|
        distinct_keys(artifact_keys(a)).contains(key) <==> distinct_keys(
            artifact_keys(b),
        ).contains(key) by {
        assert(artifact_keys(a).contains(key) <==> artifact_keys(b).contains(key));
    }
    lemma_ascending_keys_are_unique(
        distinct_keys(artifact_keys(a)),
        distinct_keys(artifact_keys(b)),
    );
    lemma_kept_of_distinct(artifact_keys(a));
    lemma_kept_of_distinct(artifact_keys(b));
    lemma_keys_of_kept(a);
    lemma_keys_of_kept(b);
}

/// Whether two selections come to the same: the same path, component by component, or errors that
/// say the same.
pub open spec fn is_same_selection(
    first: Result<String, SelectionError>,
    second: Result<String, SelectionError>,
) -> bool {
    match (first, second) {
        (Ok(first), Ok(second)) => components(first@) == components(second@),
        (Err(first), Err(second)) => first.text() == second.text(),
        _ => false,
    }
}

/// Whether no path is written in two ways.
pub open spec fn paths_have_one_spelling(artifacts: Seq<ArtifactView>) -> bool {
    forall|i: int, j: int|
        0 <= i < artifacts.len() && 0 <= j < artifacts.len() && components(
            (#[trigger] artifacts[i]).path,
        ) == components((#[trigger] artifacts[j]).path) ==> artifacts[i].path == artifacts[j].path
}

/// What the output announces is what its lines announce.
proof fn lemma_announced_on_a_line(
    all: Seq<Seq<char>>,
    examples: bool,
    artifact: ArtifactView,
)
    ensures
        all.filter_map(|line: Seq<char>| artifact_on_line(line, examples)).contains(artifact)
            <==> exists|i: int|
            0 <= i < all.len() && artifact_on_line(#[trigger] all[i], examples) == Some(artifact),
    decreases all.len(),
{
    let pick = |line: Seq<char>| artifact_on_line(line, examples);
    let found = all.filter_map(pick);
    if all.len() > 0 {
        let front = all.drop_last();
        let earlier = front.filter_map(pick);
        lemma_announced_on_a_line(front, examples, artifact);
        assert forall|i: int| 0 <= i < front.len() implies front[i] == #[trigger] all[i] by {}
        if found.contains(artifact) {
            let k = choose|k: int| 0 <= k < found.len() && found[k] == artifact;
            if k < earlier.len() {
                assert(earlier[k] == artifact);
                let i = choose|i: int|
                    0 <= i < front.len() && artifact_on_line(#[trigger] front[i], examples) == Some(
                        artifact,
                    );
                assert(artifact_on_line(all[i], examples) == Some(artifact));
            } else {
                assert(artifact_on_line(all[all.len() - 1], examples) == Some(artifact));
            }
        }
        if exists|i: int|
            0 <= i < all.len() && artifact_on_line(#[trigger] all[i], examples) == Some(artifact) {
            let i = choose|i: int|
                0 <= i < all.len() && artifact_on_line(#[trigger] all[i], examples) == Some(
                    artifact,
                );
            if i < front.len() {
                assert(artifact_on_line(front[i], examples) == Some(artifact));
                let k = choose|k: int| 0 <= k < earlier.len() && earlier[k] == artifact;
                assert(found[k] == artifact);
            } else {
                assert(found[found.len() - 1] == artifact);
            }
        }
    }
}

/// Outputs with the same accepted lines announce the same executables.
proof fn lemma_same_lines_announce_the_same(
    first: Seq<char>,
    second: Seq<char>,
    examples: bool,
    artifact: ArtifactView,
)
    requires
        forall|line: Seq<char>|
            #![trigger lines(second).contains(line)]
            artifact_on_line(line, examples) is Some && lines(first).contains(line) ==> lines(
                second,
            ).contains(line),
        artifacts_in(first, examples).contains(artifact),
    ensures
        artifacts_in(second, examples).contains(artifact),
{
    lemma_announced_on_a_line(lines(first), examples, artifact);
    lemma_announced_on_a_line(lines(second), examples, artifact);
    let i = choose|i: int|
        0 <= i < lines(first).len() && artifact_on_line(#[trigger] lines(first)[i], examples)
            == Some(artifact);
    let line = lines(first)[i];
    assert(lines(second).contains(line));
    let j = choose|j: int| 0 <= j < lines(second).len() && lines(second)[j] == line;
    assert(artifact_on_line(lines(second)[j], examples) == Some(artifact));
}

/// What is selected depends on nothing but which accepted lines Cargo has printed: their order,
/// repeated lines, and lines that announce nothing to analyze make no difference. The path that is
/// selected can be written differently only where Cargo has announced it in more than one way.
pub proof fn law_only_accepted_lines_matter(
    first: Result<String, SelectionError>,
    first_output: Seq<char>,
    second: Result<String, SelectionError>,
    second_output: Seq<char>,
    examples: bool,
)
    requires
        is_selection(first, artifacts_in(first_output, examples)),
        is_selection(second, artifacts_in(second_output, examples)),
        forall|line: Seq<char>|
            #![trigger lines(first_output).contains(line)]
            #![trigger lines(second_output).contains(line)]
            artifact_on_line(line, examples) is Some ==> (lines(first_output).contains(line)
                <==> lines(second_output).contains(line)),
    ensures
        is_same_selection(first, second),
        paths_have_one_spelling(artifacts_in(first_output, examples)) ==> match (first, second) {
            (Ok(first), Ok(second)) => first@ == second@,
            _ => true,
        },
{
    let a = artifacts_in(first_output, examples);
    let b = artifacts_in(second_output, examples);
    assert forall|artifact: ArtifactView| a.contains(artifact) <==> b.contains(artifact) by {
        if a.contains(artifact) {
            lemma_same_lines_announce_the_same(first_output, second_output, examples, artifact);
        }
        if b.contains(artifact) {
            lemma_same_lines_announce_the_same(second_output, first_output, examples, artifact);
        }
    }
    lemma_kept_depend_on_artifacts(a, b);
    let kept_a = without_repeats(sorted_artifacts(a));
    let kept_b = without_repeats(sorted_artifacts(b));
    assert(kept_a.len() == artifact_keys(kept_a).len());
    assert(kept_b.len() == artifact_keys(kept_b).len());
    if let (Ok(x), Ok(y)) = (first, second) {
        assert(artifact_keys(kept_a)[0].path == components(kept_a[0].path));
        assert(artifact_keys(kept_b)[0].path == components(kept_b[0].path));
        lemma_kept_are_given(sorted_artifacts(a), 0);
        lemma_kept_are_given(sorted_artifacts(b), 0);
        lemma_sorted_keys(a);
        lemma_sorted_keys(b);
        assert(a.contains(kept_a[0]));
        assert(a.contains(kept_b[0]));
        let i = choose|i: int| 0 <= i < a.len() && a[i] == kept_a[0];
        let j = choose|j: int| 0 <= j < a.len() && a[j] == kept_b[0];
        assert(a[i].path == x@ && a[j].path == y@);
    }
    assert(artifact_names(kept_a) =~= artifact_names(kept_b)) by {
        assert forall|i: int| 0 <= i < kept_a.len() implies artifact_names(kept_a)[i]
            == artifact_names(kept_b)[i] by {
            assert(artifact_keys(kept_a)[i].name == kept_a[i].name);
            assert(artifact_keys(kept_b)[i].name == kept_b[i].name);
        }
    }
}

} // verus!
