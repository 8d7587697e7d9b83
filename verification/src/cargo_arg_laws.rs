//! What holds of the arguments with which Cargo is run: each option of the user is handed on, and
//! none depends on another.

use crate::cargo::{build_args, flag_args, option_args, BuildOptions, CargoArgView};
use crate::text::optional_text;
use vstd::prelude::*;

verus! {

/// How many arguments a flag takes.
pub open spec fn flag_length(set: bool) -> int {
    if set {
        1
    } else {
        0
    }
}

/// How many arguments an option takes.
pub open spec fn option_length(value: Option<String>) -> int {
    match value {
        Some(_) => 2,
        None => 0,
    }
}

/// The arguments, option by option.
#[verifier::opaque]
spec fn groups(options: BuildOptions) -> Seq<Seq<CargoArgView>> {
    seq![
        seq![
            CargoArgView::Text("build"@),
            CargoArgView::Text("--message-format=json-render-diagnostics"@),
        ],
        flag_args(options.release, "--release"@),
        option_args("--profile"@, optional_text(options.profile)),
        option_args("--target"@, optional_text(options.target)),
        option_args("--package"@, optional_text(options.package)),
        if options.manifest_path {
            seq![CargoArgView::Text("--manifest-path"@), CargoArgView::ManifestPath]
        } else {
            Seq::<CargoArgView>::empty()
        },
        option_args("--bin"@, optional_text(options.bin)),
        option_args("--example"@, optional_text(options.example)),
        option_args("--features"@, optional_text(options.features)),
        flag_args(options.all_features, "--all-features"@),
        flag_args(options.no_default_features, "--no-default-features"@),
    ]
}

/// The groups from one on up to another, in a row.
spec fn in_a_row(all: Seq<Seq<CargoArgView>>, from: int, to: int) -> Seq<CargoArgView>
    decreases to - from,
{
    if to <= from {
        Seq::<CargoArgView>::empty()
    } else {
        in_a_row(all, from, to - 1) + all[to - 1]
    }
}

/// How many arguments the first groups hold.
spec fn length_of(all: Seq<Seq<CargoArgView>>, count: int) -> int
    decreases count,
{
    if count <= 0 {
        0
    } else {
        length_of(all, count - 1) + all[count - 1].len()
    }
}

proof fn lemma_length_of(all: Seq<Seq<CargoArgView>>, count: int)
    ensures
        in_a_row(all, 0, count).len() == length_of(all, count),
    decreases count,
{
    if count > 0 {
        lemma_length_of(all, count - 1);
    }
}

proof fn lemma_row_is_parted(all: Seq<Seq<CargoArgView>>, at: int, to: int)
    requires
        0 <= at <= to,
    ensures
        in_a_row(all, 0, to) == in_a_row(all, 0, at) + in_a_row(all, at, to),
    decreases to,
{
    if at == to {
        assert(in_a_row(all, 0, at) + in_a_row(all, at, to) =~= in_a_row(all, 0, to));
    } else {
        lemma_row_is_parted(all, at, to - 1);
        assert(in_a_row(all, 0, at) + in_a_row(all, at, to - 1) + all[to - 1] =~= in_a_row(
            all,
            0,
            at,
        ) + (in_a_row(all, at, to - 1) + all[to - 1]));
    }
}

proof fn lemma_same_row(
    first: Seq<Seq<CargoArgView>>,
    second: Seq<Seq<CargoArgView>>,
    from: int,
    to: int,
)
    requires
        forall|i: int| from <= i < to ==> #[trigger] first[i] == second[i],
    ensures
        in_a_row(first, from, to) == in_a_row(second, from, to),
    decreases to - from,
{
    if from < to {
        lemma_same_row(first, second, from, to - 1);
        assert(first[to - 1] == second[to - 1]);
    }
}

proof fn lemma_groups(options: BuildOptions)
    ensures
        build_args(options) == in_a_row(groups(options), 0, 11),
{
    reveal(groups);
    reveal_with_fuel(in_a_row, 13);
    let base = groups(options)[0];
    assert(Seq::<CargoArgView>::empty() + base =~= base);
}

/// A group stands behind those in front of it.
proof fn lemma_place_of_group(options: BuildOptions, at: int) -> (parts: (
    Seq<CargoArgView>,
    Seq<CargoArgView>,
))
    requires
        0 <= at < 11,
    ensures
        parts.0.len() == length_of(groups(options), at),
        parts.0 == in_a_row(groups(options), 0, at),
        parts.1 == in_a_row(groups(options), at + 1, 11),
        build_args(options) == parts.0 + groups(options)[at] + parts.1,
{
    let all = groups(options);
    lemma_groups(options);
    lemma_length_of(all, at);
    lemma_row_is_parted(all, at + 1, 11);
    (in_a_row(all, 0, at), in_a_row(all, at + 1, 11))
}

/// A group of arguments is put between those in front of it and those behind it.
proof fn lemma_group_is_put_in(with: BuildOptions, without: BuildOptions, at: int)
    requires
        0 < at < 11,
        forall|i: int| 0 <= i < 11 && i != at ==> #[trigger] groups(with)[i] == groups(without)[i],
        groups(without)[at].len() == 0,
    ensures
        0 <= length_of(groups(without), at) <= build_args(without).len(),
        build_args(with) == build_args(without).take(length_of(groups(without), at)) + groups(
            with,
        )[at] + build_args(without).skip(length_of(groups(without), at)),
{
    let (front, back) = lemma_place_of_group(with, at);
    let (front_without, back_without) = lemma_place_of_group(without, at);
    lemma_same_row(groups(with), groups(without), 0, at);
    lemma_same_row(groups(with), groups(without), at + 1, 11);
    assert(front + groups(without)[at] =~= front);
    assert((front + back).take(front.len() as int) =~= front);
    assert((front + back).skip(front.len() as int) =~= back);
}

/// How many arguments stand in front of each group.
proof fn lemma_lengths(options: BuildOptions)
    ensures
        length_of(groups(options), 1) == 2,
        length_of(groups(options), 2) == length_of(groups(options), 1) + flag_length(options.release),
        length_of(groups(options), 3) == length_of(groups(options), 2) + option_length(options.profile),
        length_of(groups(options), 4) == length_of(groups(options), 3) + option_length(options.target),
        length_of(groups(options), 5) == length_of(groups(options), 4) + option_length(options.package),
        length_of(groups(options), 6) == length_of(groups(options), 5) + 2 * flag_length(options.manifest_path),
        length_of(groups(options), 7) == length_of(groups(options), 6) + option_length(options.bin),
        length_of(groups(options), 8) == length_of(groups(options), 7) + option_length(options.example),
        length_of(groups(options), 9) == length_of(groups(options), 8) + option_length(options.features),
        length_of(groups(options), 10) == length_of(groups(options), 9) + flag_length(options.all_features),
        length_of(groups(options), 11) == length_of(groups(options), 10) + flag_length(options.no_default_features),
{
    reveal(groups);
    reveal_with_fuel(length_of, 12);
}

/// An option stands in front of its value, whatever they are, and without a value there is neither.
pub proof fn law_options_stand_in_front_of_their_values(flag: Seq<char>, value: Seq<char>)
    ensures
        option_args(flag, None).len() == 0,
        option_args(flag, Some(value)).len() == 2,
        option_args(flag, Some(value))[0] == CargoArgView::Text(flag),
        option_args(flag, Some(value))[1] == CargoArgView::Text(value),
{
}

/// Without options Cargo is asked to build and to report what it has built as JSON.
pub proof fn law_builds_are_reported(options: BuildOptions)
    requires
        !options.release,
        options.profile is None,
        options.target is None,
        options.package is None,
        !options.manifest_path,
        options.bin is None,
        options.example is None,
        options.features is None,
        !options.all_features,
        !options.no_default_features,
    ensures
        build_args(options) == seq![
            CargoArgView::Text("build"@),
            CargoArgView::Text("--message-format=json-render-diagnostics"@),
        ],
{
    assert(build_args(options) =~= seq![
        CargoArgView::Text("build"@),
        CargoArgView::Text("--message-format=json-render-diagnostics"@),
    ]);
}

/// `--release` is handed on where it is set, and leaves every other argument as it is.
pub proof fn law_release_is_handed_on(options: BuildOptions)
    ensures
        ({
            let with = build_args(BuildOptions { release: true, ..options });
            let without = build_args(BuildOptions { release: false, ..options });
            let at = 2;
            &&& 0 <= at <= without.len()
            &&& with == without.take(at) + seq![CargoArgView::Text("--release"@)] + without.skip(at)
        }),
{
    let with = BuildOptions { release: true, ..options };
    let without = BuildOptions { release: false, ..options };
    assert forall|i: int| 0 <= i < 11 && i != 1 implies #[trigger] groups(with)[i] == groups(
        without,
    )[i] by {
        reveal(groups);
    }
    assert(groups(with)[1] == seq![CargoArgView::Text("--release"@)] && groups(without)[1].len() == 0) by {
        reveal(groups);
    }
    lemma_lengths(without);
    lemma_group_is_put_in(with, without, 1);
}

/// `--profile` is handed on with its value where it has one, and leaves every other argument as it
/// is.
pub proof fn law_profile_is_handed_on(options: BuildOptions, value: String)
    ensures
        ({
            let with = build_args(BuildOptions { profile: Some(value), ..options });
            let without = build_args(BuildOptions { profile: None, ..options });
            let at = 2 + flag_length(options.release);
            &&& 0 <= at <= without.len()
            &&& with == without.take(at) + seq![
                CargoArgView::Text("--profile"@),
                CargoArgView::Text(value@),
            ] + without.skip(at)
        }),
{
    let with = BuildOptions { profile: Some(value), ..options };
    let without = BuildOptions { profile: None, ..options };
    assert forall|i: int| 0 <= i < 11 && i != 2 implies #[trigger] groups(with)[i] == groups(
        without,
    )[i] by {
        reveal(groups);
    }
    assert(groups(with)[2] == seq![
        CargoArgView::Text("--profile"@),
        CargoArgView::Text(value@),
    ] && groups(without)[2].len() == 0) by {
        reveal(groups);
    }
    lemma_lengths(without);
    lemma_group_is_put_in(with, without, 2);
}

/// `--target` is handed on with its value where it has one, and leaves every other argument as it
/// is.
pub proof fn law_target_is_handed_on(options: BuildOptions, value: String)
    ensures
        ({
            let with = build_args(BuildOptions { target: Some(value), ..options });
            let without = build_args(BuildOptions { target: None, ..options });
            let at = 2 + flag_length(options.release) + option_length(options.profile);
            &&& 0 <= at <= without.len()
            &&& with == without.take(at) + seq![
                CargoArgView::Text("--target"@),
                CargoArgView::Text(value@),
            ] + without.skip(at)
        }),
{
    let with = BuildOptions { target: Some(value), ..options };
    let without = BuildOptions { target: None, ..options };
    assert forall|i: int| 0 <= i < 11 && i != 3 implies #[trigger] groups(with)[i] == groups(
        without,
    )[i] by {
        reveal(groups);
    }
    assert(groups(with)[3] == seq![
        CargoArgView::Text("--target"@),
        CargoArgView::Text(value@),
    ] && groups(without)[3].len() == 0) by {
        reveal(groups);
    }
    lemma_lengths(without);
    lemma_group_is_put_in(with, without, 3);
}

/// `--package` is handed on with its value where it has one, and leaves every other argument as it
/// is.
pub proof fn law_package_is_handed_on(options: BuildOptions, value: String)
    ensures
        ({
            let with = build_args(BuildOptions { package: Some(value), ..options });
            let without = build_args(BuildOptions { package: None, ..options });
            let at = 2 + flag_length(options.release) + option_length(options.profile)
                + option_length(options.target);
            &&& 0 <= at <= without.len()
            &&& with == without.take(at) + seq![
                CargoArgView::Text("--package"@),
                CargoArgView::Text(value@),
            ] + without.skip(at)
        }),
{
    let with = BuildOptions { package: Some(value), ..options };
    let without = BuildOptions { package: None, ..options };
    assert forall|i: int| 0 <= i < 11 && i != 4 implies #[trigger] groups(with)[i] == groups(
        without,
    )[i] by {
        reveal(groups);
    }
    assert(groups(with)[4] == seq![
        CargoArgView::Text("--package"@),
        CargoArgView::Text(value@),
    ] && groups(without)[4].len() == 0) by {
        reveal(groups);
    }
    lemma_lengths(without);
    lemma_group_is_put_in(with, without, 4);
}

/// `--manifest-path` is handed on with the path where the user named one, and leaves every other
/// argument as it is.
pub proof fn law_manifest_path_is_handed_on(options: BuildOptions)
    ensures
        ({
            let with = build_args(BuildOptions { manifest_path: true, ..options });
            let without = build_args(BuildOptions { manifest_path: false, ..options });
            let at = 2 + flag_length(options.release) + option_length(options.profile)
                + option_length(options.target) + option_length(options.package);
            &&& 0 <= at <= without.len()
            &&& with == without.take(at) + seq![
                CargoArgView::Text("--manifest-path"@),
                CargoArgView::ManifestPath,
            ] + without.skip(at)
        }),
{
    let with = BuildOptions { manifest_path: true, ..options };
    let without = BuildOptions { manifest_path: false, ..options };
    assert forall|i: int| 0 <= i < 11 && i != 5 implies #[trigger] groups(with)[i] == groups(
        without,
    )[i] by {
        reveal(groups);
    }
    assert(groups(with)[5] == seq![
        CargoArgView::Text("--manifest-path"@),
        CargoArgView::ManifestPath,
    ] && groups(without)[5].len() == 0) by {
        reveal(groups);
    }
    lemma_lengths(without);
    lemma_group_is_put_in(with, without, 5);
}

/// `--bin` is handed on with its value where it has one, and leaves every other argument as it
/// is.
pub proof fn law_bin_is_handed_on(options: BuildOptions, value: String)
    ensures
        ({
            let with = build_args(BuildOptions { bin: Some(value), ..options });
            let without = build_args(BuildOptions { bin: None, ..options });
            let at = 2 + flag_length(options.release) + option_length(options.profile)
                + option_length(options.target) + option_length(options.package)
                + 2 * flag_length(options.manifest_path);
            &&& 0 <= at <= without.len()
            &&& with == without.take(at) + seq![
                CargoArgView::Text("--bin"@),
                CargoArgView::Text(value@),
            ] + without.skip(at)
        }),
{
    let with = BuildOptions { bin: Some(value), ..options };
    let without = BuildOptions { bin: None, ..options };
    assert forall|i: int| 0 <= i < 11 && i != 6 implies #[trigger] groups(with)[i] == groups(
        without,
    )[i] by {
        reveal(groups);
    }
    assert(groups(with)[6] == seq![
        CargoArgView::Text("--bin"@),
        CargoArgView::Text(value@),
    ] && groups(without)[6].len() == 0) by {
        reveal(groups);
    }
    lemma_lengths(without);
    lemma_group_is_put_in(with, without, 6);
}

/// `--example` is handed on with its value where it has one, and leaves every other argument as it
/// is.
pub proof fn law_example_is_handed_on(options: BuildOptions, value: String)
    ensures
        ({
            let with = build_args(BuildOptions { example: Some(value), ..options });
            let without = build_args(BuildOptions { example: None, ..options });
            let at = 2 + flag_length(options.release) + option_length(options.profile)
                + option_length(options.target) + option_length(options.package)
                + 2 * flag_length(options.manifest_path)
                + option_length(options.bin);
            &&& 0 <= at <= without.len()
            &&& with == without.take(at) + seq![
                CargoArgView::Text("--example"@),
                CargoArgView::Text(value@),
            ] + without.skip(at)
        }),
{
    let with = BuildOptions { example: Some(value), ..options };
    let without = BuildOptions { example: None, ..options };
    assert forall|i: int| 0 <= i < 11 && i != 7 implies #[trigger] groups(with)[i] == groups(
        without,
    )[i] by {
        reveal(groups);
    }
    assert(groups(with)[7] == seq![
        CargoArgView::Text("--example"@),
        CargoArgView::Text(value@),
    ] && groups(without)[7].len() == 0) by {
        reveal(groups);
    }
    lemma_lengths(without);
    lemma_group_is_put_in(with, without, 7);
}

/// `--features` is handed on with its value where it has one, and leaves every other argument as it
/// is.
pub proof fn law_features_is_handed_on(options: BuildOptions, value: String)
    ensures
        ({
            let with = build_args(BuildOptions { features: Some(value), ..options });
            let without = build_args(BuildOptions { features: None, ..options });
            let at = 2 + flag_length(options.release) + option_length(options.profile)
                + option_length(options.target) + option_length(options.package)
                + 2 * flag_length(options.manifest_path)
                + option_length(options.bin) + option_length(options.example);
            &&& 0 <= at <= without.len()
            &&& with == without.take(at) + seq![
                CargoArgView::Text("--features"@),
                CargoArgView::Text(value@),
            ] + without.skip(at)
        }),
{
    let with = BuildOptions { features: Some(value), ..options };
    let without = BuildOptions { features: None, ..options };
    assert forall|i: int| 0 <= i < 11 && i != 8 implies #[trigger] groups(with)[i] == groups(
        without,
    )[i] by {
        reveal(groups);
    }
    assert(groups(with)[8] == seq![
        CargoArgView::Text("--features"@),
        CargoArgView::Text(value@),
    ] && groups(without)[8].len() == 0) by {
        reveal(groups);
    }
    lemma_lengths(without);
    lemma_group_is_put_in(with, without, 8);
}

/// `--all-features` is handed on where it is set, and leaves every other argument as it is.
pub proof fn law_all_features_is_handed_on(options: BuildOptions)
    ensures
        ({
            let with = build_args(BuildOptions { all_features: true, ..options });
            let without = build_args(BuildOptions { all_features: false, ..options });
            let at = 2 + flag_length(options.release) + option_length(options.profile)
                + option_length(options.target) + option_length(options.package)
                + 2 * flag_length(options.manifest_path)
                + option_length(options.bin) + option_length(options.example)
                + option_length(options.features);
            &&& 0 <= at <= without.len()
            &&& with == without.take(at) + seq![CargoArgView::Text("--all-features"@)] + without.skip(at)
        }),
{
    let with = BuildOptions { all_features: true, ..options };
    let without = BuildOptions { all_features: false, ..options };
    assert forall|i: int| 0 <= i < 11 && i != 9 implies #[trigger] groups(with)[i] == groups(
        without,
    )[i] by {
        reveal(groups);
    }
    assert(groups(with)[9] == seq![CargoArgView::Text("--all-features"@)] && groups(without)[9].len() == 0) by {
        reveal(groups);
    }
    lemma_lengths(without);
    lemma_group_is_put_in(with, without, 9);
}

/// `--no-default-features` is handed on where it is set, and leaves every other argument as it is.
pub proof fn law_no_default_features_is_handed_on(options: BuildOptions)
    ensures
        ({
            let with = build_args(BuildOptions { no_default_features: true, ..options });
            let without = build_args(BuildOptions { no_default_features: false, ..options });
            let at = 2 + flag_length(options.release) + option_length(options.profile)
                + option_length(options.target) + option_length(options.package)
                + 2 * flag_length(options.manifest_path)
                + option_length(options.bin) + option_length(options.example)
                + option_length(options.features)
                + flag_length(options.all_features);
            &&& 0 <= at <= without.len()
            &&& with == without.take(at) + seq![CargoArgView::Text("--no-default-features"@)] + without.skip(at)
        }),
{
    let with = BuildOptions { no_default_features: true, ..options };
    let without = BuildOptions { no_default_features: false, ..options };
    assert forall|i: int| 0 <= i < 11 && i != 10 implies #[trigger] groups(with)[i] == groups(
        without,
    )[i] by {
        reveal(groups);
    }
    assert(groups(with)[10] == seq![CargoArgView::Text("--no-default-features"@)] && groups(without)[10].len() == 0) by {
        reveal(groups);
    }
    lemma_lengths(without);
    lemma_group_is_put_in(with, without, 10);
}

/// Whether every option stands behind those that come before it, and nothing else is there.
pub open spec fn are_in_place(args: Seq<CargoArgView>, options: BuildOptions) -> bool {
    let release_at = 2int;
    let profile_at = release_at + flag_length(options.release);
    let target_at = profile_at + option_length(options.profile);
    let package_at = target_at + option_length(options.target);
    let manifest_path_at = package_at + option_length(options.package);
    let bin_at = manifest_path_at + 2 * flag_length(options.manifest_path);
    let example_at = bin_at + option_length(options.bin);
    let features_at = example_at + option_length(options.example);
    let all_features_at = features_at + option_length(options.features);
    let no_default_features_at = all_features_at + flag_length(options.all_features);
    let end = no_default_features_at + flag_length(options.no_default_features);
    &&& args.len() == end
    &&& args[0] == CargoArgView::Text("build"@)
    &&& args[1] == CargoArgView::Text("--message-format=json-render-diagnostics"@)
    &&& options.release ==> args[release_at] == CargoArgView::Text("--release"@)
    &&& options.profile matches Some(value) ==> {
        &&& args[profile_at] == CargoArgView::Text("--profile"@)
        &&& args[profile_at + 1] == CargoArgView::Text(value@)
    }
    &&& options.target matches Some(value) ==> {
        &&& args[target_at] == CargoArgView::Text("--target"@)
        &&& args[target_at + 1] == CargoArgView::Text(value@)
    }
    &&& options.package matches Some(value) ==> {
        &&& args[package_at] == CargoArgView::Text("--package"@)
        &&& args[package_at + 1] == CargoArgView::Text(value@)
    }
    &&& options.manifest_path ==> {
        &&& args[manifest_path_at] == CargoArgView::Text("--manifest-path"@)
        &&& args[manifest_path_at + 1] == CargoArgView::ManifestPath
    }
    &&& options.bin matches Some(value) ==> {
        &&& args[bin_at] == CargoArgView::Text("--bin"@)
        &&& args[bin_at + 1] == CargoArgView::Text(value@)
    }
    &&& options.example matches Some(value) ==> {
        &&& args[example_at] == CargoArgView::Text("--example"@)
        &&& args[example_at + 1] == CargoArgView::Text(value@)
    }
    &&& options.features matches Some(value) ==> {
        &&& args[features_at] == CargoArgView::Text("--features"@)
        &&& args[features_at + 1] == CargoArgView::Text(value@)
    }
    &&& options.all_features ==> args[all_features_at] == CargoArgView::Text("--all-features"@)
    &&& options.no_default_features ==> args[no_default_features_at] == CargoArgView::Text(
        "--no-default-features"@,
    )
}

proof fn lemma_groups_are_in_place(options: BuildOptions)
    ensures
        are_in_place(in_a_row(groups(options), 0, 11), options),
{
    reveal(groups);
    lemma_lengths(options);
    lemma_length_of(groups(options), 11);
    lemma_arguments_of_group(groups(options), 0);
    lemma_arguments_of_group(groups(options), 1);
    lemma_arguments_of_group(groups(options), 2);
    lemma_arguments_of_group(groups(options), 3);
    lemma_arguments_of_group(groups(options), 4);
    lemma_arguments_of_group(groups(options), 5);
    lemma_arguments_of_group(groups(options), 6);
    lemma_arguments_of_group(groups(options), 7);
    lemma_arguments_of_group(groups(options), 8);
    lemma_arguments_of_group(groups(options), 9);
    lemma_arguments_of_group(groups(options), 10);
}

/// The arguments of a group stand one behind the other.
proof fn lemma_arguments_of_group(all: Seq<Seq<CargoArgView>>, at: int)
    requires
        0 <= at < 11,
    ensures
        all[at].len() > 0 ==> in_a_row(all, 0, 11)[length_of(all, at)] == all[at][0],
        all[at].len() > 1 ==> in_a_row(all, 0, 11)[length_of(all, at) + 1] == all[at][1],
{
    lemma_length_of(all, at);
    lemma_row_is_parted(all, at + 1, 11);
}

/// Every option has its place: what a flag or an option brings depends on no other one.
pub proof fn law_every_option_has_its_place(options: BuildOptions)
    ensures
        are_in_place(build_args(options), options),
{
    lemma_groups(options);
    lemma_groups_are_in_place(options);
}

} // verus!
