//! Building a Cargo project and finding the executable to analyze.
//!
//! Running Cargo is left to the caller. This module says with which arguments to run it, and
//! reads from the messages it prints which executable it has built.

use crate::cargo_arg_laws::{are_in_place, law_every_option_has_its_place};
use crate::json::{json_in, lemma_list_view, read_json, Json, JsonView};
use crate::order::{
    arrange, arranged, key_views, lemma_stable_order_has_no_duplicates, positions, sorting_order,
    stable_order, SortKey,
};
use crate::source_path::{
    components, is_path_at_most, lemma_part_order, part_below, path_at_most, path_components,
    same_path, PathComponent, PathPart,
};
use crate::text::{
    chars_of, is_text_at_most, lemma_char_order, lemma_sequence_antisymmetric, lemma_sequence_total,
    lemma_sequence_transitive, lemma_split_has_a_piece, optional_text, same_text, split,
    split_text, string_of, text_at_most, texts,
};
use vstd::prelude::*;
use vstd::slice::slice_subrange;
use vstd::string::StringExecFns;

verus! {

/// What to build, as the user asked for it.
#[derive(Clone, Debug)]
pub struct BuildOptions {
    pub release: bool,
    pub profile: Option<String>,
    pub target: Option<String>,
    pub package: Option<String>,
    /// Whether the user named a manifest.
    pub manifest_path: bool,
    pub bin: Option<String>,
    pub example: Option<String>,
    pub features: Option<String>,
    pub all_features: bool,
    pub no_default_features: bool,
}

/// An argument for Cargo.
#[derive(Clone, Debug)]
pub enum CargoArg {
    /// This text.
    Text(String),
    /// The path of the manifest that the user named, which need not be UTF-8 text.
    ManifestPath,
}

/// What a [`CargoArg`] holds.
pub enum CargoArgView {
    Text(Seq<char>),
    ManifestPath,
}

impl View for CargoArg {
    type V = CargoArgView;

    open spec fn view(&self) -> CargoArgView {
        match *self {
            CargoArg::Text(text) => CargoArgView::Text(text@),
            CargoArg::ManifestPath => CargoArgView::ManifestPath,
        }
    }
}

/// The arguments for a flag that is set or not.
pub open spec fn flag_args(set: bool, flag: Seq<char>) -> Seq<CargoArgView> {
    if set {
        seq![CargoArgView::Text(flag)]
    } else {
        Seq::<CargoArgView>::empty()
    }
}

/// The arguments for an option that has a value or not.
pub open spec fn option_args(flag: Seq<char>, value: Option<Seq<char>>) -> Seq<CargoArgView> {
    match value {
        Some(value) => seq![CargoArgView::Text(flag), CargoArgView::Text(value)],
        None => Seq::<CargoArgView>::empty(),
    }
}

/// The arguments with which Cargo builds what the user asked for and reports it as JSON.
pub open spec fn build_args(options: BuildOptions) -> Seq<CargoArgView> {
    let manifest = if options.manifest_path {
        seq![CargoArgView::Text("--manifest-path"@), CargoArgView::ManifestPath]
    } else {
        Seq::<CargoArgView>::empty()
    };
    seq![
        CargoArgView::Text("build"@),
        CargoArgView::Text("--message-format=json-render-diagnostics"@),
    ] + flag_args(options.release, "--release"@) + option_args(
        "--profile"@,
        optional_text(options.profile),
    ) + option_args("--target"@, optional_text(options.target)) + option_args(
        "--package"@,
        optional_text(options.package),
    ) + manifest + option_args("--bin"@, optional_text(options.bin)) + option_args(
        "--example"@,
        optional_text(options.example),
    ) + option_args("--features"@, optional_text(options.features)) + flag_args(
        options.all_features,
        "--all-features"@,
    ) + flag_args(options.no_default_features, "--no-default-features"@)
}

/// Appends a text argument.
fn push_text(args: &mut Vec<CargoArg>, text: &str)
    ensures
        final(args)@.map_values(|arg: CargoArg| arg@) == old(args)@.map_values(|arg: CargoArg| arg@)
            + seq![CargoArgView::Text(text@)],
{
    args.push(CargoArg::Text(text.to_string()));
    assert(args@.map_values(|arg: CargoArg| arg@) =~= old(args)@.map_values(|arg: CargoArg| arg@)
        + seq![CargoArgView::Text(text@)]);
}

/// Appends a flag if it is set.
fn push_flag(args: &mut Vec<CargoArg>, set: bool, flag: &str)
    ensures
        final(args)@.map_values(|arg: CargoArg| arg@) == old(args)@.map_values(|arg: CargoArg| arg@)
            + flag_args(set, flag@),
{
    if set {
        push_text(args, flag);
    } else {
        assert(args@.map_values(|arg: CargoArg| arg@) =~= old(args)@.map_values(
            |arg: CargoArg| arg@,
        ) + flag_args(set, flag@));
    }
}

/// Appends an option with its value, if it has one.
pub fn push_option(args: &mut Vec<CargoArg>, flag: &str, value: &Option<String>)
    ensures
        final(args)@.map_values(|arg: CargoArg| arg@) == old(args)@.map_values(|arg: CargoArg| arg@)
            + option_args(flag@, optional_text(*value)),
{
    let ghost before = args@.map_values(|arg: CargoArg| arg@);
    if let Some(value) = value {
        push_text(args, flag);
        push_text(args, value.as_str());
        assert(before + seq![CargoArgView::Text(flag@)] + seq![CargoArgView::Text(value@)]
            =~= before + seq![CargoArgView::Text(flag@), CargoArgView::Text(value@)]);
    } else {
        assert(before + Seq::<CargoArgView>::empty() =~= before);
    }
}

/// The arguments with which Cargo builds what the user asked for and reports it as JSON.
pub fn cargo_build_args(options: &BuildOptions) -> (args: Vec<CargoArg>)
    ensures
        args@.map_values(|arg: CargoArg| arg@) == build_args(*options),
        are_in_place(args@.map_values(|arg: CargoArg| arg@), *options),
{
    let mut args: Vec<CargoArg> = Vec::new();
    assert(args@.map_values(|arg: CargoArg| arg@) =~= Seq::<CargoArgView>::empty());
    push_text(&mut args, "build");
    push_text(&mut args, "--message-format=json-render-diagnostics");
    assert(args@.map_values(|arg: CargoArg| arg@) =~= seq![
        CargoArgView::Text("build"@),
        CargoArgView::Text("--message-format=json-render-diagnostics"@),
    ]);
    push_flag(&mut args, options.release, "--release");
    push_option(&mut args, "--profile", &options.profile);
    push_option(&mut args, "--target", &options.target);
    push_option(&mut args, "--package", &options.package);
    let ghost before = args@.map_values(|arg: CargoArg| arg@);
    if options.manifest_path {
        push_text(&mut args, "--manifest-path");
        let ghost middle = args@.map_values(|arg: CargoArg| arg@);
        args.push(CargoArg::ManifestPath);
        assert(args@.map_values(|arg: CargoArg| arg@) =~= middle.push(CargoArgView::ManifestPath));
        assert(args@.map_values(|arg: CargoArg| arg@) =~= before + seq![
            CargoArgView::Text("--manifest-path"@),
            CargoArgView::ManifestPath,
        ]);
    } else {
        assert(before + Seq::<CargoArgView>::empty() =~= before);
    }
    push_option(&mut args, "--bin", &options.bin);
    push_option(&mut args, "--example", &options.example);
    push_option(&mut args, "--features", &options.features);
    push_flag(&mut args, options.all_features, "--all-features");
    push_flag(&mut args, options.no_default_features, "--no-default-features");
    proof {
        law_every_option_has_its_place(*options);
    }
    args
}

/// What a message of Cargo says of something it has built.
#[derive(Clone, Debug)]
pub struct CargoMessage {
    pub reason: Option<String>,
    pub executable: Option<String>,
    pub target_name: Option<String>,
    /// The kinds of the target, where the message lists them; `None` for a kind that is no text.
    pub target_kinds: Option<Vec<Option<String>>>,
}

/// What a [`CargoMessage`] holds.
pub struct CargoMessageView {
    pub reason: Option<Seq<char>>,
    pub executable: Option<Seq<char>>,
    pub target_name: Option<Seq<char>>,
    pub target_kinds: Option<Seq<Option<Seq<char>>>>,
}

impl View for CargoMessage {
    type V = CargoMessageView;

    open spec fn view(&self) -> CargoMessageView {
        CargoMessageView {
            reason: optional_text(self.reason),
            executable: optional_text(self.executable),
            target_name: optional_text(self.target_name),
            target_kinds: match self.target_kinds {
                Some(kinds) => Some(kinds@.map_values(|kind: Option<String>| optional_text(kind))),
                None => None,
            },
        }
    }
}

/// The text of an optional value, where there is a value and it is a text.
pub open spec fn text_in(value: Option<JsonView>) -> Option<Seq<char>> {
    match value {
        Some(value) => value.text(),
        None => None,
    }
}

/// The texts of an optional value, where there is a value and it is a list.
pub open spec fn texts_in(value: Option<JsonView>) -> Option<Seq<Option<Seq<char>>>> {
    match value {
        Some(JsonView::List(items)) => Some(items.map_values(|item: JsonView| item.text())),
        _ => None,
    }
}

/// A field of what a message says of its target.
pub open spec fn target_field(message: JsonView, key: Seq<char>) -> Option<JsonView> {
    match message.field("target"@) {
        Some(target) => target.field(key),
        None => None,
    }
}

/// The message that a JSON value is.
pub open spec fn message_of(json: JsonView) -> CargoMessageView {
    CargoMessageView {
        reason: text_in(json.field("reason"@)),
        executable: text_in(json.field("executable"@)),
        target_name: text_in(target_field(json, "name"@)),
        target_kinds: texts_in(target_field(json, "kind"@)),
    }
}

/// The text of an optional value.
fn read_text(value: Option<&Json>) -> (text: Option<String>)
    ensures
        optional_text(text) == text_in(
            match value {
                Some(value) => Some(value@),
                None => None,
            },
        ),
{
    match value {
        Some(value) => value.text(),
        None => None,
    }
}

/// The texts of the values of a list.
fn read_texts(items: &Vec<Json>) -> (result: Vec<Option<String>>)
    ensures
        result@.map_values(|text: Option<String>| optional_text(text)) == items@.map_values(
            |item: Json| item@.text(),
        ),
{
    let ghost expected = items@.map_values(|item: Json| item@.text());
    let mut result: Vec<Option<String>> = Vec::new();
    for i in 0..items.len()
        invariant
            expected == items@.map_values(|item: Json| item@.text()),
            result@.map_values(|text: Option<String>| optional_text(text)) == expected.take(
                i as int,
            ),
    {
        let ghost before = result@.map_values(|text: Option<String>| optional_text(text));
        result.push(items[i].text());
        assert(result@.map_values(|text: Option<String>| optional_text(text)) =~= before.push(
            expected[i as int],
        ));
        assert(expected.take(i + 1) =~= before.push(expected[i as int]));
    }
    assert(expected.take(expected.len() as int) =~= expected);
    result
}

/// The message that a JSON value is.
pub fn read_message(json: &Json) -> (message: CargoMessage)
    ensures
        message@ == message_of(json@),
{
    let target = json.field("target");
    let name = match target {
        Some(target) => target.field("name"),
        None => None,
    };
    let kind = match target {
        Some(target) => target.field("kind"),
        None => None,
    };
    let target_kinds = match kind {
        Some(Json::List(items)) => {
            let kinds = read_texts(items);
            proof {
                lemma_list_view(*items);
                assert(kinds@.map_values(|text: Option<String>| optional_text(text))
                    =~= Json::List(*items)@->List_0.map_values(|item: JsonView| item.text()));
            }
            Some(kinds)
        },
        _ => None,
    };
    CargoMessage {
        reason: read_text(json.field("reason")),
        executable: read_text(json.field("executable")),
        target_name: read_text(name),
        target_kinds,
    }
}

/// An executable that Cargo has built.
#[derive(Clone, Debug)]
pub struct Artifact {
    pub name: String,
    pub path: String,
}

/// What an [`Artifact`] holds.
pub struct ArtifactView {
    pub name: Seq<char>,
    pub path: Seq<char>,
}

impl View for Artifact {
    type V = ArtifactView;

    open spec fn view(&self) -> ArtifactView {
        ArtifactView { name: self.name@, path: self.path@ }
    }
}

/// Whether a kind of target is one to analyze: a binary, or an example where one was asked for.
pub open spec fn is_accepted_kind(kind: Option<Seq<char>>, examples: bool) -> bool {
    kind == Some("bin"@) || examples && kind == Some("example"@)
}

/// Whether one of the kinds is one to analyze.
pub open spec fn has_accepted_kind(kinds: Seq<Option<Seq<char>>>, examples: bool) -> bool {
    exists|i: int| 0 <= i < kinds.len() && is_accepted_kind(#[trigger] kinds[i], examples)
}

/// The executable that a message announces, if it announces one to analyze.
pub open spec fn artifact_in(message: CargoMessageView, examples: bool) -> Option<ArtifactView> {
    match (message.executable, message.target_kinds) {
        (Some(path), Some(kinds)) => if message.reason == Some("compiler-artifact"@)
            && has_accepted_kind(kinds, examples) {
            Some(
                ArtifactView {
                    name: match message.target_name {
                        Some(name) => name,
                        None => "unnamed"@,
                    },
                    path,
                },
            )
        } else {
            None
        },
        _ => None,
    }
}

/// Whether an optional string holds this text.
fn is_text(value: &Option<String>, text: &str) -> (equal: bool)
    ensures
        equal == (optional_text(*value) == Some(text@)),
{
    match value {
        Some(value) => same_text(value.as_str(), text),
        None => false,
    }
}

/// The executable that a message announces, if it announces one to analyze.
pub fn read_artifact(message: &CargoMessage, examples: bool) -> (artifact: Option<Artifact>)
    ensures
        (match artifact {
            Some(artifact) => Some(artifact@),
            None => None,
        }) == artifact_in(message@, examples),
{
    if !is_text(&message.reason, "compiler-artifact") {
        return None;
    }
    let path = match &message.executable {
        Some(path) => path.clone(),
        None => return None,
    };
    let kinds = match &message.target_kinds {
        Some(kinds) => kinds,
        None => return None,
    };
    let ghost all = kinds@.map_values(|kind: Option<String>| optional_text(kind));
    for i in 0..kinds.len()
        invariant
            all == kinds@.map_values(|kind: Option<String>| optional_text(kind)),
            message@.target_kinds == Some(all),
            message@.executable == Some(path@),
            message@.reason == Some("compiler-artifact"@),
            forall|j: int| 0 <= j < i ==> !is_accepted_kind(#[trigger] all[j], examples),
    {
        assert(all[i as int] == optional_text(kinds[i as int]));
        if is_text(&kinds[i], "bin") || examples && is_text(&kinds[i], "example") {
            assert(has_accepted_kind(all, examples));
            let name = match &message.target_name {
                Some(name) => name.clone(),
                None => "unnamed".to_string(),
            };
            return Some(Artifact { name, path: path.clone() });
        }
    }
    None
}

/// A line without the carriage return at its end.
pub open spec fn without_carriage_return(line: Seq<char>) -> Seq<char> {
    if line.len() > 0 && line.last() == '\r' {
        line.drop_last()
    } else {
        line
    }
}

/// The lines of a text. A line ends with a newline, or a carriage return and a newline; the
/// last one may end with the text.
pub open spec fn lines(text: Seq<char>) -> Seq<Seq<char>> {
    let pieces = split(text, '\n');
    let ended = pieces.drop_last().map_values(|line: Seq<char>| without_carriage_return(line));
    if pieces.last().len() == 0 {
        ended
    } else {
        ended.push(pieces.last())
    }
}

/// The executable that a line of Cargo's output announces, if it announces one to analyze.
pub open spec fn artifact_on_line(line: Seq<char>, examples: bool) -> Option<ArtifactView> {
    match json_in(line) {
        Some(json) => artifact_in(message_of(json), examples),
        None => None,
    }
}

/// The executables that Cargo's output announces.
pub open spec fn artifacts_in(output: Seq<char>, examples: bool) -> Seq<ArtifactView> {
    lines(output).filter_map(|line: Seq<char>| artifact_on_line(line, examples))
}

/// A line without the carriage return at its end.
fn strip_carriage_return(line: &str) -> (result: String)
    ensures
        result@ == without_carriage_return(line@),
{
    let chars = chars_of(line);
    let mut length: usize = chars.len();
    if length > 0 && chars[length - 1] == '\r' {
        length = length - 1;
        assert(chars@.subrange(0, length as int) =~= line@.drop_last());
    } else {
        assert(chars@.subrange(0, length as int) =~= line@);
    }
    string_of(slice_subrange(chars.as_slice(), 0, length))
}

/// The lines of a text.
pub fn text_lines(text: &str) -> (result: Vec<String>)
    ensures
        texts(result@) == lines(text@),
{
    let pieces = split_text(text, '\n');
    let ghost all = texts(pieces@);
    proof {
        lemma_split_has_a_piece(text@, '\n');
        assert(all.len() == pieces.len());
    }
    let last: usize = pieces.len() - 1;
    let ghost ended = all.drop_last().map_values(|line: Seq<char>| without_carriage_return(line));
    let mut result: Vec<String> = Vec::new();
    for i in 0..last
        invariant
            last == pieces.len() - 1,
            all == texts(pieces@),
            ended == all.drop_last().map_values(|line: Seq<char>| without_carriage_return(line)),
            texts(result@) == ended.take(i as int),
    {
        let ghost before = texts(result@);
        assert(all[i as int] == pieces[i as int]@);
        result.push(strip_carriage_return(pieces[i].as_str()));
        assert(texts(result@) =~= before.push(ended[i as int]));
        assert(ended.take(i + 1) =~= before.push(ended[i as int]));
    }
    assert(ended.take(ended.len() as int) =~= ended);
    assert(all.last() == pieces[last as int]@);
    if !pieces[last].as_str().is_empty() {
        let ghost before = texts(result@);
        result.push(pieces[last].clone());
        assert(texts(result@) =~= before.push(all.last()));
    }
    result
}

/// The executables that Cargo's output announces.
pub fn collect_artifacts(output: &str, examples: bool) -> (artifacts: Vec<Artifact>)
    ensures
        artifacts@.map_values(|artifact: Artifact| artifact@) == artifacts_in(output@, examples),
{
    let all_lines = text_lines(output);
    let ghost all = texts(all_lines@);
    let ghost pick = |line: Seq<char>| artifact_on_line(line, examples);
    let mut artifacts: Vec<Artifact> = Vec::new();
    assert(artifacts@.map_values(|artifact: Artifact| artifact@) =~= all.take(0).filter_map(pick));
    for i in 0..all_lines.len()
        invariant
            all == texts(all_lines@),
            pick == (|line: Seq<char>| artifact_on_line(line, examples)),
            artifacts@.map_values(|artifact: Artifact| artifact@) == all.take(i as int).filter_map(
                pick,
            ),
    {
        let ghost before = artifacts@.map_values(|artifact: Artifact| artifact@);
        let line = all_lines[i].as_str();
        proof {
            assert(all.take(i + 1).drop_last() =~= all.take(i as int));
            assert(all.take(i + 1).last() == line@);
        }
        if let Some(json) = read_json(line) {
            if let Some(artifact) = read_artifact(&read_message(&json), examples) {
                artifacts.push(artifact);
                assert(artifacts@.map_values(|artifact: Artifact| artifact@) =~= before + seq![
                    artifact@,
                ]);
            }
        }
    }
    assert(all.take(all.len() as int) =~= all);
    artifacts
}

/// By what executables are sorted: their names, then the components of their paths.
pub struct ArtifactKey {
    pub name: String,
    pub path: Vec<PathComponent>,
}

/// What an [`ArtifactKey`] holds.
pub struct ArtifactKeyView {
    pub name: Seq<char>,
    pub path: Seq<PathPart>,
}

impl View for ArtifactKey {
    type V = ArtifactKeyView;

    open spec fn view(&self) -> ArtifactKeyView {
        ArtifactKeyView {
            name: self.name@,
            path: self.path@.map_values(|part: PathComponent| part@),
        }
    }
}

impl SortKey for ArtifactKey {
    open spec fn at_most(left: ArtifactKeyView, right: ArtifactKeyView) -> bool {
        if left.name == right.name {
            path_at_most(left.path, right.path)
        } else {
            text_at_most(left.name, right.name)
        }
    }

    proof fn lemma_total(left: ArtifactKeyView, right: ArtifactKeyView) {
        lemma_char_order();
        lemma_part_order();
        lemma_sequence_total(left.name, right.name, |a: char, b: char| a < b);
        lemma_sequence_total(
            left.path,
            right.path,
            |a: PathPart, b: PathPart| part_below(a, b),
        );
    }

    proof fn lemma_transitive(low: ArtifactKeyView, middle: ArtifactKeyView, high: ArtifactKeyView) {
        let char_below = |a: char, b: char| a < b;
        lemma_char_order();
        lemma_part_order();
        if low.name == middle.name && middle.name == high.name {
            lemma_sequence_transitive(
                low.path,
                middle.path,
                high.path,
                |a: PathPart, b: PathPart| part_below(a, b),
            );
        } else if low.name != middle.name && middle.name != high.name {
            lemma_sequence_transitive(low.name, middle.name, high.name, char_below);
            if low.name == high.name {
                lemma_sequence_antisymmetric(low.name, middle.name, char_below);
            }
        }
    }

    fn is_at_most(&self, other: &Self) -> (below: bool) {
        if same_text(self.name.as_str(), other.name.as_str()) {
            is_path_at_most(self.path.as_slice(), other.path.as_slice())
        } else {
            is_text_at_most(self.name.as_str(), other.name.as_str())
        }
    }
}

/// By what executables are sorted.
pub open spec fn artifact_keys(artifacts: Seq<ArtifactView>) -> Seq<ArtifactKeyView> {
    artifacts.map_values(
        |artifact: ArtifactView|
            ArtifactKeyView { name: artifact.name, path: components(artifact.path) },
    )
}

/// The executables sorted by name, and those of one name by path.
pub open spec fn sorted_artifacts(artifacts: Seq<ArtifactView>) -> Seq<ArtifactView> {
    arranged(artifacts, sorting_order::<ArtifactKey>(artifact_keys(artifacts)))
}

/// The executables without those that follow one at the same path.
pub open spec fn without_repeats(artifacts: Seq<ArtifactView>) -> Seq<ArtifactView>
    decreases artifacts.len(),
{
    if artifacts.len() == 0 {
        artifacts
    } else {
        let kept = without_repeats(artifacts.drop_last());
        if kept.len() > 0 && components(kept.last().path) == components(artifacts.last().path) {
            kept
        } else {
            kept.push(artifacts.last())
        }
    }
}

/// Why no executable could be chosen.
#[derive(Clone, Debug)]
pub enum SelectionError {
    /// Cargo has built none.
    NoExecutable,
    /// Cargo has built several; these are their names.
    SeveralExecutables(Vec<String>),
}

/// The names of the executables.
pub open spec fn artifact_names(artifacts: Seq<ArtifactView>) -> Seq<Seq<char>> {
    artifacts.map_values(|artifact: ArtifactView| artifact.name)
}

/// Whether this is what comes of choosing among the executables: the path of the only one, or
/// else an error.
pub open spec fn is_selection(
    result: Result<String, SelectionError>,
    artifacts: Seq<ArtifactView>,
) -> bool {
    let kept = without_repeats(sorted_artifacts(artifacts));
    match result {
        Ok(path) => kept.len() == 1 && path@ == kept[0].path,
        Err(SelectionError::NoExecutable) => kept.len() == 0,
        Err(SelectionError::SeveralExecutables(names)) => kept.len() > 1 && texts(names@)
            == artifact_names(kept),
    }
}

/// The executables sorted by name, and those of one name by path.
fn sort_artifacts(artifacts: Vec<Artifact>) -> (sorted: Vec<Artifact>)
    ensures
        sorted@.map_values(|artifact: Artifact| artifact@) == sorted_artifacts(
            artifacts@.map_values(|artifact: Artifact| artifact@),
        ),
{
    let ghost all = artifacts@.map_values(|artifact: Artifact| artifact@);
    let mut keys: Vec<ArtifactKey> = Vec::new();
    for i in 0..artifacts.len()
        invariant
            all == artifacts@.map_values(|artifact: Artifact| artifact@),
            key_views(keys@) == artifact_keys(all).take(i as int),
    {
        let ghost before = key_views(keys@);
        assert(all[i as int] == artifacts[i as int]@);
        keys.push(
            ArtifactKey {
                name: artifacts[i].name.clone(),
                path: path_components(artifacts[i].path.as_str()),
            },
        );
        assert(key_views(keys@) =~= before.push(artifact_keys(all)[i as int]));
        assert(artifact_keys(all).take(i + 1) =~= before.push(artifact_keys(all)[i as int]));
    }
    assert(key_views(keys@) =~= artifact_keys(all));
    let order = stable_order(keys.as_slice());
    proof {
        lemma_stable_order_has_no_duplicates::<ArtifactKey>(
            artifact_keys(all),
            positions(order@),
        );
    }
    let sorted = arrange(artifacts, order.as_slice());
    assert(sorted@.map_values(|artifact: Artifact| artifact@) =~= arranged(
        all,
        positions(order@),
    ));
    sorted
}

/// The executables without those that follow one at the same path.
fn drop_repeats(artifacts: Vec<Artifact>) -> (kept: Vec<Artifact>)
    ensures
        kept@.map_values(|artifact: Artifact| artifact@) == without_repeats(
            artifacts@.map_values(|artifact: Artifact| artifact@),
        ),
{
    let ghost all = artifacts@.map_values(|artifact: Artifact| artifact@);
    let mut kept: Vec<Artifact> = Vec::new();
    assert(kept@.map_values(|artifact: Artifact| artifact@) =~= without_repeats(all.take(0)));
    for artifact in it: artifacts
        invariant
            it.seq().map_values(|artifact: Artifact| artifact@) == all,
            kept@.map_values(|artifact: Artifact| artifact@) == without_repeats(
                all.take(it.index()),
            ),
    {
        let ghost before = kept@.map_values(|artifact: Artifact| artifact@);
        proof {
            assert(all[it.index()] == it.seq()[it.index()]@);
            assert(all.take(it.index() + 1).drop_last() =~= all.take(it.index()));
        }
        let repeated = if kept.len() > 0 {
            assert(before.last() == kept@.last()@);
            same_path(
                path_components(kept[kept.len() - 1].path.as_str()).as_slice(),
                path_components(artifact.path.as_str()).as_slice(),
            )
        } else {
            false
        };
        if !repeated {
            kept.push(artifact);
            assert(kept@.map_values(|artifact: Artifact| artifact@) =~= before.push(
                all[it.index()],
            ));
        }
    }
    assert(all.take(all.len() as int) =~= all);
    kept
}

/// Chooses the executable to analyze among those that Cargo has built.
pub fn choose_executable(artifacts: Vec<Artifact>) -> (result: Result<String, SelectionError>)
    ensures
        is_selection(result, artifacts@.map_values(|artifact: Artifact| artifact@)),
{
    let kept = drop_repeats(sort_artifacts(artifacts));
    let ghost all = kept@.map_values(|artifact: Artifact| artifact@);
    if kept.len() == 0 {
        assert(all.len() == 0);
        return Err(SelectionError::NoExecutable);
    }
    assert(all[0] == kept[0]@);
    if kept.len() == 1 {
        assert(all.len() == 1);
        return Ok(kept[0].path.clone());
    }
    let mut names: Vec<String> = Vec::new();
    for i in 0..kept.len()
        invariant
            all == kept@.map_values(|artifact: Artifact| artifact@),
            texts(names@) == artifact_names(all).take(i as int),
    {
        let ghost before = texts(names@);
        assert(all[i as int] == kept[i as int]@);
        names.push(kept[i].name.clone());
        assert(texts(names@) =~= before.push(artifact_names(all)[i as int]));
        assert(artifact_names(all).take(i + 1) =~= before.push(artifact_names(all)[i as int]));
    }
    assert(artifact_names(all).take(all.len() as int) =~= artifact_names(all));
    Err(SelectionError::SeveralExecutables(names))
}

/// Chooses the executable to analyze from what Cargo has printed.
pub fn find_executable(output: &str, examples: bool) -> (result: Result<String, SelectionError>)
    ensures
        is_selection(result, artifacts_in(output@, examples)),
{
    choose_executable(collect_artifacts(output, examples))
}

/// The texts one after the other, with a comma and a space in between.
pub open spec fn comma_separated(names: Seq<Seq<char>>) -> Seq<char>
    decreases names.len(),
{
    if names.len() == 0 {
        Seq::<char>::empty()
    } else if names.len() == 1 {
        names[0]
    } else {
        comma_separated(names.drop_last()) + ", "@ + names.last()
    }
}

/// The texts one after the other, with a comma and a space in between.
fn join_names(names: &[String]) -> (text: String)
    ensures
        text@ == comma_separated(texts(names@)),
{
    let ghost all = texts(names@);
    let mut text = String::new();
    for i in 0..names.len()
        invariant
            all == texts(names@),
            text@ == comma_separated(all.take(i as int)),
    {
        proof {
            assert(all.take(i + 1).drop_last() =~= all.take(i as int));
            assert(all.take(i + 1).last() == names[i as int]@);
        }
        if i > 0 {
            text.append(", ");
        }
        let ghost before = text@;
        text.append(names[i].as_str());
        proof {
            if i == 0 {
                assert(all.take(1)[0] == names[0]@);
                assert(before + names[0]@ =~= names[0]@);
            }
        }
    }
    assert(all.take(all.len() as int) =~= all);
    text
}

impl SelectionError {
    /// What the error says.
    pub open spec fn text(self) -> Seq<char> {
        match self {
            SelectionError::NoExecutable =>
                "cargo produced no executable ELF artifact; select one with --bin or --example"@,
            SelectionError::SeveralExecutables(names) => "cargo produced multiple executables ("@
                + comma_separated(texts(names@)) + "); select one with --bin"@,
        }
    }

    /// What the error says.
    pub fn message(&self) -> (text: String)
        ensures
            text@ == self.text(),
    {
        match self {
            SelectionError::NoExecutable =>
                "cargo produced no executable ELF artifact; select one with --bin or --example".to_string(),
            SelectionError::SeveralExecutables(names) => {
                let mut text = "cargo produced multiple executables (".to_string();
                text.append(join_names(names.as_slice()).as_str());
                text.append("); select one with --bin");
                text
            },
        }
    }
}

} // verus!
