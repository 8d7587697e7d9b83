use rozy::cargo::{
    cargo_build_args, choose_executable, find_executable, push_option, read_artifact,
    read_message, text_lines, Artifact, BuildOptions, CargoArg, CargoMessage, SelectionError,
};
use rozy::json::{read_json, Json};

fn nothing() -> BuildOptions {
    BuildOptions {
        release: false,
        profile: None,
        target: None,
        package: None,
        manifest_path: false,
        bin: None,
        example: None,
        features: None,
        all_features: false,
        no_default_features: false,
    }
}

fn shown(args: Vec<CargoArg>) -> Vec<String> {
    args.into_iter()
        .map(|arg| match arg {
            CargoArg::Text(text) => text,
            CargoArg::ManifestPath => "<manifest>".to_string(),
        })
        .collect()
}

#[test]
fn a_plain_build_reports_as_json() {
    assert_eq!(
        shown(cargo_build_args(&nothing())),
        ["build", "--message-format=json-render-diagnostics"]
    );
}

#[test]
fn options_are_forwarded_in_order() {
    let options = BuildOptions {
        release: true,
        profile: Some("tiny".into()),
        target: Some("thumbv7em-none-eabihf".into()),
        package: Some("fw".into()),
        manifest_path: true,
        bin: Some("firmware".into()),
        example: Some("blink".into()),
        features: Some("a,b".into()),
        all_features: true,
        no_default_features: true,
    };
    assert_eq!(
        shown(cargo_build_args(&options)),
        [
            "build",
            "--message-format=json-render-diagnostics",
            "--release",
            "--profile",
            "tiny",
            "--target",
            "thumbv7em-none-eabihf",
            "--package",
            "fw",
            "--manifest-path",
            "<manifest>",
            "--bin",
            "firmware",
            "--example",
            "blink",
            "--features",
            "a,b",
            "--all-features",
            "--no-default-features",
        ]
    );
}

#[test]
fn an_option_without_value_is_left_out() {
    let mut args = Vec::new();
    push_option(&mut args, "--bin", &None);
    assert!(args.is_empty());
    push_option(&mut args, "--bin", &Some("x".into()));
    assert_eq!(shown(args), ["--bin", "x"]);
}

#[test]
fn lines_end_with_newlines() {
    assert_eq!(text_lines("a\r\nb\n\nc\r"), ["a", "b", "", "c\r"]);
    assert_eq!(text_lines("a\n"), ["a"]);
    assert!(text_lines("").is_empty());
    assert_eq!(text_lines("\n"), [""]);
}

fn message(reason: &str, executable: Option<&str>, kinds: &[&str]) -> CargoMessage {
    CargoMessage {
        reason: Some(reason.into()),
        executable: executable.map(str::to_string),
        target_name: Some("fw".into()),
        target_kinds: Some(kinds.iter().map(|kind| Some(kind.to_string())).collect()),
    }
}

#[test]
fn messages_announce_binaries_and_asked_for_examples() {
    let artifact = read_artifact(&message("compiler-artifact", Some("/t/fw"), &["lib", "bin"]), false);
    let artifact = artifact.unwrap();
    assert_eq!((artifact.name.as_str(), artifact.path.as_str()), ("fw", "/t/fw"));
    assert!(read_artifact(&message("compiler-artifact", Some("/t/fw"), &["example"]), true).is_some());
    assert!(read_artifact(&message("compiler-artifact", Some("/t/fw"), &["example"]), false).is_none());
    assert!(read_artifact(&message("compiler-artifact", None, &["bin"]), false).is_none());
    assert!(read_artifact(&message("build-finished", Some("/t/fw"), &["bin"]), false).is_none());
    let mut unnamed = message("compiler-artifact", Some("/t/fw"), &["bin"]);
    unnamed.target_name = None;
    assert_eq!(read_artifact(&unnamed, false).unwrap().name, "unnamed");
    let mut unlisted = message("compiler-artifact", Some("/t/fw"), &["bin"]);
    unlisted.target_kinds = None;
    assert!(read_artifact(&unlisted, false).is_none());
}

const FW: &str = "{\"reason\":\"compiler-artifact\",\"target\":{\"kind\":[\"bin\"],\"name\":\"fw\"},\"executable\":\"/t/fw\"}";
const TOOL: &str = "{\"reason\":\"compiler-artifact\",\"target\":{\"kind\":[\"bin\"],\"name\":\"tool\"},\"executable\":\"/t/tool\"}";
const LIBRARY: &str = "{\"reason\":\"compiler-artifact\",\"target\":{\"kind\":[\"lib\"],\"name\":\"l\"},\"executable\":null}";
const EXAMPLE: &str = "{\"reason\":\"compiler-artifact\",\"target\":{\"kind\":[\"example\"],\"name\":\"blink\"},\"executable\":\"/t/blink\"}";

#[test]
fn the_only_executable_is_chosen() {
    let output = format!("{LIBRARY}\nnot json\n[1,2]\n{FW}\r\n{EXAMPLE}\n{FW}");
    assert_eq!(find_executable(&output, false).unwrap(), "/t/fw");
    let output = format!("{LIBRARY}\n{EXAMPLE}\n");
    assert_eq!(find_executable(&output, true).unwrap(), "/t/blink");
}

#[test]
fn none_and_several_executables_are_errors() {
    let error = find_executable(LIBRARY, false).unwrap_err();
    assert!(matches!(error, SelectionError::NoExecutable));
    assert_eq!(
        error.message(),
        "cargo produced no executable ELF artifact; select one with --bin or --example"
    );
    let error = find_executable(&format!("{TOOL}\n{FW}\n"), false).unwrap_err();
    assert_eq!(
        error.message(),
        "cargo produced multiple executables (fw, tool); select one with --bin"
    );
}

fn artifact(name: &str, path: &str) -> Artifact {
    Artifact { name: name.into(), path: path.into() }
}

#[test]
fn executables_are_sorted_by_name_and_path_and_repeats_dropped() {
    let result = choose_executable(vec![
        artifact("b", "/t/b"),
        artifact("a", "/t/x"),
        artifact("a", "/t//x/."),
    ]);
    match result {
        Err(SelectionError::SeveralExecutables(names)) => assert_eq!(names, ["a", "b"]),
        _ => panic!("two paths"),
    }
    let result = choose_executable(vec![artifact("b", "/t//a"), artifact("a", "/t/a")]);
    assert_eq!(result.unwrap(), "/t/a");
    let result = choose_executable(vec![
        artifact("a", "/t/b"),
        artifact("a", "/t/a"),
        artifact("a", "/t/b"),
    ]);
    match result {
        Err(SelectionError::SeveralExecutables(names)) => assert_eq!(names, ["a", "a"]),
        _ => panic!("two paths"),
    }
}

#[test]
fn json_is_read_as_plain_values() {
    match read_json("{\"b\":[1.5,null,true,\"x\"],\"a\":{}}").unwrap() {
        Json::Record(fields) => {
            assert_eq!(fields.len(), 2);
            let (key, value) = fields.iter().find(|field| field.0 == "b").unwrap();
            assert_eq!(key, "b");
            match value {
                Json::List(items) => {
                    assert_eq!(items.len(), 4);
                    assert!(matches!(&items[0], Json::Number(number) if number == "1.5"));
                    assert!(matches!(items[1], Json::Null));
                    assert!(matches!(items[2], Json::Bool(true)));
                    assert_eq!(items[3].text().as_deref(), Some("x"));
                    assert!(items[0].text().is_none());
                }
                _ => panic!("a list"),
            }
        }
        _ => panic!("a record"),
    }
    assert!(read_json("{").is_none());
    assert!(read_json("").is_none());
}

#[test]
fn fields_belong_to_records() {
    let json = Json::Record(vec![("a".into(), Json::Bool(false)), ("b".into(), Json::Null)]);
    assert!(matches!(json.field("a"), Some(Json::Bool(false))));
    assert!(matches!(json.field("b"), Some(Json::Null)));
    assert!(json.field("c").is_none());
    assert!(Json::Text("a".into()).field("a").is_none());
}

#[test]
fn messages_are_read_field_by_field() {
    let json = Json::Record(vec![
        ("reason".into(), Json::Text("compiler-artifact".into())),
        ("executable".into(), Json::Null),
        (
            "target".into(),
            Json::Record(vec![
                ("kind".into(), Json::List(vec![Json::Text("bin".into()), Json::Bool(true)])),
                ("name".into(), Json::Text("fw".into())),
            ]),
        ),
    ]);
    let message = read_message(&json);
    assert_eq!(message.reason.as_deref(), Some("compiler-artifact"));
    assert!(message.executable.is_none());
    assert_eq!(message.target_name.as_deref(), Some("fw"));
    assert_eq!(message.target_kinds, Some(vec![Some("bin".to_string()), None]));
    let message = read_message(&Json::List(vec![]));
    assert!(message.reason.is_none() && message.target_name.is_none());
    assert!(message.executable.is_none() && message.target_kinds.is_none());
    let message = read_message(&Json::Record(vec![("target".into(), Json::Text("kind".into()))]));
    assert!(message.target_name.is_none() && message.target_kinds.is_none());
}

#[test]
fn order_repeats_and_other_lines_do_not_matter() {
    let plain = find_executable(&format!("{FW}\n{TOOL}\n"), false).unwrap_err();
    let mixed = find_executable(&format!("{TOOL}\nnoise\n{FW}\n{LIBRARY}\n{TOOL}\n"), false).unwrap_err();
    assert_eq!(plain.message(), mixed.message());
    let plain = find_executable(FW, false).unwrap();
    let mixed = find_executable(&format!("{EXAMPLE}\n{FW}\n\n{FW}\n"), false).unwrap();
    assert_eq!(plain, mixed);
}
