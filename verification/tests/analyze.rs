use rozy::analysis::{push_synthetic, report_symbol};
use rozy::crate_name::{infer_crate_name, strip_crate_version, valid_crate_name};
use rozy::location::{location_from_reply, source_location, LookupError, SourceLocation};
use rozy::section::{
    classify_section, collect_sections, has_elf_flag, is_allocated, section_totals, SectionEntry,
    SectionFlags, SectionKind, SHF_ALLOC, SHF_EXECINSTR, SHF_WRITE,
};
use rozy::source_path::normalize_source_path;
use rozy::symbol::{
    choose_symbol, names_last_template_parameter, read_symbol, RawSymbol, SymbolEntry, SymbolKind,
};
use rozy::{AnalysisOptions, MemoryKind, MemoryTotals, SymbolReport};

#[test]
fn totals_follow_embedded_size_semantics() {
    let mut totals = MemoryTotals::default();
    totals.add(MemoryKind::Text, 100);
    totals.add(MemoryKind::Data, 20);
    totals.add(MemoryKind::Bss, 30);
    assert_eq!(totals.flash, 120);
    assert_eq!(totals.ram, 50);
}

#[test]
fn compacts_cargo_registry_paths() {
    let path = normalize_source_path(
        "/home/u/.cargo/registry/src/index/hashbrown-0.15.0/src/map.rs",
        &[],
    );
    assert_eq!(path[0], "cargo-registry");
    assert!(path.iter().any(|part| part == "hashbrown-0.15.0"));
}

#[test]
fn attributes_registry_crates_without_the_version() {
    assert_eq!(
        infer_crate_name(
            "hashbrown::map::HashMap::get",
            &[
                "cargo-registry".into(),
                "hashbrown-0.15.0".into(),
                "src".into(),
                "map.rs".into(),
            ],
        ),
        Some("hashbrown".into())
    );
    assert_eq!(
        strip_crate_version("embedded-hal-1.0.0"),
        Some("embedded-hal")
    );
}

#[test]
fn attributes_local_and_symbol_only_crates() {
    assert_eq!(
        infer_crate_name(
            "rozy::main",
            &["rozy".into(), "src".into(), "main.rs".into()]
        ),
        Some("rozy".into())
    );
    assert_eq!(
        infer_crate_name(
            "std::rt::lang_start",
            &["[sections]".into(), ".text".into()]
        ),
        Some("std".into())
    );
    assert_eq!(
        infer_crate_name("<alloc::vec::Vec<T> as core::fmt::Debug>::fmt", &[]),
        Some("alloc".into())
    );
}

#[test]
fn memory_kinds_have_lower_case_names() {
    assert_eq!(MemoryKind::Text.as_str(), "text");
    assert_eq!(MemoryKind::Data.as_str(), "data");
    assert_eq!(MemoryKind::Bss.as_str(), "bss");
}

#[test]
fn default_options_resolve_sources_and_strip_nothing() {
    let options = AnalysisOptions::default();
    assert!(options.resolve_source);
    assert!(options.strip_prefixes.is_empty());
    assert!(options.display_name.is_none());
}

#[test]
fn room_for_totals_ends_with_the_range() {
    let mut totals = MemoryTotals::default();
    assert!(totals.has_room_for(MemoryKind::Data, u64::MAX));
    totals.add(MemoryKind::Data, u64::MAX);
    assert!(!totals.has_room_for(MemoryKind::Text, 1));
    assert!(!totals.has_room_for(MemoryKind::Bss, 1));
    assert!(!totals.has_room_for(MemoryKind::Data, 1));
    assert!(totals.has_room_for(MemoryKind::Text, 0));
    let mut separate = MemoryTotals::default();
    separate.add(MemoryKind::Text, u64::MAX);
    assert!(separate.has_room_for(MemoryKind::Bss, u64::MAX));
}

fn path(source: &str, prefixes: &[&str]) -> Vec<String> {
    let prefixes: Vec<String> = prefixes.iter().map(|prefix| prefix.to_string()).collect();
    normalize_source_path(source, &prefixes)
}

#[test]
fn keeps_what_follows_the_last_riot_directory() {
    assert_eq!(path("/w/RIOT/x/RIOT/sys/shell/shell.c", &[]), ["sys", "shell", "shell.c"]);
    assert_eq!(path("/w/RIOT", &[]), ["[source]"]);
}

#[test]
fn keeps_the_directory_around_the_last_src() {
    assert_eq!(path("/w/src/app/src/main.rs", &[]), ["app", "src", "main.rs"]);
    assert_eq!(path("src/main.rs", &[]), ["src", "main.rs"]);
}

#[test]
fn registry_without_sources_stays_as_it_is() {
    assert_eq!(path("/registry/cache/x/src/y.rs", &[]), ["registry", "cache", "x", "src", "y.rs"]);
    assert_eq!(path("/registry/src", &[]), ["cargo-registry"]);
}

#[test]
fn keeps_the_last_seven_parts() {
    assert_eq!(
        path("/a/b/c/d/e/f/g/h/i", &[]),
        ["c", "d", "e", "f", "g", "h", "i"]
    );
    assert_eq!(
        path("/registry/src/index/x-1.0.0/a/b/c/d/e/f", &[]),
        ["x-1.0.0", "a", "b", "c", "d", "e", "f"]
    );
}

#[test]
fn strips_the_first_prefix_that_fits() {
    assert_eq!(path("/build/tree/a.c", &["/other", "/build", "/build/tree"]), ["tree", "a.c"]);
    assert_eq!(path("/builder/a.c", &["/build"]), ["builder", "a.c"]);
    assert_eq!(path("/build//tree/./a.c", &["/build/tree/"]), ["a.c"]);
    assert_eq!(path("./x/a.c", &["x"]), ["x", "a.c"]);
    assert_eq!(path("../x/a.c", &[".."]), ["x", "a.c"]);
    assert_eq!(path("/x/a.c", &["x"]), ["x", "a.c"]);
    assert_eq!(path("/x", &["/x"]), ["[source]"]);
}

#[test]
fn backslashes_separate_like_slashes() {
    assert_eq!(path("C:\\work\\lib\\a.c", &[]), ["C:", "work", "lib", "a.c"]);
    assert_eq!(path("", &[]), ["[source]"]);
    assert_eq!(path("/../.", &[]), ["[source]"]);
}

#[test]
fn versions_begin_with_a_digit_behind_the_last_such_hyphen() {
    assert_eq!(strip_crate_version("a-1-b"), Some("a"));
    assert_eq!(strip_crate_version("a-1.0.0-rc.1"), Some("a"));
    assert_eq!(strip_crate_version("a-1.0.0-2"), Some("a-1.0.0"));
    assert_eq!(strip_crate_version("-1"), None);
    assert_eq!(strip_crate_version("name"), None);
    assert_eq!(strip_crate_version("name-"), None);
    assert_eq!(strip_crate_version("\u{e9}\u{e9}-2.0"), Some("\u{e9}\u{e9}"));
}

#[test]
fn crate_names_are_letters_numbers_underscores_and_hyphens() {
    assert!(valid_crate_name("embedded-hal"));
    assert!(valid_crate_name("_private1"));
    assert!(valid_crate_name("\u{fc}ber\u{663}"));
    assert!(!valid_crate_name(""));
    assert!(!valid_crate_name("1st"));
    assert!(!valid_crate_name("\u{663}x"));
    assert!(!valid_crate_name("-x"));
    assert!(!valid_crate_name("[sections]"));
    assert!(!valid_crate_name("a b"));
    assert!(!valid_crate_name("a\u{2003}b"));
}

#[test]
fn symbols_name_their_crate_in_front_of_the_first_separator() {
    assert_eq!(infer_crate_name("main", &[]), None);
    assert_eq!(infer_crate_name("<<x::Y as z::W>>::f", &[]), Some("x".into()));
    assert_eq!(infer_crate_name(" \u{2003}core\u{2003} ::fmt", &[]), Some("core".into()));
    assert_eq!(infer_crate_name("<&str as core::fmt::Debug>::fmt", &[]), None);
    assert_eq!(infer_crate_name("::x", &[]), None);
    assert_eq!(
        infer_crate_name("a::b", &["src".into(), "main.rs".into()]),
        Some("a".into())
    );
    assert_eq!(
        infer_crate_name("a::b", &["cargo-registry".into(), "plain".into()]),
        Some("a".into())
    );
    assert_eq!(
        infer_crate_name("a::b", &["not valid".into(), "src".into()]),
        Some("a".into())
    );
}

#[test]
fn sections_are_classified_by_flags_kind_and_name() {
    let other = SectionKind::Other;
    assert_eq!(classify_section(".bss", other, true, true), MemoryKind::Text);
    assert_eq!(classify_section("x", SectionKind::Text, false, true), MemoryKind::Text);
    assert_eq!(classify_section("x", SectionKind::UninitializedTls, false, true), MemoryKind::Bss);
    assert_eq!(classify_section(".BSS.x", other, false, true), MemoryKind::Bss);
    assert_eq!(classify_section(".bssx", other, false, false), MemoryKind::Text);
    assert_eq!(classify_section("My_Stack_0", other, false, true), MemoryKind::Bss);
    assert_eq!(classify_section(".noinit", other, false, false), MemoryKind::Bss);
    assert_eq!(classify_section("x", other, false, true), MemoryKind::Data);
    assert_eq!(classify_section("x", SectionKind::Tls, false, false), MemoryKind::Data);
    assert_eq!(classify_section(".Data.y", other, false, false), MemoryKind::Data);
    assert_eq!(classify_section(".relocate", other, false, false), MemoryKind::Data);
    assert_eq!(classify_section(".rodata", SectionKind::ReadOnlyData, false, false), MemoryKind::Text);
}

#[test]
fn section_kinds_go_by_their_names() {
    assert_eq!(SectionKind::from_name("Text"), SectionKind::Text);
    assert_eq!(SectionKind::from_name("Common"), SectionKind::Common);
    assert_eq!(SectionKind::from_name("Elf(5)"), SectionKind::Other);
    assert!(SectionKind::Common.is_bss());
    assert!(!SectionKind::Data.is_bss());
    assert_eq!(format!("{:?}", object::SectionKind::UninitializedData), "UninitializedData");
}

#[test]
fn flags_are_those_of_elf() {
    assert_eq!(SHF_WRITE, u64::from(object::elf::SHF_WRITE));
    assert_eq!(SHF_ALLOC, u64::from(object::elf::SHF_ALLOC));
    assert_eq!(SHF_EXECINSTR, u64::from(object::elf::SHF_EXECINSTR));
    assert!(is_allocated(SectionFlags::Elf { sh_flags: 3 }, SectionKind::Other));
    assert!(!is_allocated(SectionFlags::Elf { sh_flags: 1 }, SectionKind::Text));
    assert!(is_allocated(SectionFlags::Other, SectionKind::Tls));
    assert!(!is_allocated(SectionFlags::Other, SectionKind::Other));
    assert!(has_elf_flag(SectionFlags::Elf { sh_flags: 6 }, SHF_EXECINSTR));
    assert!(!has_elf_flag(SectionFlags::Elf { sh_flags: 6 }, SHF_WRITE));
    assert!(!has_elf_flag(SectionFlags::Other, SHF_WRITE));
}

fn section(index: usize, name: Option<&str>, size: u64, flags: u64) -> SectionEntry {
    SectionEntry {
        index,
        name: name.map(str::to_string),
        address: 0x100 * index as u64,
        size,
        kind: "Other".into(),
        flags: SectionFlags::Elf { sh_flags: flags },
    }
}

#[test]
fn sections_without_memory_are_left_out() {
    let entries = [
        section(1, Some(".text"), 10, 6),
        section(2, Some(".debug_info"), 99, 0),
        section(3, Some(".empty"), 0, 2),
        section(4, None, 5, 3),
    ];
    let sections = collect_sections(&entries);
    assert_eq!(sections.len(), 2);
    assert_eq!(sections[0].report.name, ".text");
    assert_eq!(sections[0].report.memory, MemoryKind::Text);
    assert_eq!(sections[1].index, 4);
    assert_eq!(sections[1].report.name, "<unnamed>");
    assert_eq!(sections[1].report.memory, MemoryKind::Data);
    let totals = section_totals(&sections).unwrap();
    assert_eq!((totals.text, totals.data, totals.bss), (10, 5, 0));
    assert_eq!((totals.flash, totals.ram), (15, 5));
}

#[test]
fn totals_beyond_the_range_are_refused() {
    let entries = [section(1, Some("a"), u64::MAX, 3), section(2, Some("b"), 1, 6)];
    assert!(section_totals(&collect_sections(&entries)).is_none());
}

fn entry(name: &str, section: Option<usize>) -> SymbolEntry {
    SymbolEntry {
        name: Some(name.into()),
        address: 0x101,
        size: 4,
        kind: SymbolKind::Other,
        section,
        definition: true,
        undefined: false,
    }
}

#[test]
fn symbols_need_a_definition_a_section_and_a_name() {
    let sections = collect_sections(&[section(1, Some(".text"), 10, 6)]);
    let symbol = read_symbol(&entry("main", Some(1)), &sections, true).unwrap();
    assert_eq!((symbol.section, symbol.address, symbol.declared_size), (1, 0x100, 4));
    assert_eq!(symbol.name, "main");
    assert_eq!(read_symbol(&entry("main", Some(1)), &sections, false).unwrap().address, 0x101);
    assert!(read_symbol(&entry("main", Some(2)), &sections, false).is_none());
    assert!(read_symbol(&entry("main", None), &sections, false).is_none());
    assert!(read_symbol(&entry("", Some(1)), &sections, false).is_none());
    let mut other = entry("main", Some(1));
    other.definition = false;
    assert!(read_symbol(&other, &sections, false).is_none());
    let mut other = entry("main", Some(1));
    other.undefined = true;
    assert!(read_symbol(&other, &sections, false).is_none());
    let mut other = entry("main", Some(1));
    other.kind = SymbolKind::File;
    assert!(read_symbol(&other, &sections, false).is_none());
    let mut other = entry("main", Some(1));
    other.kind = SymbolKind::Section;
    assert!(read_symbol(&other, &sections, false).is_none());
    let mut other = entry("main", Some(1));
    other.name = None;
    assert!(read_symbol(&other, &sections, false).is_none());
}

#[test]
fn mangled_names_become_readable() {
    let sections = collect_sections(&[section(1, Some(".text"), 10, 6)]);
    let rust = entry("_ZN4core3fmt5Write9write_fmt17h0123456789abcdefE", Some(1));
    assert_eq!(read_symbol(&rust, &sections, false).unwrap().name, "core::fmt::Write::write_fmt");
    let cpp = entry("_ZN3foo3barEi", Some(1));
    assert_eq!(read_symbol(&cpp, &sections, false).unwrap().name, "foo::bar(int)");
}

fn raw(name: &str, declared_size: u64) -> RawSymbol {
    RawSymbol { section: 1, name: name.into(), address: 0, declared_size }
}

#[test]
fn the_best_alias_names_an_address() {
    let larger = [raw("a", 8), raw("b", 4)];
    assert_eq!(choose_symbol(&larger).name, "a");
    let dotted = [raw(".a", 4), raw("long_name", 4)];
    assert_eq!(choose_symbol(&dotted).name, "long_name");
    let shorter = [raw("abc", 4), raw("ab", 4), raw("abcd", 4)];
    assert_eq!(choose_symbol(&shorter).name, "ab");
    let equal = [raw("ab", 4), raw("xy", 4), raw("abc", 4)];
    assert_eq!(choose_symbol(&equal).name, "xy");
    let bytes = [raw("\u{e9}", 4), raw("x", 4)];
    assert_eq!(choose_symbol(&bytes).name, "x");
}

#[test]
fn synthetic_entries_stand_for_bytes_without_owner() {
    let mut symbols: Vec<SymbolReport> = Vec::new();
    push_synthetic(&mut symbols, ".text", MemoryKind::Text, 0x10, 0);
    assert!(symbols.is_empty());
    push_synthetic(&mut symbols, ".text", MemoryKind::Text, 0x10, 3);
    assert_eq!(symbols.len(), 1);
    assert_eq!(symbols[0].name, "<unattributed>");
    assert_eq!(symbols[0].path, ["[sections]", ".text"]);
    assert_eq!((symbols[0].address, symbols[0].size), (0x10, 3));
    assert!(symbols[0].synthetic);
    assert!(symbols[0].crate_name.is_none() && symbols[0].source.is_none());
}

#[test]
fn entries_follow_the_source_of_a_symbol() {
    let location = SourceLocation { file: Some("/w/app/src/main.rs".into()), line: Some(7) };
    let report = report_symbol("main", ".text", MemoryKind::Text, 0x10, 4, location, &["/w".into()]);
    assert_eq!(report.path, ["app", "src", "main.rs"]);
    assert_eq!(report.crate_name.as_deref(), Some("app"));
    assert_eq!(report.source.as_deref(), Some("/w/app/src/main.rs"));
    assert_eq!(report.line, Some(7));
    assert!(!report.synthetic);
    let location = SourceLocation { file: None, line: Some(7) };
    let report = report_symbol("main", ".text", MemoryKind::Text, 0x10, 4, location, &[]);
    assert_eq!(report.path, ["[sections]", ".text"]);
    assert_eq!(report.line, Some(7));
}

#[test]
fn lookups_that_fail_have_no_location() {
    let found = SourceLocation { file: Some("a.c".into()), line: Some(1) };
    let location = location_from_reply(&Ok(Some(found)));
    assert_eq!(location.file.as_deref(), Some("a.c"));
    assert_eq!(location.line, Some(1));
    let location = location_from_reply(&Ok(None));
    assert!(location.file.is_none() && location.line.is_none());
    let location = location_from_reply(&Err(LookupError));
    assert!(location.file.is_none() && location.line.is_none());
}

#[test]
fn locations_go_by_the_number_of_the_reply() {
    let replies = [
        Err(LookupError),
        Ok(Some(SourceLocation { file: Some("b.c".into()), line: None })),
    ];
    assert!(source_location(&replies, 0).file.is_none());
    assert_eq!(source_location(&replies, 1).file.as_deref(), Some("b.c"));
    let location = source_location(&replies, 2);
    assert!(location.file.is_none() && location.line.is_none());
}

#[test]
fn parameters_that_cannot_be_counted_stay_mangled() {
    let sections = collect_sections(&[section(1, Some(".text"), 10, 6)]);
    let last = format!("_Z1fT{}_", isize::MAX);
    assert!(names_last_template_parameter(&last));
    assert_eq!(read_symbol(&entry(&last, Some(1)), &sections, false).unwrap().name, last);
    assert!(names_last_template_parameter(&format!("T{}", isize::MAX)));
    assert!(!names_last_template_parameter(&format!("_Z1fT{}0_", isize::MAX)));
    assert!(!names_last_template_parameter(&format!("_Z1fT{}_", isize::MAX - 1)));
    assert!(!names_last_template_parameter(""));
    let rust = format!("_ZN21T{}xE", isize::MAX);
    if isize::MAX as u128 == i64::MAX as u128 {
        let shown = read_symbol(&entry(&rust, Some(1)), &sections, false).unwrap().name;
        assert_eq!(shown, format!("T{}x", isize::MAX));
    }
    let before = format!("_Z1fT{}_", isize::MAX - 1);
    assert_eq!(read_symbol(&entry(&before, Some(1)), &sections, false).unwrap().name, before);
    let beyond = format!("_Z1fT{}0_", isize::MAX);
    assert_eq!(read_symbol(&entry(&beyond, Some(1)), &sections, false).unwrap().name, beyond);
}

#[test]
fn registry_sources_belong_to_their_crate() {
    let path = path("/h/.cargo/registry/src/index-1/heapless-0.8.0/src/vec.rs", &["/h"]);
    assert_eq!(path, ["cargo-registry", "heapless-0.8.0", "src", "vec.rs"]);
    assert_eq!(infer_crate_name("main", &path), Some("heapless".into()));
}

#[test]
fn paths_have_one_to_seven_parts() {
    for source in ["", "/", "a", "a/b/c/d/e/f/g", "a/b/c/d/e/f/g/h", "/x/RIOT", "/registry/src/i/a/b/c/d/e/f/g"] {
        let parts = path(source, &[]).len();
        assert!((1..=7).contains(&parts));
    }
}
