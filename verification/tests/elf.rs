use rozy::location::{LookupError, SourceLocation};
use rozy::{
    analyze_file, analyze_image, lookup_addresses, read_image, rozyError, Analysis,
    AnalysisOptions, InputFile, MemoryKind,
};

const PROGBITS: u32 = 1;
const SYMTAB: u32 = 2;
const STRTAB: u32 = 3;
const NOBITS: u32 = 8;
const DYNSYM: u32 = 11;

const ARM: u16 = 40;
const X86_64: u16 = 62;

struct Section {
    name: &'static str,
    kind: u32,
    flags: u64,
    address: u64,
    size: u64,
}

struct Symbol {
    name: &'static str,
    address: u64,
    size: u64,
    kind: u8,
    section: u16,
}

fn section(name: &'static str, kind: u32, flags: u64, address: u64, size: u64) -> Section {
    Section { name, kind, flags, address, size }
}

fn function(name: &'static str, address: u64, size: u64, section: u16) -> Symbol {
    Symbol { name, address, size, kind: 2, section }
}

struct Writer {
    wide: bool,
    big: bool,
    bytes: Vec<u8>,
}

impl Writer {
    fn number(&mut self, value: u64, width: usize) {
        let big = value.to_be_bytes();
        for at in 0..width {
            let place = if self.big { 8 - width + at } else { 7 - at };
            self.bytes.push(big[place]);
        }
    }

    fn half(&mut self, value: u16) {
        self.number(u64::from(value), 2);
    }

    fn word(&mut self, value: u32) {
        self.number(u64::from(value), 4);
    }

    fn address(&mut self, value: u64) {
        let width = if self.wide { 8 } else { 4 };
        self.number(value, width);
    }
}

struct Names {
    bytes: Vec<u8>,
}

impl Names {
    fn add(&mut self, name: &str) -> u32 {
        let at = self.bytes.len() as u32;
        self.bytes.extend_from_slice(name.as_bytes());
        self.bytes.push(0);
        at
    }
}

/// An ELF file: the given sections, a table of the given kind with the given symbols, the names.
fn elf(machine: u16, wide: bool, big: bool, sections: &[Section], table: u32, symbols: &[Symbol]) -> Vec<u8> {
    let mut names = Names { bytes: vec![0] };
    let mut strings = Names { bytes: vec![0] };
    let header: usize = if wide { 64 } else { 52 };
    let entry: usize = if wide { 64 } else { 40 };
    let symbol_size: usize = if wide { 24 } else { 16 };
    let count = sections.len() + 4;
    let mut w = Writer { wide, big, bytes: vec![0x7f, b'E', b'L', b'F'] };
    w.bytes.push(if wide { 2 } else { 1 });
    w.bytes.push(if big { 2 } else { 1 });
    w.bytes.push(1);
    w.bytes.extend_from_slice(&[0; 9]);
    w.half(2);
    w.half(machine);
    w.word(1);
    w.address(0);
    w.address(0);
    w.address(header as u64);
    w.word(0);
    w.half(header as u16);
    w.half(0);
    w.half(0);
    w.half(entry as u16);
    w.half(count as u16);
    w.half((count - 1) as u16);
    assert_eq!(w.bytes.len(), header);

    let mut list = Writer { wide, big, bytes: vec![0; symbol_size] };
    for symbol in symbols {
        list.word(strings.add(symbol.name));
        if wide {
            list.bytes.push(0x10 | symbol.kind);
            list.bytes.push(0);
            list.half(symbol.section);
            list.address(symbol.address);
            list.address(symbol.size);
        } else {
            list.address(symbol.address);
            list.address(symbol.size);
            list.bytes.push(0x10 | symbol.kind);
            list.bytes.push(0);
            list.half(symbol.section);
        }
    }

    let mut rows: Vec<(u32, u32, u64, u64, u64, u64, u32, u64)> = vec![(0, 0, 0, 0, 0, 0, 0, 0)];
    for section in sections {
        rows.push((names.add(section.name), section.kind, section.flags, section.address, 0, section.size, 0, 0));
    }
    let symbols_name = names.add(".symbols");
    let strings_name = names.add(".strtab");
    let names_name = names.add(".shstrtab");
    let at = (header + entry * count) as u64;
    let list_size = list.bytes.len() as u64;
    let strings_size = strings.bytes.len() as u64;
    rows.push((symbols_name, table, 0, 0, at, list_size, (count - 2) as u32, symbol_size as u64));
    rows.push((strings_name, STRTAB, 0, 0, at + list_size, strings_size, 0, 0));
    rows.push((names_name, STRTAB, 0, 0, at + list_size + strings_size, names.bytes.len() as u64, 0, 0));
    for (name, kind, flags, address, offset, size, link, entry_size) in rows {
        w.word(name);
        w.word(kind);
        w.address(flags);
        w.address(address);
        w.address(offset);
        w.address(size);
        w.word(link);
        w.word(1);
        w.address(1);
        w.address(entry_size);
    }
    w.bytes.extend_from_slice(&list.bytes);
    w.bytes.extend_from_slice(&strings.bytes);
    w.bytes.extend_from_slice(&names.bytes);
    w.bytes
}

fn input() -> InputFile {
    InputFile { path: "out/firmware.elf".into(), name: Some("firmware.elf".into()) }
}

fn analyze(bytes: &[u8]) -> Analysis {
    analyze_file(bytes, &input(), &[], &AnalysisOptions::default()).unwrap()
}

fn shown(analysis: &Analysis) -> Vec<(String, &str, u64, u64, bool)> {
    analysis
        .symbols
        .iter()
        .map(|s| (s.name.clone(), s.memory.as_str(), s.address, s.size, s.synthetic))
        .collect()
}

fn firmware() -> Vec<u8> {
    elf(
        ARM,
        false,
        false,
        &[
            section(".bss", NOBITS, 3, 0x2000_0010, 0x20),
            section(".data", PROGBITS, 3, 0x2000_0000, 0x10),
            section(".text", PROGBITS, 6, 0x8000, 0x40),
            section(".comment", PROGBITS, 0, 0, 0x99),
        ],
        SYMTAB,
        &[
            function("reset", 0x8001, 8, 3),
            function("Reset_Handler", 0x8000, 0, 3),
            function("_ZN4core3fmt5Write9write_fmt17h0123456789abcdefE", 0x8011, 0, 3),
            Symbol { name: "counter", address: 0x2000_0004, size: 4, kind: 1, section: 2 },
            Symbol { name: "main.c", address: 0, size: 0, kind: 4, section: 0xfff1 },
            function("missing", 0, 0, 0),
        ],
    )
}

#[test]
fn firmware_is_attributed_to_its_last_byte() {
    let bytes = firmware();
    let analysis = analyze(&bytes);
    assert_eq!(analysis.name, "firmware.elf");
    assert_eq!(analysis.file, "out/firmware.elf");
    assert_eq!(analysis.file_size, bytes.len() as u64);
    assert_eq!(analysis.architecture, "Arm");
    assert_eq!(analysis.endian, "little");
    let totals = &analysis.totals;
    assert_eq!((totals.text, totals.data, totals.bss), (0x40, 0x10, 0x20));
    assert_eq!((totals.flash, totals.ram), (0x50, 0x30));
    let names: Vec<&str> = analysis.sections.iter().map(|s| s.name.as_str()).collect();
    assert_eq!(names, [".text", ".data", ".bss"]);
    assert_eq!(analysis.sections[0].kind, "Text");
    assert_eq!(analysis.sections[2].kind, "UninitializedData");
    assert_eq!(
        shown(&analysis),
        [
            ("<unattributed>".to_string(), "bss", 0x2000_0010, 0x20, true),
            ("<unattributed>".to_string(), "data", 0x2000_0000, 4, true),
            ("counter".to_string(), "data", 0x2000_0004, 4, false),
            ("<unattributed>".to_string(), "data", 0x2000_0008, 8, true),
            ("reset".to_string(), "text", 0x8000, 8, false),
            ("<unattributed>".to_string(), "text", 0x8008, 8, true),
            ("core::fmt::Write::write_fmt".to_string(), "text", 0x8010, 0x30, false),
        ]
    );
    assert_eq!(analysis.symbols[6].crate_name.as_deref(), Some("core"));
    assert_eq!(analysis.symbols[6].path, ["[sections]", ".text"]);
}

#[test]
fn symbols_do_not_change_the_totals() {
    let sections = [
        section(".text", PROGBITS, 6, 0x8000, 0x40),
        section(".data", PROGBITS, 3, 0x2000_0000, 0x10),
    ];
    let stripped = analyze(&elf(ARM, false, false, &sections, SYMTAB, &[]));
    let full = analyze(&elf(
        ARM,
        false,
        false,
        &sections,
        SYMTAB,
        &[function("a", 0x8000, 0x1000, 1), function("b", 0x8004, 2, 1)],
    ));
    assert_eq!(stripped.totals.text, full.totals.text);
    assert_eq!(stripped.totals.ram, full.totals.ram);
    for (left, right) in stripped.sections.iter().zip(&full.sections) {
        assert_eq!((&left.name, left.address, left.size), (&right.name, right.address, right.size));
    }
    assert_eq!(stripped.symbols.len(), 2);
    assert!(stripped.symbols.iter().all(|s| s.synthetic));
    let text: u64 = full.symbols.iter().filter(|s| s.memory == MemoryKind::Text).map(|s| s.size).sum();
    assert_eq!(text, full.totals.text);
}

#[test]
fn odd_addresses_count_outside_arm() {
    let sections = [section(".text", PROGBITS, 6, 0x1000, 4)];
    let bytes = elf(X86_64, true, false, &sections, SYMTAB, &[function("odd", 0x1001, 2, 1)]);
    let analysis = analyze(&bytes);
    assert_eq!(analysis.architecture, "X86_64");
    assert_eq!(
        shown(&analysis),
        [
            ("<unattributed>".to_string(), "text", 0x1000, 1, true),
            ("odd".to_string(), "text", 0x1001, 2, false),
            ("<unattributed>".to_string(), "text", 0x1003, 1, true),
        ]
    );
}

#[test]
fn big_endian_files_are_read_as_such() {
    let sections = [section(".text", PROGBITS, 6, 0x8000, 4)];
    let analysis = analyze(&elf(ARM, false, true, &sections, SYMTAB, &[function("start", 0x8000, 4, 1)]));
    assert_eq!(analysis.endian, "big");
    assert_eq!(shown(&analysis), [("start".to_string(), "text", 0x8000, 4, false)]);
}

#[test]
fn dynamic_symbols_stand_in_for_missing_ones() {
    let sections = [section(".text", PROGBITS, 6, 0x1000, 4)];
    let bytes = elf(X86_64, true, false, &sections, DYNSYM, &[function("exported", 0x1000, 4, 1)]);
    let image = read_image(&bytes).unwrap();
    assert!(image.symbols.is_empty());
    assert_eq!(image.dynamic_symbols.len(), 1);
    assert_eq!(shown(&analyze(&bytes)), [("exported".to_string(), "text", 0x1000, 4, false)]);
}

#[test]
fn names_come_from_the_options_the_file_or_a_default() {
    let bytes = firmware();
    let mut options = AnalysisOptions::default();
    let unnamed = InputFile { path: "..".into(), name: None };
    assert_eq!(analyze_file(&bytes, &unnamed, &[], &options).unwrap().name, "ELF report");
    assert_eq!(analyze_file(&bytes, &input(), &[], &options).unwrap().name, "firmware.elf");
    options.display_name = Some("My board".into());
    assert_eq!(analyze_file(&bytes, &input(), &[], &options).unwrap().name, "My board");
}

#[test]
fn bytes_that_are_no_object_are_refused() {
    let options = AnalysisOptions::default();
    let result = analyze_file(b"no object file at all", &input(), &[], &options);
    assert!(matches!(result, Err(rozyError::Parse { .. })));
    let result = analyze_file(b"", &input(), &[], &options);
    assert!(matches!(result, Err(rozyError::Parse { .. })));
}

#[test]
fn objects_of_other_formats_are_refused() {
    let mut macho = vec![0xcf, 0xfa, 0xed, 0xfe];
    macho.extend_from_slice(&[0; 28]);
    let result = analyze_file(&macho, &input(), &[], &AnalysisOptions::default());
    assert!(matches!(result, Err(rozyError::NotElf)));
}

#[test]
fn totals_beyond_the_range_are_an_error() {
    let sections = [
        section(".bss", NOBITS, 3, 0, u64::MAX),
        section(".data", PROGBITS, 3, 0, 1),
    ];
    let bytes = elf(X86_64, true, false, &sections, SYMTAB, &[]);
    let result = analyze_file(&bytes, &input(), &[], &AnalysisOptions::default());
    assert!(matches!(result, Err(rozyError::TooLarge)));
}

#[test]
fn images_are_analyzed_like_their_files() {
    let bytes = firmware();
    let image = read_image(&bytes).unwrap();
    let analysis = analyze_image(&image, 7, &input(), &[], &AnalysisOptions::default());
    assert_eq!(shown(&analysis), shown(&analyze(&bytes)));
    assert_eq!(analysis.file_size, 7);
}

#[test]
fn sources_are_resolved_where_asked_for() {
    let bytes = firmware();
    let image = read_image(&bytes).unwrap();
    assert_eq!(lookup_addresses(&image), [0x2000_0004, 0x8000, 0x8010]);
    let replies = [
        Err(LookupError),
        Ok(Some(SourceLocation { file: Some("/w/boot/src/reset.rs".into()), line: Some(3) })),
        Ok(None),
    ];
    let mut options = AnalysisOptions::default();
    let analysis = analyze_file(&bytes, &input(), &replies, &options).unwrap();
    for symbol in &analysis.symbols {
        if symbol.name == "reset" {
            assert_eq!(symbol.source.as_deref(), Some("/w/boot/src/reset.rs"));
            assert_eq!(symbol.line, Some(3));
            assert_eq!(symbol.path, ["boot", "src", "reset.rs"]);
            assert_eq!(symbol.crate_name.as_deref(), Some("boot"));
        } else {
            assert!(symbol.source.is_none() && symbol.line.is_none());
        }
    }
    options.resolve_source = false;
    let analysis = analyze_file(&bytes, &input(), &replies, &options).unwrap();
    for symbol in &analysis.symbols {
        assert!(symbol.source.is_none() && symbol.line.is_none());
        assert_eq!(symbol.path, ["[sections]", symbol.section.as_str()]);
    }
}
