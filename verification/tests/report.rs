use rozy::render::{escape_json, replace_all};
use rozy::{render_html, Analysis, MemoryKind, MemoryTotals, SymbolReport};

fn text(value: &str) -> String {
    serde_json::to_string(value).unwrap()
}

fn optional(value: &Option<String>) -> String {
    match value {
        Some(value) => text(value),
        None => "null".to_string(),
    }
}

fn symbol_json(symbol: &SymbolReport) -> String {
    let path: Vec<String> = symbol.path.iter().map(|part| text(part)).collect();
    format!(
        "{{\"name\":{},\"address\":{},\"size\":{},\"memory\":{},\"section\":{},\"path\":[{}],\"crate_name\":{},\"source\":{},\"line\":{},\"synthetic\":{}}}",
        text(&symbol.name),
        symbol.address,
        symbol.size,
        text(symbol.memory.as_str()),
        text(&symbol.section),
        path.join(","),
        optional(&symbol.crate_name),
        optional(&symbol.source),
        symbol.line.map_or("null".to_string(), |line| line.to_string()),
        symbol.synthetic,
    )
}

fn json(analysis: &Analysis) -> String {
    let symbols: Vec<String> = analysis.symbols.iter().map(symbol_json).collect();
    let totals = &analysis.totals;
    assert!(analysis.sections.is_empty());
    format!(
        "{{\"name\":{},\"file\":{},\"file_size\":{},\"architecture\":{},\"endian\":{},\"totals\":{{\"text\":{},\"data\":{},\"bss\":{},\"flash\":{},\"ram\":{}}},\"sections\":[],\"symbols\":[{}]}}",
        text(&analysis.name),
        text(&analysis.file),
        analysis.file_size,
        text(&analysis.architecture),
        text(&analysis.endian),
        totals.text,
        totals.data,
        totals.bss,
        totals.flash,
        totals.ram,
        symbols.join(","),
    )
}

#[test]
fn embeds_json_without_closing_script() {
    let analysis = Analysis {
        name: "</script>".into(),
        file: "x.elf".into(),
        file_size: 0,
        architecture: "Arm".into(),
        endian: "little".into(),
        totals: MemoryTotals::default(),
        sections: vec![],
        symbols: vec![],
    };
    let html = render_html(&json(&analysis));
    assert!(!html.contains("const REPORT = {\"name\":\"</script>"));
    assert!(html.contains("const REPORT = {\"name\":\"\\u003c/script\\u003e\",\"file\":\"x.elf\""));
}

#[test]
fn embeds_crate_grouping_and_attribution() {
    let analysis = Analysis {
        name: "firmware".into(),
        file: "firmware.elf".into(),
        file_size: 1,
        architecture: "Arm".into(),
        endian: "little".into(),
        totals: MemoryTotals::default(),
        sections: vec![],
        symbols: vec![SymbolReport {
            name: "rozy::main".into(),
            address: 0,
            size: 1,
            memory: MemoryKind::Text,
            section: ".text".into(),
            path: vec!["rozy".into(), "src".into(), "main.rs".into()],
            crate_name: Some("rozy".into()),
            source: Some("rozy/src/main.rs".into()),
            line: Some(1),
            synthetic: false,
        }],
    };
    let html = render_html(&json(&analysis));
    assert!(html.contains("<option value=\"crate\">Rust crates</option>"));
    assert!(html.contains("\"crate_name\":\"rozy\""));
    assert!(html.contains("id=\"tableTotal\""));
    assert!(html.contains("list.reduce((sum,s)=>sum+s.size,0)"));
    assert!(html.contains("for(const s of list)"));
    assert!(!html.contains("list.slice(0,250)"));
}

#[test]
fn markup_in_data_is_escaped() {
    assert_eq!(escape_json("a&<b>\u{e9}&"), "a\\u0026\\u003cb\\u003e\u{e9}\\u0026");
    assert_eq!(escape_json(""), "");
}

#[test]
fn data_brings_no_markup_into_the_page() {
    let plain = render_html("{}");
    let hostile = render_html("{\"name\":\"</script><script>&amp;\"}");
    for ch in ['<', '>', '&'] {
        assert_eq!(plain.matches(ch).count(), hostile.matches(ch).count());
    }
    assert!(!plain.contains("__rozy_REPORT_JSON__"));
}

#[test]
fn replaces_from_left_to_right() {
    assert_eq!(replace_all("aaaa", "aa", "b"), "bb");
    assert_eq!(replace_all("aaa", "aa", "b"), "ba");
    assert_eq!(replace_all("xayaz", "a", "aa"), "xaayaaz");
    assert_eq!(replace_all("", "a", "b"), "");
}

#[test]
fn escaped_data_reads_back_as_it_was() {
    let json = "{\"a\":\"<b>&\\n\\\\u003c\\\"\",\"<\":[1,null]}";
    let before: serde_json::Value = serde_json::from_str(json).unwrap();
    let after: serde_json::Value = serde_json::from_str(&escape_json(json)).unwrap();
    assert_eq!(before, after);
    assert_ne!(json, escape_json(json));
}
