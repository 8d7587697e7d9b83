use rozy::summary::render_summary;
use rozy::text::decimal_text;
use rozy::{MemoryKind, MemoryTotals};

#[test]
fn numbers_are_written_in_decimal() {
    assert_eq!(decimal_text(0), "0");
    assert_eq!(decimal_text(10), "10");
    assert_eq!(decimal_text(u64::MAX), u64::MAX.to_string());
}

#[test]
fn the_summary_is_a_table() {
    let mut totals = MemoryTotals::default();
    totals.add(MemoryKind::Text, 100);
    totals.add(MemoryKind::Data, 20);
    totals.add(MemoryKind::Bss, 1_234_567_890_123);
    let expected = format!(
        "\n{}\n{:<12} {:>12}\n{:-<25}\n{:<12} {:>12}\n{:<12} {:>12}\n{:<12} {:>12}\n{:<12} {:>12}\n{:<12} {:>12}\n\nReport: {}\n",
        "firmware", "region", "bytes", "", "text", 100, "data", 20, "bss", 1_234_567_890_123u64,
        "flash", 120, "ram", 1_234_567_890_143u64, "out.html",
    );
    assert_eq!(render_summary("firmware", &totals, "out.html"), expected);
}
