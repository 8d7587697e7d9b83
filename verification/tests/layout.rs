use rozy::layout::{lay_out, PlacedSpan};
use rozy::order::{arrange, stable_order};
use rozy::section::{MemorySection, SectionAddress};
use rozy::symbol::RawSymbol;
use rozy::{MemoryKind, SectionReport};

fn section(index: usize, address: u64, size: u64) -> MemorySection {
    MemorySection {
        index,
        report: SectionReport {
            name: format!(".s{index}"),
            address,
            size,
            memory: MemoryKind::Text,
            kind: "Text".into(),
        },
    }
}

fn symbol(section: usize, name: &str, address: u64, declared_size: u64) -> RawSymbol {
    RawSymbol { section, name: name.into(), address, declared_size }
}

fn shown(spans: &[PlacedSpan]) -> Vec<(u64, u64, Option<&str>)> {
    spans.iter().map(|placed| (placed.span.address, placed.span.size, placed.span.name.as_deref())).collect()
}

#[test]
fn a_stripped_section_is_one_gap() {
    let spans = lay_out(&[section(1, 0x10, 8)], vec![symbol(2, "elsewhere", 0x10, 4)]);
    assert_eq!(shown(&spans), [(0x10, 8, None)]);
    assert_eq!(spans[0].section, ".s1");
}

#[test]
fn gaps_lie_around_declared_sizes() {
    let spans = lay_out(
        &[section(1, 0x10, 0x10)],
        vec![symbol(1, "b", 0x18, 2), symbol(1, "a", 0x12, 2)],
    );
    assert_eq!(
        shown(&spans),
        [
            (0x10, 2, None),
            (0x12, 2, Some("a")),
            (0x14, 4, None),
            (0x18, 2, Some("b")),
            (0x1a, 6, None),
        ]
    );
}

#[test]
fn symbols_without_size_reach_to_the_next() {
    let spans = lay_out(
        &[section(1, 0x10, 0x10)],
        vec![symbol(1, "a", 0x10, 0), symbol(1, "b", 0x14, 0)],
    );
    assert_eq!(shown(&spans), [(0x10, 4, Some("a")), (0x14, 12, Some("b"))]);
}

#[test]
fn overlapping_symbols_are_cut_at_the_next() {
    let spans = lay_out(
        &[section(1, 0x10, 0x10)],
        vec![symbol(1, "outer", 0x10, 0x100), symbol(1, "inner", 0x14, 4)],
    );
    assert_eq!(
        shown(&spans),
        [(0x10, 4, Some("outer")), (0x14, 4, Some("inner")), (0x18, 8, None)]
    );
}

#[test]
fn aliases_share_one_span() {
    let spans = lay_out(
        &[section(1, 0x10, 4)],
        vec![symbol(1, "long_alias", 0x10, 4), symbol(1, "f", 0x10, 4), symbol(1, "g", 0x10, 0)],
    );
    assert_eq!(shown(&spans), [(0x10, 4, Some("f"))]);
}

#[test]
fn symbols_outside_their_section_own_nothing() {
    let spans = lay_out(
        &[section(1, 0x10, 4)],
        vec![symbol(1, "below", 0x0f, 4), symbol(1, "above", 0x14, 4)],
    );
    assert_eq!(shown(&spans), [(0x10, 4, None)]);
}

#[test]
fn sections_end_with_the_address_range() {
    let spans = lay_out(
        &[section(1, u64::MAX - 4, 0x10)],
        vec![symbol(1, "last", u64::MAX - 2, u64::MAX)],
    );
    assert_eq!(shown(&spans), [(u64::MAX - 4, 2, None), (u64::MAX - 2, 2, Some("last"))]);
}

#[test]
fn equal_keys_keep_their_order() {
    let keys: Vec<SectionAddress> = [3, 1, 3, 2, 1].map(|address| SectionAddress { address }).into();
    let order = stable_order(&keys);
    assert_eq!(order, [1, 4, 3, 0, 2]);
    assert_eq!(arrange(vec!["a", "b", "c", "d", "e"], &order), ["b", "e", "d", "a", "c"]);
    assert!(stable_order::<SectionAddress>(&[]).is_empty());
}
