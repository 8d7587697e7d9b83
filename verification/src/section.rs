//! The sections of an object file that take memory, and which kind of memory each takes.

use crate::memory::{MemoryKind, MemoryTotals};
use crate::order::SortKey;
use crate::text::{
    ascii_lowercase, contains, occurs, optional_text, same_text, starts_with, to_ascii_lowercase,
};
use vstd::prelude::*;

verus! {

/// The section flag of ELF for writable data.
pub const SHF_WRITE: u64 = 1;

/// The section flag of ELF for sections that take memory when the program runs.
pub const SHF_ALLOC: u64 = 2;

/// The section flag of ELF for machine code.
pub const SHF_EXECINSTR: u64 = 4;

/// The flags in a section header.
#[derive(Clone, Copy, Debug, PartialEq, Eq, Structural)]
pub enum SectionFlags {
    /// The `sh_flags` field of an ELF section header.
    Elf { sh_flags: u64 },
    /// The flags of another file format, or none.
    Other,
}

/// The kinds of section that the analysis tells apart.
#[derive(Clone, Copy, Debug, PartialEq, Eq, Structural)]
pub enum SectionKind {
    Text,
    Data,
    ReadOnlyData,
    ReadOnlyString,
    UninitializedData,
    Common,
    Tls,
    UninitializedTls,
    /// Any other kind.
    Other,
}

/// The kind of section that goes by this name.
pub open spec fn section_kind_named(name: Seq<char>) -> SectionKind {
    if name == "Text"@ {
        SectionKind::Text
    } else if name == "Data"@ {
        SectionKind::Data
    } else if name == "ReadOnlyData"@ {
        SectionKind::ReadOnlyData
    } else if name == "ReadOnlyString"@ {
        SectionKind::ReadOnlyString
    } else if name == "UninitializedData"@ {
        SectionKind::UninitializedData
    } else if name == "Common"@ {
        SectionKind::Common
    } else if name == "Tls"@ {
        SectionKind::Tls
    } else if name == "UninitializedTls"@ {
        SectionKind::UninitializedTls
    } else {
        SectionKind::Other
    }
}

impl SectionKind {
    /// The kind of section that goes by this name.
    pub fn from_name(name: &str) -> (kind: SectionKind)
        ensures
            kind == section_kind_named(name@),
    {
        if same_text(name, "Text") {
            SectionKind::Text
        } else if same_text(name, "Data") {
            SectionKind::Data
        } else if same_text(name, "ReadOnlyData") {
            SectionKind::ReadOnlyData
        } else if same_text(name, "ReadOnlyString") {
            SectionKind::ReadOnlyString
        } else if same_text(name, "UninitializedData") {
            SectionKind::UninitializedData
        } else if same_text(name, "Common") {
            SectionKind::Common
        } else if same_text(name, "Tls") {
            SectionKind::Tls
        } else if same_text(name, "UninitializedTls") {
            SectionKind::UninitializedTls
        } else {
            SectionKind::Other
        }
    }

    /// Whether a section of this kind has no stored contents.
    pub open spec fn zero_filled(self) -> bool {
        ||| self == SectionKind::UninitializedData
        ||| self == SectionKind::UninitializedTls
        ||| self == SectionKind::Common
    }

    /// Whether a section of this kind has no stored contents.
    pub fn is_bss(self) -> (zero_filled: bool)
        ensures
            zero_filled == self.zero_filled(),
    {
        matches!(
            self,
            SectionKind::UninitializedData | SectionKind::UninitializedTls | SectionKind::Common
        )
    }
}

/// A section of an object file.
#[derive(Clone, Debug)]
pub struct SectionEntry {
    /// The number by which symbols refer to the section.
    pub index: usize,
    /// The name, where the file gives it as UTF-8 text.
    pub name: Option<String>,
    pub address: u64,
    pub size: u64,
    /// The name of the section's kind.
    pub kind: String,
    pub flags: SectionFlags,
}

/// What a [`SectionEntry`] holds.
pub struct SectionEntryView {
    pub index: usize,
    pub name: Option<Seq<char>>,
    pub address: u64,
    pub size: u64,
    pub kind: Seq<char>,
    pub flags: SectionFlags,
}

impl View for SectionEntry {
    type V = SectionEntryView;

    open spec fn view(&self) -> SectionEntryView {
        SectionEntryView {
            index: self.index,
            name: optional_text(self.name),
            address: self.address,
            size: self.size,
            kind: self.kind@,
            flags: self.flags,
        }
    }
}

/// A section that takes memory, as the report shows it.
#[derive(Clone, Debug)]
pub struct SectionReport {
    pub name: String,
    pub address: u64,
    pub size: u64,
    pub memory: MemoryKind,
    pub kind: String,
}

/// What a [`SectionReport`] holds.
pub struct SectionReportView {
    pub name: Seq<char>,
    pub address: u64,
    pub size: u64,
    pub memory: MemoryKind,
    pub kind: Seq<char>,
}

impl View for SectionReport {
    type V = SectionReportView;

    open spec fn view(&self) -> SectionReportView {
        SectionReportView {
            name: self.name@,
            address: self.address,
            size: self.size,
            memory: self.memory,
            kind: self.kind@,
        }
    }
}

/// Whether the flags are those of an ELF section with `flag` set.
pub open spec fn elf_flag_set(flags: SectionFlags, flag: u64) -> bool {
    match flags {
        SectionFlags::Elf { sh_flags } => sh_flags & flag != 0,
        SectionFlags::Other => false,
    }
}

/// Whether a section takes memory when the program runs: an ELF section says so by a flag,
/// and of other formats the kind decides.
pub open spec fn allocated(flags: SectionFlags, kind: SectionKind) -> bool {
    match flags {
        SectionFlags::Elf { sh_flags } => sh_flags & SHF_ALLOC != 0,
        SectionFlags::Other => kind != SectionKind::Other,
    }
}

/// The kind of memory that a section takes.
pub open spec fn memory_kind(
    name: Seq<char>,
    kind: SectionKind,
    executable: bool,
    writable: bool,
) -> MemoryKind {
    let lower = ascii_lowercase(name);
    if executable || kind == SectionKind::Text {
        MemoryKind::Text
    } else if kind.zero_filled() || lower == ".bss"@ || ".bss."@.is_prefix_of(lower) || occurs(
        lower,
        "stack"@,
    ) || lower == ".noinit"@ {
        MemoryKind::Bss
    } else if writable || kind == SectionKind::Data || kind == SectionKind::Tls || lower
        == ".data"@ || ".data."@.is_prefix_of(lower) || lower == ".relocate"@ {
        MemoryKind::Data
    } else {
        MemoryKind::Text
    }
}

/// Whether a section takes memory when the program runs.
pub fn is_allocated(flags: SectionFlags, kind: SectionKind) -> (result: bool)
    ensures
        result == allocated(flags, kind),
{
    match flags {
        SectionFlags::Elf { sh_flags } => sh_flags & SHF_ALLOC != 0,
        SectionFlags::Other => matches!(
            kind,
            SectionKind::Text
                | SectionKind::Data
                | SectionKind::ReadOnlyData
                | SectionKind::ReadOnlyString
                | SectionKind::UninitializedData
                | SectionKind::Common
                | SectionKind::Tls
                | SectionKind::UninitializedTls
        ),
    }
}

/// Whether the flags are those of an ELF section with `flag` set.
pub fn has_elf_flag(flags: SectionFlags, flag: u64) -> (set: bool)
    ensures
        set == elf_flag_set(flags, flag),
{
    match flags {
        SectionFlags::Elf { sh_flags } => sh_flags & flag != 0,
        SectionFlags::Other => false,
    }
}

/// The kind of memory that a section takes.
pub fn classify_section(
    name: &str,
    kind: SectionKind,
    executable: bool,
    writable: bool,
) -> (memory: MemoryKind)
    ensures
        memory == memory_kind(name@, kind, executable, writable),
{
    let lower = to_ascii_lowercase(name);
    if executable || kind == SectionKind::Text {
        MemoryKind::Text
    } else if kind.is_bss() || same_text(lower.as_str(), ".bss") || starts_with(
        lower.as_str(),
        ".bss.",
    ) || contains(lower.as_str(), "stack") || same_text(lower.as_str(), ".noinit") {
        MemoryKind::Bss
    } else if writable || matches!(kind, SectionKind::Data | SectionKind::Tls) || same_text(
        lower.as_str(),
        ".data",
    ) || starts_with(lower.as_str(), ".data.") || same_text(lower.as_str(), ".relocate") {
        MemoryKind::Data
    } else {
        MemoryKind::Text
    }
}

/// Whether the report shows a section: it takes memory, and more than none.
pub open spec fn is_reported(entry: SectionEntryView) -> bool {
    allocated(entry.flags, section_kind_named(entry.kind)) && entry.size != 0
}

/// A section as the report shows it.
pub open spec fn section_report(entry: SectionEntryView) -> SectionReportView {
    let name = match entry.name {
        Some(name) => name,
        None => "<unnamed>"@,
    };
    SectionReportView {
        name,
        address: entry.address,
        size: entry.size,
        memory: memory_kind(
            name,
            section_kind_named(entry.kind),
            elf_flag_set(entry.flags, SHF_EXECINSTR),
            elf_flag_set(entry.flags, SHF_WRITE),
        ),
        kind: entry.kind,
    }
}

/// A section that takes memory, with the number by which symbols refer to it.
#[derive(Clone, Debug)]
pub struct MemorySection {
    pub index: usize,
    pub report: SectionReport,
}

/// What a [`MemorySection`] holds.
pub struct MemorySectionView {
    pub index: usize,
    pub report: SectionReportView,
}

impl View for MemorySection {
    type V = MemorySectionView;

    open spec fn view(&self) -> MemorySectionView {
        MemorySectionView { index: self.index, report: self.report@ }
    }
}

/// The section as the report shows it, if it does.
pub open spec fn memory_section(entry: SectionEntryView) -> Option<MemorySectionView> {
    if is_reported(entry) {
        Some(MemorySectionView { index: entry.index, report: section_report(entry) })
    } else {
        None
    }
}

/// The sections that take memory, in the order of the file.
pub open spec fn memory_sections(entries: Seq<SectionEntryView>) -> Seq<MemorySectionView> {
    entries.filter_map(|entry: SectionEntryView| memory_section(entry))
}

/// The sections that take memory, in the order of the file.
pub fn collect_sections(entries: &[SectionEntry]) -> (sections: Vec<MemorySection>)
    ensures
        sections@.map_values(|section: MemorySection| section@) == memory_sections(
            entries@.map_values(|entry: SectionEntry| entry@),
        ),
{
    let ghost all = entries@.map_values(|entry: SectionEntry| entry@);
    let mut sections: Vec<MemorySection> = Vec::new();
    for i in 0..entries.len()
        invariant
            all == entries@.map_values(|entry: SectionEntry| entry@),
            sections@.map_values(|section: MemorySection| section@) == memory_sections(
                all.take(i as int),
            ),
    {
        let ghost before = sections@;
        proof {
            assert(all.take(i + 1).drop_last() =~= all.take(i as int));
            assert(all.take(i + 1).last() == entries[i as int]@);
        }
        let entry = &entries[i];
        let kind = SectionKind::from_name(entry.kind.as_str());
        if is_allocated(entry.flags, kind) && entry.size != 0 {
            let name = match &entry.name {
                Some(name) => name.clone(),
                None => "<unnamed>".to_string(),
            };
            let memory = classify_section(
                name.as_str(),
                kind,
                has_elf_flag(entry.flags, SHF_EXECINSTR),
                has_elf_flag(entry.flags, SHF_WRITE),
            );
            sections.push(
                MemorySection {
                    index: entry.index,
                    report: SectionReport {
                        name,
                        address: entry.address,
                        size: entry.size,
                        memory,
                        kind: entry.kind.clone(),
                    },
                },
            );
            assert(sections@.map_values(|section: MemorySection| section@) =~= before.map_values(
                |section: MemorySection| section@,
            ) + seq![sections@.last()@]);
        }
    }
    assert(all.take(all.len() as int) =~= all);
    sections
}

/// The bytes that the sections of one kind take together.
pub open spec fn section_bytes(sections: Seq<MemorySectionView>, kind: MemoryKind) -> int
    decreases sections.len(),
{
    if sections.len() == 0 {
        0
    } else {
        section_bytes(sections.drop_last(), kind) + if sections.last().report.memory == kind {
            sections.last().report.size as int
        } else {
            0
        }
    }
}

/// Whether the totals of these sections stay in the range of a `u64`.
pub open spec fn totals_fit(sections: Seq<MemorySectionView>) -> bool {
    let text = section_bytes(sections, MemoryKind::Text);
    let data = section_bytes(sections, MemoryKind::Data);
    let bss = section_bytes(sections, MemoryKind::Bss);
    text + data <= u64::MAX && data + bss <= u64::MAX
}

/// Whether `totals` counts each kind of memory that these sections take.
pub open spec fn are_totals_of(totals: MemoryTotals, sections: Seq<MemorySectionView>) -> bool {
    &&& totals.well_formed()
    &&& totals.text == section_bytes(sections, MemoryKind::Text)
    &&& totals.data == section_bytes(sections, MemoryKind::Data)
    &&& totals.bss == section_bytes(sections, MemoryKind::Bss)
}

/// Fewer sections do not take more bytes.
proof fn lemma_section_bytes_grow(sections: Seq<MemorySectionView>, count: int, kind: MemoryKind)
    requires
        0 <= count <= sections.len(),
    ensures
        0 <= section_bytes(sections.take(count), kind) <= section_bytes(sections, kind),
    decreases sections.len(),
{
    if count < sections.len() {
        lemma_section_bytes_grow(sections.drop_last(), count, kind);
        assert(sections.drop_last().take(count) =~= sections.take(count));
    } else {
        assert(sections.take(count) =~= sections);
        if sections.len() > 0 {
            lemma_section_bytes_grow(sections.drop_last(), count - 1, kind);
            assert(sections.drop_last().take(count - 1) =~= sections.drop_last());
        }
    }
}

/// The totals of these sections, where they stay in the range of a `u64`.
pub fn section_totals(sections: &[MemorySection]) -> (totals: Option<MemoryTotals>)
    ensures
        match totals {
            Some(totals) => {
                &&& totals_fit(sections@.map_values(|section: MemorySection| section@))
                &&& are_totals_of(
                    totals,
                    sections@.map_values(|section: MemorySection| section@),
                )
            },
            None => !totals_fit(sections@.map_values(|section: MemorySection| section@)),
        },
{
    let ghost all = sections@.map_values(|section: MemorySection| section@);
    let mut totals = MemoryTotals::default();
    for i in 0..sections.len()
        invariant
            all == sections@.map_values(|section: MemorySection| section@),
            are_totals_of(totals, all.take(i as int)),
    {
        let report = &sections[i].report;
        proof {
            assert(all.take(i + 1).drop_last() =~= all.take(i as int));
            assert(all.take(i + 1).last() == sections[i as int]@);
        }
        if !totals.has_room_for(report.memory, report.size) {
            proof {
                lemma_section_bytes_grow(all, i + 1, MemoryKind::Text);
                lemma_section_bytes_grow(all, i + 1, MemoryKind::Data);
                lemma_section_bytes_grow(all, i + 1, MemoryKind::Bss);
            }
            return None;
        }
        totals.add(report.memory, report.size);
    }
    assert(all.take(all.len() as int) =~= all);
    Some(totals)
}

/// The address of a section, by which the report sorts sections.
pub struct SectionAddress {
    pub address: u64,
}

impl View for SectionAddress {
    type V = SectionAddress;

    open spec fn view(&self) -> SectionAddress {
        *self
    }
}

impl SortKey for SectionAddress {
    open spec fn at_most(left: Self, right: Self) -> bool {
        left.address <= right.address
    }

    proof fn lemma_total(left: Self, right: Self) {
    }

    proof fn lemma_transitive(low: Self, middle: Self, high: Self) {
    }

    fn is_at_most(&self, other: &Self) -> (below: bool) {
        self.address <= other.address
    }
}

} // verus!
