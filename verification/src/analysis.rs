//! The analysis of an ELF file.

use crate::crate_name::{infer_crate_name, inferred_crate};
use crate::layout::{
    lay_out, lemma_placed_spans_are_in_range, placed_spans, PlacedSpan, PlacedSpanView,
};
use crate::location::{
    location_at, lookup_views, source_location, LookupError, SourceLocation, SourceLocationView,
};
use crate::memory::{MemoryAddress, MemoryKind, MemoryTotals};
use crate::object_file::{
    architecture_of, dynamic_symbols_of, has_elf_magic, has_little_endian_encoding, parse_error,
    sections_of, symbols_of, ObjectFile,
};
use crate::order::{
    arrange, arranged, key_views, lemma_stable_order_has_no_duplicates, positions, sorting_order,
    stable_order,
};
use crate::section::{
    are_totals_of, collect_sections, memory_sections, section_totals, totals_fit, MemorySection,
    MemorySectionView, SectionAddress, SectionEntry, SectionEntryView, SectionReport,
    SectionReportView,
};
use crate::source_path::{normalize_source_path, normalized};
use crate::symbol::{collect_symbols, raw_symbols, RawSymbolView, SymbolEntry, SymbolEntryView};
use crate::text::{optional_text, same_text, texts};
use vstd::prelude::*;

verus! {

/// What an analysis is asked to do.
#[derive(Clone, Debug)]
pub struct AnalysisOptions {
    /// Resolve symbol addresses through DWARF line information.
    pub resolve_source: bool,
    /// Prefixes removed from source paths before grouping.
    pub strip_prefixes: Vec<String>,
    /// Optional display name. Defaults to the ELF file name.
    pub display_name: Option<String>,
}

impl Default for AnalysisOptions {
    /// Resolve sources, strip nothing, and show the name of the file.
    fn default() -> (options: Self)
        ensures
            options.resolve_source,
            options.strip_prefixes@ == Seq::<String>::empty(),
            options.display_name is None,
    {
        AnalysisOptions { resolve_source: true, strip_prefixes: Vec::new(), display_name: None }
    }
}

/// Bytes of a section that belong to a symbol, or to none, as the report shows them.
#[derive(Clone, Debug)]
pub struct SymbolReport {
    pub name: String,
    pub address: u64,
    pub size: u64,
    pub memory: MemoryKind,
    pub section: String,
    pub path: Vec<String>,
    /// Best-effort Rust crate attribution from DWARF paths or demangled symbols.
    pub crate_name: Option<String>,
    pub source: Option<String>,
    pub line: Option<u32>,
    /// Whether no symbol owns the bytes.
    pub synthetic: bool,
}

/// What a [`SymbolReport`] holds.
pub struct SymbolReportView {
    pub name: Seq<char>,
    pub address: u64,
    pub size: u64,
    pub memory: MemoryKind,
    pub section: Seq<char>,
    pub path: Seq<Seq<char>>,
    pub crate_name: Option<Seq<char>>,
    pub source: Option<Seq<char>>,
    pub line: Option<u32>,
    pub synthetic: bool,
}

impl View for SymbolReport {
    type V = SymbolReportView;

    open spec fn view(&self) -> SymbolReportView {
        SymbolReportView {
            name: self.name@,
            address: self.address,
            size: self.size,
            memory: self.memory,
            section: self.section@,
            path: texts(self.path@),
            crate_name: optional_text(self.crate_name),
            source: optional_text(self.source),
            line: self.line,
            synthetic: self.synthetic,
        }
    }
}

/// The analysis of an ELF file.
#[derive(Clone, Debug)]
pub struct Analysis {
    pub name: String,
    pub file: String,
    pub file_size: u64,
    pub architecture: String,
    pub endian: String,
    pub totals: MemoryTotals,
    pub sections: Vec<SectionReport>,
    pub symbols: Vec<SymbolReport>,
}

/// What an [`Analysis`] holds.
pub struct AnalysisView {
    pub name: Seq<char>,
    pub file: Seq<char>,
    pub file_size: u64,
    pub architecture: Seq<char>,
    pub endian: Seq<char>,
    pub totals: MemoryTotals,
    pub sections: Seq<SectionReportView>,
    pub symbols: Seq<SymbolReportView>,
}

impl View for Analysis {
    type V = AnalysisView;

    open spec fn view(&self) -> AnalysisView {
        AnalysisView {
            name: self.name@,
            file: self.file@,
            file_size: self.file_size,
            architecture: self.architecture@,
            endian: self.endian@,
            totals: self.totals,
            sections: self.sections@.map_values(|section: SectionReport| section@),
            symbols: self.symbols@.map_values(|symbol: SymbolReport| symbol@),
        }
    }
}

/// The report entry for bytes that no symbol owns.
pub open spec fn synthetic_report(
    section: Seq<char>,
    memory: MemoryKind,
    address: u64,
    size: u64,
) -> SymbolReportView {
    SymbolReportView {
        name: "<unattributed>"@,
        address,
        size,
        memory,
        section,
        path: seq!["[sections]"@, section],
        crate_name: None,
        source: None,
        line: None,
        synthetic: true,
    }
}

/// The path under which the report groups a symbol: that of its source file, or else its
/// section.
pub open spec fn grouped_path(
    section: Seq<char>,
    source: Option<Seq<char>>,
    strip_prefixes: Seq<Seq<char>>,
) -> Seq<Seq<char>> {
    match source {
        Some(source) => normalized(source, strip_prefixes),
        None => seq!["[sections]"@, section],
    }
}

/// The report entry for a span, given where its code comes from.
pub open spec fn span_report(
    span: PlacedSpanView,
    location: SourceLocationView,
    strip_prefixes: Seq<Seq<char>>,
) -> SymbolReportView {
    let address = span.span.start as u64;
    let size = (span.span.stop - span.span.start) as u64;
    match span.span.name {
        None => synthetic_report(span.section, span.memory, address, size),
        Some(name) => {
            let path = grouped_path(span.section, location.file, strip_prefixes);
            SymbolReportView {
                name,
                address,
                size,
                memory: span.memory,
                section: span.section,
                path,
                crate_name: inferred_crate(name, path),
                source: location.file,
                line: location.line,
                synthetic: false,
            }
        },
    }
}

/// The addresses at which the spans of symbols start.
pub open spec fn named_starts(spans: Seq<PlacedSpanView>) -> Seq<u64> {
    spans.filter_map(
        |span: PlacedSpanView|
            if span.span.name is Some {
                Some(span.span.start as u64)
            } else {
                None
            },
    )
}

/// The report entry for the span with this number. The replies are those for the spans of
/// symbols, in their order.
pub open spec fn numbered_report(
    spans: Seq<PlacedSpanView>,
    at: int,
    replies: Seq<Result<Option<SourceLocationView>, LookupError>>,
    strip_prefixes: Seq<Seq<char>>,
) -> SymbolReportView {
    let reply = named_starts(spans.take(at)).len() as int;
    span_report(spans[at], location_at(replies, reply), strip_prefixes)
}

/// The report entries for the spans, one for one.
pub open spec fn span_reports(
    spans: Seq<PlacedSpanView>,
    replies: Seq<Result<Option<SourceLocationView>, LookupError>>,
    strip_prefixes: Seq<Seq<char>>,
) -> Seq<SymbolReportView> {
    Seq::new(spans.len(), |at: int| numbered_report(spans, at, replies, strip_prefixes))
}

/// Appends the entry for bytes that no symbol owns, if there are any.
pub fn push_synthetic(
    symbols: &mut Vec<SymbolReport>,
    section: &str,
    memory: MemoryKind,
    address: u64,
    size: u64,
)
    ensures
        size == 0 ==> final(symbols)@ == old(symbols)@,
        size != 0 ==> {
            &&& final(symbols)@.len() == old(symbols)@.len() + 1
            &&& final(symbols)@.drop_last() == old(symbols)@
            &&& final(symbols)@.last()@ == synthetic_report(section@, memory, address, size)
        },
{
    if size == 0 {
        return;
    }
    let path = section_path(section);
    symbols.push(
        SymbolReport {
            name: "<unattributed>".to_string(),
            address,
            size,
            memory,
            section: section.to_string(),
            path,
            crate_name: None,
            source: None,
            line: None,
            synthetic: true,
        },
    );
    assert(symbols@.drop_last() =~= old(symbols)@);
}

/// The path under which the report groups what has no source file.
fn section_path(section: &str) -> (path: Vec<String>)
    ensures
        texts(path@) == seq!["[sections]"@, section@],
{
    let mut path: Vec<String> = Vec::new();
    path.push("[sections]".to_string());
    path.push(section.to_string());
    assert(texts(path@) =~= seq!["[sections]"@, section@]);
    path
}

/// The report entry for the bytes of a symbol, given where its code comes from.
pub fn report_symbol(
    name: &str,
    section: &str,
    memory: MemoryKind,
    address: u64,
    size: u64,
    location: SourceLocation,
    strip_prefixes: &[String],
) -> (report: SymbolReport)
    ensures
        report@ == (SymbolReportView {
            name: name@,
            address,
            size,
            memory,
            section: section@,
            path: grouped_path(section@, location@.file, texts(strip_prefixes@)),
            crate_name: inferred_crate(
                name@,
                grouped_path(section@, location@.file, texts(strip_prefixes@)),
            ),
            source: location@.file,
            line: location@.line,
            synthetic: false,
        }),
{
    let path = match &location.file {
        Some(source) => normalize_source_path(source.as_str(), strip_prefixes),
        None => section_path(section),
    };
    let crate_name = infer_crate_name(name, path.as_slice());
    SymbolReport {
        name: name.to_string(),
        address,
        size,
        memory,
        section: section.to_string(),
        path,
        crate_name,
        source: location.file,
        line: location.line,
        synthetic: false,
    }
}

/// The report entries for spans that are not empty.
fn report_spans(
    spans: &[PlacedSpan],
    replies: &[Result<Option<SourceLocation>, LookupError>],
    strip_prefixes: &[String],
) -> (reports: Vec<SymbolReport>)
    requires
        forall|i: int| 0 <= i < spans.len() ==> (#[trigger] spans[i]).span.size > 0,
    ensures
        reports@.map_values(|report: SymbolReport| report@) == span_reports(
            spans@.map_values(|span: PlacedSpan| span@),
            lookup_views(replies@),
            texts(strip_prefixes@),
        ),
{
    let ghost prefixes = texts(strip_prefixes@);
    let ghost all = spans@.map_values(|span: PlacedSpan| span@);
    let ghost expected = span_reports(all, lookup_views(replies@), prefixes);
    let mut reports: Vec<SymbolReport> = Vec::new();
    let mut named: usize = 0;
    for i in 0..spans.len()
        invariant
            forall|j: int| 0 <= j < spans.len() ==> (#[trigger] spans[j]).span.size > 0,
            all == spans@.map_values(|span: PlacedSpan| span@),
            prefixes == texts(strip_prefixes@),
            expected == span_reports(all, lookup_views(replies@), prefixes),
            named <= i,
            named == named_starts(all.take(i as int)).len(),
            reports@.map_values(|report: SymbolReport| report@) == expected.take(i as int),
    {
        let placed = &spans[i];
        let ghost before = reports@;
        proof {
            assert(all[i as int] == placed@);
            assert(all.take(i + 1).drop_last() =~= all.take(i as int));
            assert(all.take(i + 1).last() == placed@);
        }
        match &placed.span.name {
            None => push_synthetic(
                &mut reports,
                placed.section.as_str(),
                placed.memory,
                placed.span.address,
                placed.span.size,
            ),
            Some(name) => {
                let location = source_location(replies, named);
                reports.push(
                    report_symbol(
                        name.as_str(),
                        placed.section.as_str(),
                        placed.memory,
                        placed.span.address,
                        placed.span.size,
                        location,
                        strip_prefixes,
                    ),
                );
                named = named + 1;
            },
        }
        proof {
            assert(reports@.drop_last() =~= before);
            assert(reports@.last()@ == expected[i as int]);
            assert(reports@.map_values(|report: SymbolReport| report@) =~= before.map_values(
                |report: SymbolReport| report@,
            ).push(expected[i as int]));
            assert(expected.take(i + 1) =~= expected.take(i as int).push(expected[i as int]));
        }
    }
    assert(expected.take(expected.len() as int) =~= expected);
    reports
}

/// What an object file holds, as far as the analysis goes.
#[derive(Clone, Debug)]
pub struct ElfImage {
    /// The name of the architecture.
    pub architecture: String,
    pub little_endian: bool,
    pub sections: Vec<SectionEntry>,
    pub symbols: Vec<SymbolEntry>,
    pub dynamic_symbols: Vec<SymbolEntry>,
}

/// What an [`ElfImage`] holds.
pub struct ElfImageView {
    pub architecture: Seq<char>,
    pub little_endian: bool,
    pub sections: Seq<SectionEntryView>,
    pub symbols: Seq<SymbolEntryView>,
    pub dynamic_symbols: Seq<SymbolEntryView>,
}

impl View for ElfImage {
    type V = ElfImageView;

    open spec fn view(&self) -> ElfImageView {
        ElfImageView {
            architecture: self.architecture@,
            little_endian: self.little_endian,
            sections: self.sections@.map_values(|entry: SectionEntry| entry@),
            symbols: self.symbols@.map_values(|entry: SymbolEntry| entry@),
            dynamic_symbols: self.dynamic_symbols@.map_values(|entry: SymbolEntry| entry@),
        }
    }
}

impl ElfImageView {
    /// The sections that take memory.
    pub open spec fn memory_sections(self) -> Seq<MemorySectionView> {
        memory_sections(self.sections)
    }

    /// The symbols that can own bytes. Addresses of code for Arm carry the Thumb bit.
    pub open spec fn raw_symbols(self) -> Seq<RawSymbolView> {
        raw_symbols(
            self.symbols + self.dynamic_symbols,
            self.memory_sections(),
            self.architecture == "Arm"@,
        )
    }

    /// The spans of all sections.
    pub open spec fn spans(self) -> Seq<PlacedSpanView> {
        placed_spans(self.memory_sections(), self.raw_symbols())
    }
}

/// What the caller says of the file that is analyzed.
#[derive(Clone, Debug)]
pub struct InputFile {
    /// The path, for display.
    pub path: String,
    /// The last component of the path, where it is UTF-8 text.
    pub name: Option<String>,
}

/// The name that the report shows.
pub open spec fn report_name(
    display_name: Option<Seq<char>>,
    file_name: Option<Seq<char>>,
) -> Seq<char> {
    match display_name {
        Some(name) => name,
        None => match file_name {
            Some(name) => name,
            None => "ELF report"@,
        },
    }
}

/// By what the report sorts sections.
pub open spec fn section_keys(sections: Seq<MemorySectionView>) -> Seq<SectionAddress> {
    sections.map_values(
        |section: MemorySectionView| SectionAddress { address: section.report.address },
    )
}

/// The sections as the report shows them: sorted by address, sections at one address in the
/// order of the file.
pub open spec fn sorted_sections(sections: Seq<MemorySectionView>) -> Seq<SectionReportView> {
    arranged(sections, sorting_order::<SectionAddress>(section_keys(sections))).map_values(
        |section: MemorySectionView| section.report,
    )
}

/// By what the report sorts spans.
pub open spec fn span_keys(spans: Seq<PlacedSpanView>) -> Seq<MemoryAddress> {
    spans.map_values(
        |span: PlacedSpanView|
            MemoryAddress { memory: span.memory, address: span.span.start as u64 },
    )
}

/// The spans as the report shows them: sorted by the name of the kind of memory and then by
/// address, spans at one address section by section.
pub open spec fn sorted_spans(spans: Seq<PlacedSpanView>) -> Seq<PlacedSpanView> {
    arranged(spans, sorting_order::<MemoryAddress>(span_keys(spans)))
}

/// Whether this is the analysis of the image. The replies are those to the lookups of the
/// addresses at which the spans of symbols start, in the order of the report; they count where
/// sources are to be resolved.
pub open spec fn is_analysis_of(
    analysis: AnalysisView,
    image: ElfImageView,
    file_size: u64,
    input: InputFile,
    replies: Seq<Result<Option<SourceLocationView>, LookupError>>,
    options: AnalysisOptions,
) -> bool {
    &&& analysis.name == report_name(optional_text(options.display_name), optional_text(input.name))
    &&& analysis.file == input.path@
    &&& analysis.file_size == file_size
    &&& analysis.architecture == image.architecture
    &&& analysis.endian == if image.little_endian {
        "little"@
    } else {
        "big"@
    }
    &&& are_totals_of(analysis.totals, image.memory_sections())
    &&& analysis.sections == sorted_sections(image.memory_sections())
    &&& analysis.symbols == span_reports(
        sorted_spans(image.spans()),
        if options.resolve_source {
            replies
        } else {
            Seq::<Result<Option<SourceLocationView>, LookupError>>::empty()
        },
        texts(options.strip_prefixes@),
    )
}

/// The spans sorted as the report shows them.
fn sort_spans(spans: Vec<PlacedSpan>) -> (sorted: Vec<PlacedSpan>)
    ensures
        sorted@.map_values(|span: PlacedSpan| span@) == sorted_spans(
            spans@.map_values(|span: PlacedSpan| span@),
        ),
        forall|i: int| 0 <= i < sorted.len() ==> spans@.contains(#[trigger] sorted@[i]),
{
    let ghost all = spans@.map_values(|span: PlacedSpan| span@);
    let mut keys: Vec<MemoryAddress> = Vec::new();
    for i in 0..spans.len()
        invariant
            all == spans@.map_values(|span: PlacedSpan| span@),
            keys@ == span_keys(all).take(i as int),
    {
        assert(all[i as int] == spans[i as int]@);
        keys.push(MemoryAddress { memory: spans[i].memory, address: spans[i].span.address });
        assert(keys@ =~= span_keys(all).take(i + 1));
    }
    assert(keys@ =~= span_keys(all));
    assert(key_views(keys@) =~= keys@);
    let order = stable_order(keys.as_slice());
    proof {
        lemma_stable_order_has_no_duplicates::<MemoryAddress>(keys@, positions(order@));
    }
    let sorted = arrange(spans, order.as_slice());
    proof {
        assert(sorted@.map_values(|span: PlacedSpan| span@) =~= arranged(all, positions(order@)));
    }
    sorted
}

/// The sections sorted as the report shows them.
fn sort_sections(sections: Vec<MemorySection>) -> (reports: Vec<SectionReport>)
    ensures
        reports@.map_values(|report: SectionReport| report@) == sorted_sections(
            sections@.map_values(|section: MemorySection| section@),
        ),
{
    let ghost all = sections@.map_values(|section: MemorySection| section@);
    let mut keys: Vec<SectionAddress> = Vec::new();
    for i in 0..sections.len()
        invariant
            all == sections@.map_values(|section: MemorySection| section@),
            keys@ == section_keys(all).take(i as int),
    {
        assert(all[i as int] == sections[i as int]@);
        keys.push(SectionAddress { address: sections[i].report.address });
        assert(keys@ =~= section_keys(all).take(i + 1));
    }
    assert(keys@ =~= section_keys(all));
    assert(key_views(keys@) =~= keys@);
    let order = stable_order(keys.as_slice());
    proof {
        lemma_stable_order_has_no_duplicates::<SectionAddress>(keys@, positions(order@));
    }
    let sorted = arrange(sections, order.as_slice());
    let ghost sorted_views = sorted@.map_values(|section: MemorySection| section@);
    assert(sorted_views =~= arranged(all, positions(order@)));
    let ghost expected = sorted_sections(all);
    let mut reports: Vec<SectionReport> = Vec::new();
    for section in it: sorted
        invariant
            it.seq().map_values(|section: MemorySection| section@) == sorted_views,
            expected == sorted_views.map_values(|section: MemorySectionView| section.report),
            reports@.map_values(|report: SectionReport| report@) == expected.take(it.index()),
    {
        let ghost before = reports@.map_values(|report: SectionReport| report@);
        assert(sorted_views[it.index()] == it.seq()[it.index()]@);
        reports.push(section.report);
        assert(reports@.map_values(|report: SectionReport| report@) =~= before.push(
            expected[it.index()],
        ));
        assert(expected.take(it.index() + 1) =~= before.push(expected[it.index()]));
    }
    assert(expected.take(expected.len() as int) =~= expected);
    reports
}

/// The name that the report shows.
fn choose_name(display_name: &Option<String>, file_name: &Option<String>) -> (name: String)
    ensures
        name@ == report_name(optional_text(*display_name), optional_text(*file_name)),
{
    match display_name {
        Some(name) => name.clone(),
        None => match file_name {
            Some(name) => name.clone(),
            None => "ELF report".to_string(),
        },
    }
}

/// The sections that take memory, and the sorted spans of the image.
fn place_image(image: &ElfImage) -> (placed: (Vec<MemorySection>, Vec<PlacedSpan>))
    ensures
        placed.0@.map_values(|section: MemorySection| section@) == image@.memory_sections(),
        placed.1@.map_values(|span: PlacedSpan| span@) == sorted_spans(image@.spans()),
        forall|i: int|
            0 <= i < placed.1.len() ==> 0 < (#[trigger] placed.1[i]).span.size <= u64::MAX
                - placed.1[i].span.address,
{
    let clear_thumb_bit = same_text(image.architecture.as_str(), "Arm");
    let sections = collect_sections(image.sections.as_slice());
    let symbols = collect_symbols(
        image.symbols.as_slice(),
        image.dynamic_symbols.as_slice(),
        sections.as_slice(),
        clear_thumb_bit,
    );
    let spans = lay_out(sections.as_slice(), symbols);
    proof {
        lemma_placed_spans_are_in_range(image@.memory_sections(), image@.raw_symbols());
        let views = spans@.map_values(|span: PlacedSpan| span@);
        assert(views == image@.spans());
        assert forall|i: int| 0 <= i < spans.len() implies 0 < (#[trigger] spans@[i]).span.size
            <= u64::MAX - spans@[i].span.address by {
            assert(views[i] == spans@[i]@);
        }
    }
    (sections, sort_spans(spans))
}

/// The addresses to look up in the debug information: where the spans of symbols start, in the
/// order of the report. An address follows each of them.
pub fn lookup_addresses(image: &ElfImage) -> (addresses: Vec<u64>)
    ensures
        addresses@ == named_starts(sorted_spans(image@.spans())),
        forall|i: int| 0 <= i < addresses.len() ==> #[trigger] addresses[i] < u64::MAX,
{
    let (_, spans) = place_image(image);
    let ghost all = spans@.map_values(|span: PlacedSpan| span@);
    let mut addresses: Vec<u64> = Vec::new();
    for i in 0..spans.len()
        invariant
            all == spans@.map_values(|span: PlacedSpan| span@),
            forall|j: int|
                0 <= j < spans.len() ==> 0 < (#[trigger] spans[j]).span.size <= u64::MAX
                    - spans[j].span.address,
            addresses@ == named_starts(all.take(i as int)),
            forall|j: int| 0 <= j < addresses.len() ==> #[trigger] addresses[j] < u64::MAX,
    {
        proof {
            assert(all.take(i + 1).drop_last() =~= all.take(i as int));
            assert(all.take(i + 1).last() == spans[i as int]@);
        }
        if spans[i].span.name.is_some() {
            addresses.push(spans[i].span.address);
        }
    }
    assert(all.take(all.len() as int) =~= all);
    addresses
}

/// Analyzes an image. Allocated section bytes are fully accounted for: gaps, alignment, and
/// stripped symbols become synthetic `<unattributed>` entries.
pub fn analyze_image(
    image: &ElfImage,
    file_size: u64,
    input: &InputFile,
    replies: &[Result<Option<SourceLocation>, LookupError>],
    options: &AnalysisOptions,
) -> (analysis: Analysis)
    requires
        totals_fit(image@.memory_sections()),
    ensures
        is_analysis_of(analysis@, image@, file_size, *input, lookup_views(replies@), *options),
{
    let none: Vec<Result<Option<SourceLocation>, LookupError>> = Vec::new();
    assert(lookup_views(none@) =~= Seq::empty());
    let used_replies = if options.resolve_source {
        replies
    } else {
        none.as_slice()
    };
    let (sections, spans) = place_image(image);
    let totals = section_totals(sections.as_slice()).unwrap();
    let reports = report_spans(spans.as_slice(), used_replies, options.strip_prefixes.as_slice());
    Analysis {
        name: choose_name(&options.display_name, &input.name),
        file: input.path.clone(),
        file_size,
        architecture: image.architecture.clone(),
        endian: if image.little_endian {
            "little".to_string()
        } else {
            "big".to_string()
        },
        totals,
        sections: sort_sections(sections),
        symbols: reports,
    }
}

/// Why a file could not be analyzed.
#[allow(non_camel_case_types)]
#[derive(Debug)]
pub enum rozyError {
    /// The file is not a valid object file.
    Parse { source: object::Error },
    /// The file is a valid object file, but not an ELF file.
    NotElf,
    /// The sections claim more memory than a `u64` can count.
    TooLarge,
}

/// The image that an ELF file with these bytes holds.
pub open spec fn image_in(bytes: Seq<u8>) -> ElfImageView {
    ElfImageView {
        architecture: architecture_of(bytes),
        little_endian: has_little_endian_encoding(bytes),
        sections: sections_of(bytes),
        symbols: symbols_of(bytes),
        dynamic_symbols: dynamic_symbols_of(bytes),
    }
}

/// Reads the image that an ELF file holds.
pub fn read_image(bytes: &[u8]) -> (result: Result<ElfImage, rozyError>)
    ensures
        match result {
            Ok(image) => {
                &&& parse_error(bytes@) is None
                &&& has_elf_magic(bytes@)
                &&& image@ == image_in(bytes@)
            },
            Err(rozyError::Parse { source }) => parse_error(bytes@) == Some(source),
            Err(rozyError::NotElf) => parse_error(bytes@) is None && !has_elf_magic(bytes@),
            Err(rozyError::TooLarge) => false,
        },
{
    let file = match ObjectFile::parse(bytes) {
        Ok(file) => file,
        Err(source) => return Err(rozyError::Parse { source }),
    };
    if !file.is_elf() {
        return Err(rozyError::NotElf);
    }
    Ok(
        ElfImage {
            architecture: file.architecture(),
            little_endian: file.is_little_endian(),
            sections: file.sections(),
            symbols: file.symbols(),
            dynamic_symbols: file.dynamic_symbols(),
        },
    )
}

/// Analyzes the bytes of an ELF executable using its section table, its symbol table, and what its
/// DWARF line information says of the addresses that [`lookup_addresses`] gives.
pub fn analyze_file(
    bytes: &[u8],
    input: &InputFile,
    replies: &[Result<Option<SourceLocation>, LookupError>],
    options: &AnalysisOptions,
) -> (result: Result<Analysis, rozyError>)
    ensures
        match result {
            Ok(analysis) => {
                &&& parse_error(bytes@) is None
                &&& has_elf_magic(bytes@)
                &&& totals_fit(image_in(bytes@).memory_sections())
                &&& is_analysis_of(
                    analysis@,
                    image_in(bytes@),
                    bytes@.len() as u64,
                    *input,
                    lookup_views(replies@),
                    *options,
                )
            },
            Err(rozyError::Parse { source }) => parse_error(bytes@) == Some(source),
            Err(rozyError::NotElf) => parse_error(bytes@) is None && !has_elf_magic(bytes@),
            Err(rozyError::TooLarge) => {
                &&& parse_error(bytes@) is None
                &&& has_elf_magic(bytes@)
                &&& !totals_fit(image_in(bytes@).memory_sections())
            },
        },
{
    let image = match read_image(bytes) {
        Ok(image) => image,
        Err(error) => return Err(error),
    };
    let sections = collect_sections(image.sections.as_slice());
    if section_totals(sections.as_slice()).is_none() {
        return Err(rozyError::TooLarge);
    }
    Ok(analyze_image(&image, bytes.len() as u64, input, replies, options))
}

} // verus!
