//! What holds of every report, entry by entry.

use crate::analysis::{
    image_in, is_analysis_of, named_starts, section_keys, sorted_spans, span_keys,
    synthetic_report, AnalysisOptions, AnalysisView, ElfImageView, InputFile, SymbolReportView,
};
use crate::crate_name::inferred_crate;
use crate::layout::PlacedSpanView;
use crate::laws::{law_locations_belong_to_their_addresses, lemma_entries_mirror_spans};
use crate::location::{location_at, LookupError, SourceLocationView};
use crate::memory::{MemoryAddress, MemoryKind, MemoryTotals};
use crate::object_file::{
    architecture_of, dynamic_symbols_of, has_little_endian_encoding, sections_of, symbols_of,
};
use crate::order::{
    comes_before, lemma_stable_order_exists, lemma_stable_order_has_no_duplicates, sorting_order,
};
use crate::section::{MemorySectionView, SectionAddress};
use crate::section_laws::{law_every_loaded_byte_counts, loaded_bytes};
use crate::source_path::normalized;
use crate::symbol::{raw_symbol, raw_symbols, readable_name, RawSymbolView, SymbolEntryView};
use crate::symbol_laws::{can_own_bytes, law_every_owner_is_read};
use vstd::prelude::*;

verus! {

/// The report says what was analyzed: its name is the one that was asked for, or else that of the
/// file, or else a placeholder, and path, size, architecture and byte order are those of the file.
pub proof fn law_reports_say_what_was_analyzed(
    analysis: AnalysisView,
    image: ElfImageView,
    file_size: u64,
    input: InputFile,
    replies: Seq<Result<Option<SourceLocationView>, LookupError>>,
    options: AnalysisOptions,
)
    requires
        is_analysis_of(analysis, image, file_size, input, replies, options),
    ensures
        options.display_name matches Some(name) ==> analysis.name == name@,
        options.display_name is None ==> (input.name matches Some(name) ==> analysis.name == name@),
        options.display_name is None && input.name is None ==> analysis.name == "ELF report"@,
        analysis.file == input.path@,
        analysis.file_size == file_size,
        analysis.architecture == image.architecture,
        image.little_endian ==> analysis.endian == "little"@,
        !image.little_endian ==> analysis.endian == "big"@,
{
}

/// The totals of a report count every byte of the section table that is loaded.
pub proof fn law_reports_count_every_loaded_byte(
    analysis: AnalysisView,
    image: ElfImageView,
    file_size: u64,
    input: InputFile,
    replies: Seq<Result<Option<SourceLocationView>, LookupError>>,
    options: AnalysisOptions,
)
    requires
        is_analysis_of(analysis, image, file_size, input, replies, options),
    ensures
        analysis.totals.text + analysis.totals.data + analysis.totals.bss == loaded_bytes(
            image.sections,
        ),
        analysis.totals.flash == analysis.totals.text + analysis.totals.data,
        analysis.totals.ram == analysis.totals.data + analysis.totals.bss,
{
    law_every_loaded_byte_counts(analysis.totals, image.sections);
}

/// An image holds the tables of its file.
pub proof fn law_images_hold_the_tables_of_the_file(bytes: Seq<u8>)
    ensures
        image_in(bytes).architecture == architecture_of(bytes),
        image_in(bytes).little_endian == has_little_endian_encoding(bytes),
        image_in(bytes).sections == sections_of(bytes),
        image_in(bytes).symbols == symbols_of(bytes),
        image_in(bytes).dynamic_symbols == dynamic_symbols_of(bytes),
{
}

proof fn lemma_raw_symbols_of_entries(
    entries: Seq<SymbolEntryView>,
    sections: Seq<MemorySectionView>,
    clear_thumb_bit: bool,
    symbol: RawSymbolView,
)
    ensures
        raw_symbols(entries, sections, clear_thumb_bit).contains(symbol) <==> exists|i: int|
            0 <= i < entries.len() && raw_symbol(#[trigger] entries[i], sections, clear_thumb_bit)
                == Some(symbol),
    decreases entries.len(),
{
    let all = raw_symbols(entries, sections, clear_thumb_bit);
    if entries.len() > 0 {
        let front = entries.drop_last();
        let earlier = raw_symbols(front, sections, clear_thumb_bit);
        lemma_raw_symbols_of_entries(front, sections, clear_thumb_bit, symbol);
        if all.contains(symbol) {
            let k = choose|k: int| 0 <= k < all.len() && all[k] == symbol;
            if k < earlier.len() {
                assert(earlier[k] == symbol);
                let i = choose|i: int|
                    0 <= i < front.len() && raw_symbol(
                        #[trigger] front[i],
                        sections,
                        clear_thumb_bit,
                    ) == Some(symbol);
                assert(entries[i] == front[i]);
            } else {
                assert(entries[entries.len() - 1] == entries.last());
            }
        }
        if exists|i: int|
            0 <= i < entries.len() && raw_symbol(#[trigger] entries[i], sections, clear_thumb_bit)
                == Some(symbol) {
            let i = choose|i: int|
                0 <= i < entries.len() && raw_symbol(
                    #[trigger] entries[i],
                    sections,
                    clear_thumb_bit,
                ) == Some(symbol);
            if i < front.len() {
                assert(front[i] == entries[i]);
                let k = choose|k: int| 0 <= k < earlier.len() && earlier[k] == symbol;
                assert(all[k] == symbol);
            } else {
                assert(all[all.len() - 1] == symbol);
            }
        }
    }
}

/// Every entry of the two symbol tables that can own bytes becomes a symbol with its section, size
/// and readable name. Its address is the one in the table, but for Arm, where it is made even.
pub proof fn law_both_tables_are_read(image: ElfImageView, entry: SymbolEntryView)
    requires
        image.symbols.contains(entry) || image.dynamic_symbols.contains(entry),
        can_own_bytes(entry, image.memory_sections()),
    ensures
        exists|symbol: RawSymbolView|
            {
                &&& #[trigger] image.raw_symbols().contains(symbol)
                &&& symbol.section == entry.section.unwrap()
                &&& symbol.declared_size == entry.size
                &&& symbol.name == readable_name(entry.name.unwrap())
                &&& image.architecture != "Arm"@ ==> symbol.address == entry.address
                &&& image.architecture == "Arm"@ ==> symbol.address % 2 == 0 && symbol.address
                    <= entry.address <= symbol.address + 1
            },
{
    let entries = image.symbols + image.dynamic_symbols;
    let sections = image.memory_sections();
    let arm = image.architecture == "Arm"@;
    law_every_owner_is_read(Seq::<SymbolEntryView>::empty(), entry, sections, arm);
    let symbol = raw_symbol(entry, sections, arm).unwrap();
    assert(entries.contains(entry)) by {
        if image.symbols.contains(entry) {
            let i = choose|i: int| 0 <= i < image.symbols.len() && image.symbols[i] == entry;
            assert(entries[i] == entry);
        } else {
            let i = choose|i: int|
                0 <= i < image.dynamic_symbols.len() && image.dynamic_symbols[i] == entry;
            assert(entries[image.symbols.len() + i] == entry);
        }
    }
    let at = choose|i: int| 0 <= i < entries.len() && entries[i] == entry;
    assert(raw_symbol(entries[at], sections, arm) == Some(symbol));
    lemma_raw_symbols_of_entries(entries, sections, arm, symbol);
    assert(image.raw_symbols().contains(symbol));
}

/// Every symbol of an image comes from an entry of one of the two symbol tables that can own bytes.
pub proof fn law_symbols_come_from_the_tables(image: ElfImageView, symbol: RawSymbolView)
    requires
        image.raw_symbols().contains(symbol),
    ensures
        exists|entry: SymbolEntryView|
            {
                &&& #[trigger] can_own_bytes(entry, image.memory_sections())
                &&& image.symbols.contains(entry) || image.dynamic_symbols.contains(entry)
                &&& symbol.section == entry.section.unwrap()
                &&& symbol.declared_size == entry.size
                &&& symbol.name == readable_name(entry.name.unwrap())
                &&& image.architecture != "Arm"@ ==> symbol.address == entry.address
                &&& image.architecture == "Arm"@ ==> symbol.address % 2 == 0 && symbol.address
                    <= entry.address <= symbol.address + 1
            },
{
    let entries = image.symbols + image.dynamic_symbols;
    let sections = image.memory_sections();
    let arm = image.architecture == "Arm"@;
    lemma_raw_symbols_of_entries(entries, sections, arm, symbol);
    let at = choose|i: int|
        0 <= i < entries.len() && raw_symbol(#[trigger] entries[i], sections, arm) == Some(symbol);
    let entry = entries[at];
    law_every_owner_is_read(Seq::<SymbolEntryView>::empty(), entry, sections, arm);
    assert(image.symbols.contains(entry) || image.dynamic_symbols.contains(entry)) by {
        if at < image.symbols.len() {
            assert(image.symbols[at] == entry);
        } else {
            assert(image.dynamic_symbols[at - image.symbols.len()] == entry);
        }
    }
    assert(can_own_bytes(entry, sections));
}

/// Whether `order` lists the numbers below `count`, each once.
pub open spec fn is_rearrangement(order: Seq<int>, count: int) -> bool {
    &&& order.len() == count
    &&& forall|i: int| 0 <= i < order.len() ==> 0 <= #[trigger] order[i] < count
    &&& forall|i: int, j: int|
        0 <= i < j < order.len() ==> #[trigger] order[i] != #[trigger] order[j]
}

/// Whether a kind of memory comes before another in a report: bss, then data, then text.
pub open spec fn kind_is_first(first: MemoryKind, second: MemoryKind) -> bool {
    match (first, second) {
        (MemoryKind::Bss, MemoryKind::Data) => true,
        (MemoryKind::Bss, MemoryKind::Text) => true,
        (MemoryKind::Data, MemoryKind::Text) => true,
        _ => false,
    }
}

/// Whether an entry is the one for a span: it lies where the span lies, and has the name of the
/// symbol that owns the span, or else a placeholder.
pub open spec fn is_entry_for(entry: SymbolReportView, span: PlacedSpanView) -> bool {
    &&& entry.address == span.span.start
    &&& entry.address + entry.size == span.span.stop
    &&& entry.memory == span.memory
    &&& entry.section == span.section
    &&& span.span.name matches Some(name) ==> !entry.synthetic && entry.name == name
    &&& span.span.name is None ==> entry.synthetic && entry.name == "<unattributed>"@
}

/// The entries are those for the spans, one for one, sorted by kind of memory and then by address.
/// Entries at one address keep the order of the spans.
pub proof fn law_entries_are_the_spans_sorted(
    analysis: AnalysisView,
    image: ElfImageView,
    file_size: u64,
    input: InputFile,
    replies: Seq<Result<Option<SourceLocationView>, LookupError>>,
    options: AnalysisOptions,
)
    requires
        is_analysis_of(analysis, image, file_size, input, replies, options),
    ensures
        exists|order: Seq<int>|
            {
                &&& #[trigger] is_rearrangement(order, image.spans().len() as int)
                &&& analysis.symbols.len() == order.len()
                &&& forall|i: int|
                    0 <= i < order.len() ==> is_entry_for(
                        #[trigger] analysis.symbols[i],
                        image.spans()[order[i]],
                    )
                &&& forall|i: int, j: int|
                    0 <= i < j < order.len() ==> {
                        let early = #[trigger] analysis.symbols[i];
                        let late = #[trigger] analysis.symbols[j];
                        ||| kind_is_first(early.memory, late.memory)
                        ||| early.memory == late.memory && early.address < late.address
                        ||| early.memory == late.memory && early.address == late.address && order[i]
                            < order[j]
                    }
            },
{
    let spans = image.spans();
    let keys = span_keys(spans);
    let order = sorting_order::<MemoryAddress>(keys);
    lemma_entries_mirror_spans(analysis, image, file_size, input, replies, options);
    lemma_stable_order_exists::<MemoryAddress>(keys);
    lemma_stable_order_has_no_duplicates::<MemoryAddress>(keys, order);
    assert(is_rearrangement(order, spans.len() as int));
    assert forall|i: int| 0 <= i < order.len() implies is_entry_for(
        #[trigger] analysis.symbols[i],
        spans[order[i]],
    ) by {
        assert(sorted_spans(spans)[i] == spans[order[i]]);
    }
    assert forall|i: int, j: int| 0 <= i < j < order.len() implies {
        let early = #[trigger] analysis.symbols[i];
        let late = #[trigger] analysis.symbols[j];
        ||| kind_is_first(early.memory, late.memory)
        ||| early.memory == late.memory && early.address < late.address
        ||| early.memory == late.memory && early.address == late.address && order[i] < order[j]
    } by {
        assert(is_entry_for(analysis.symbols[i], spans[order[i]]));
        assert(is_entry_for(analysis.symbols[j], spans[order[j]]));
        assert(comes_before::<MemoryAddress>(keys, order[i], order[j]));
    }
}

/// The sections of a report are those in memory, one for one, sorted by address. Sections at one
/// address keep their order.
pub proof fn law_sections_keep_their_order(
    analysis: AnalysisView,
    image: ElfImageView,
    file_size: u64,
    input: InputFile,
    replies: Seq<Result<Option<SourceLocationView>, LookupError>>,
    options: AnalysisOptions,
)
    requires
        is_analysis_of(analysis, image, file_size, input, replies, options),
    ensures
        exists|order: Seq<int>|
            {
                &&& #[trigger] is_rearrangement(order, image.memory_sections().len() as int)
                &&& analysis.sections.len() == order.len()
                &&& forall|i: int|
                    0 <= i < order.len() ==> #[trigger] analysis.sections[i]
                        == image.memory_sections()[order[i]].report
                &&& forall|i: int, j: int|
                    0 <= i < j < order.len() ==> {
                        let early = #[trigger] analysis.sections[i];
                        let late = #[trigger] analysis.sections[j];
                        early.address < late.address || early.address == late.address && order[i]
                            < order[j]
                    }
            },
{
    let sections = image.memory_sections();
    let keys = section_keys(sections);
    let order = sorting_order::<SectionAddress>(keys);
    lemma_stable_order_exists::<SectionAddress>(keys);
    lemma_stable_order_has_no_duplicates::<SectionAddress>(keys, order);
    assert(is_rearrangement(order, sections.len() as int));
    assert forall|i: int, j: int| 0 <= i < j < order.len() implies {
        let early = #[trigger] analysis.sections[i];
        let late = #[trigger] analysis.sections[j];
        early.address < late.address || early.address == late.address && order[i] < order[j]
    } by {
        assert(comes_before::<SectionAddress>(keys, order[i], order[j]));
    }
}

/// An entry for bytes that no symbol owns has no source and no crate. An entry for a symbol is
/// grouped by its source file, if it has one, and belongs to the crate that its path or its name
/// tells. Without a source file an entry is grouped under its section.
pub proof fn law_entries_are_grouped_by_source_or_section(
    analysis: AnalysisView,
    image: ElfImageView,
    file_size: u64,
    input: InputFile,
    replies: Seq<Result<Option<SourceLocationView>, LookupError>>,
    options: AnalysisOptions,
    at: int,
)
    requires
        is_analysis_of(analysis, image, file_size, input, replies, options),
        0 <= at < analysis.symbols.len(),
    ensures
        ({
            let entry = analysis.symbols[at];
            &&& entry.synthetic ==> entry.source is None && entry.line is None && entry.crate_name
                is None
            &&& entry.source is None ==> entry.path == seq!["[sections]"@, entry.section]
            &&& entry.source matches Some(source) ==> entry.path == normalized(
                source,
                options.strip_prefixes@.map_values(|prefix: String| prefix@),
            )
            &&& !entry.synthetic ==> entry.crate_name == inferred_crate(entry.name, entry.path)
        }),
{
    assert(options.strip_prefixes@.map_values(|prefix: String| prefix@) =~= crate::text::texts(
        options.strip_prefixes@,
    ));
}

/// The addresses of the entries for symbols.
pub open spec fn symbol_addresses(entries: Seq<SymbolReportView>) -> Seq<u64>
    decreases entries.len(),
{
    if entries.len() == 0 {
        Seq::<u64>::empty()
    } else if entries.last().synthetic {
        symbol_addresses(entries.drop_last())
    } else {
        symbol_addresses(entries.drop_last()).push(entries.last().address)
    }
}

proof fn lemma_starts_of_entries(entries: Seq<SymbolReportView>, spans: Seq<PlacedSpanView>)
    requires
        entries.len() == spans.len(),
        forall|i: int|
            0 <= i < entries.len() ==> (#[trigger] entries[i]).address == spans[i].span.start
                && entries[i].synthetic == (spans[i].span.name is None),
    ensures
        named_starts(spans) == symbol_addresses(entries),
    decreases entries.len(),
{
    if entries.len() > 0 {
        let front = entries.drop_last();
        let front_spans = spans.drop_last();
        assert forall|i: int| 0 <= i < front.len() implies (#[trigger] front[i]).address
            == front_spans[i].span.start && front[i].synthetic == (front_spans[i].span.name
            is None) by {
            assert(front[i] == entries[i]);
        }
        lemma_starts_of_entries(front, front_spans);
        assert(entries[entries.len() - 1] == entries.last());
        assert(named_starts(spans) =~= symbol_addresses(entries));
    } else {
        assert(named_starts(spans) =~= symbol_addresses(entries));
    }
}

/// What is looked up are the addresses of the entries for symbols, in their order. An entry has the
/// file and the line of the reply for its address, where that reply has a location.
pub proof fn law_lookups_are_for_the_entries(
    analysis: AnalysisView,
    image: ElfImageView,
    file_size: u64,
    input: InputFile,
    replies: Seq<Result<Option<SourceLocationView>, LookupError>>,
    options: AnalysisOptions,
    at: int,
)
    requires
        is_analysis_of(analysis, image, file_size, input, replies, options),
        options.resolve_source,
        0 <= at < analysis.symbols.len(),
        !analysis.symbols[at].synthetic,
    ensures
        named_starts(sorted_spans(image.spans())) == symbol_addresses(analysis.symbols),
        ({
            let entry = analysis.symbols[at];
            let number = symbol_addresses(analysis.symbols.take(at)).len() as int;
            &&& number < symbol_addresses(analysis.symbols).len()
            &&& symbol_addresses(analysis.symbols)[number] == entry.address
            &&& number < replies.len() ==> match replies[number] {
                Ok(Some(location)) => entry.source == location.file && entry.line == location.line,
                Ok(None) => entry.source is None && entry.line is None,
                Err(_) => entry.source is None && entry.line is None,
            }
            &&& number >= replies.len() ==> entry.source is None && entry.line is None
        }),
{
    let spans = sorted_spans(image.spans());
    lemma_entries_mirror_spans(analysis, image, file_size, input, replies, options);
    law_locations_belong_to_their_addresses(
        analysis,
        image,
        file_size,
        input,
        replies,
        options,
        at,
    );
    lemma_starts_of_entries(analysis.symbols, spans);
    let front = analysis.symbols.take(at);
    assert forall|i: int| 0 <= i < front.len() implies (#[trigger] front[i]).address == spans.take(
        at,
    )[i].span.start && front[i].synthetic == (spans.take(at)[i].span.name is None) by {
        assert(front[i] == analysis.symbols[i]);
    }
    lemma_starts_of_entries(front, spans.take(at));
}

/// A reply has the file and the line of its location, and a lookup that failed or found nothing has
/// neither. Neither does a lookup without a reply.
pub proof fn law_replies_give_file_and_line(
    replies: Seq<Result<Option<SourceLocationView>, LookupError>>,
    at: int,
)
    ensures
        0 <= at < replies.len() ==> match replies[at] {
            Ok(Some(location)) => {
                &&& location_at(replies, at).file == location.file
                &&& location_at(replies, at).line == location.line
            },
            Ok(None) => location_at(replies, at).file is None && location_at(replies, at).line
                is None,
            Err(_) => location_at(replies, at).file is None && location_at(replies, at).line is None,
        },
        !(0 <= at < replies.len()) ==> location_at(replies, at).file is None && location_at(
            replies,
            at,
        ).line is None,
{
}

/// An entry for bytes that no symbol owns says so, lies where the bytes lie, and is grouped under
/// its section.
pub proof fn law_unattributed_entries_say_so(
    section: Seq<char>,
    memory: MemoryKind,
    address: u64,
    size: u64,
)
    ensures
        ({
            let entry = synthetic_report(section, memory, address, size);
            &&& entry.name == "<unattributed>"@
            &&& entry.address == address
            &&& entry.size == size
            &&& entry.memory == memory
            &&& entry.section == section
            &&& entry.path.len() == 2
            &&& entry.path[0] == "[sections]"@
            &&& entry.path[1] == section
            &&& entry.crate_name is None
            &&& entry.source is None
            &&& entry.line is None
            &&& entry.synthetic
        }),
{
}

/// Kinds of memory have their usual names.
pub proof fn law_kinds_have_their_names()
    ensures
        MemoryKind::Text.name() == seq!['t', 'e', 'x', 't'],
        MemoryKind::Data.name() == seq!['d', 'a', 't', 'a'],
        MemoryKind::Bss.name() == seq!['b', 's', 's'],
{
    reveal_strlit("text");
    reveal_strlit("data");
    reveal_strlit("bss");
}

/// More bytes fit exactly if flash and RAM stay in the range of a `u64`: text and data count for
/// flash, data and bss for RAM.
pub proof fn law_bytes_fit_where_flash_and_ram_do(
    totals: MemoryTotals,
    kind: MemoryKind,
    bytes: u64,
)
    ensures
        kind == MemoryKind::Text ==> (totals.fits(kind, bytes) <==> totals.text + totals.data + bytes
            <= u64::MAX && totals.data + totals.bss <= u64::MAX),
        kind == MemoryKind::Data ==> (totals.fits(kind, bytes) <==> totals.text + totals.data + bytes
            <= u64::MAX && totals.data + totals.bss + bytes <= u64::MAX),
        kind == MemoryKind::Bss ==> (totals.fits(kind, bytes) <==> totals.text + totals.data
            <= u64::MAX && totals.data + totals.bss + bytes <= u64::MAX),
{
}

} // verus!
