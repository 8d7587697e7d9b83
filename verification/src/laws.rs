//! What holds of every analysis as a whole.

use crate::analysis::{
    is_analysis_of, named_starts, section_keys, sorted_spans, span_keys, AnalysisOptions,
    AnalysisView, ElfImageView, InputFile, SymbolReportView,
};
use crate::layout::{
    lemma_every_byte_is_represented, lemma_placed_spans_are_in_range, placed_bytes,
    sections_end_in_range, PlacedSpanView,
};
use crate::location::{location_at, LookupError, SourceLocationView};
use crate::memory::{lemma_rank_orders_as_name, MemoryAddress, MemoryKind};
use crate::order::{
    arranged, comes_before, lemma_stable_order_exists, lemma_stable_order_has_no_duplicates, lists,
    sorting_order,
};
use crate::section::SectionAddress;
use crate::text::text_at_most;
use vstd::prelude::*;

verus! {

/// The bytes that the entries in memory of one kind take together.
pub open spec fn reported_bytes(symbols: Seq<SymbolReportView>, kind: MemoryKind) -> int
    decreases symbols.len(),
{
    if symbols.len() == 0 {
        0
    } else {
        reported_bytes(symbols.drop_last(), kind) + if symbols.last().memory == kind {
            symbols.last().size as int
        } else {
            0
        }
    }
}

proof fn lemma_bytes_without(spans: Seq<PlacedSpanView>, at: int, kind: MemoryKind)
    requires
        0 <= at < spans.len(),
    ensures
        placed_bytes(spans, kind) == placed_bytes(spans.remove(at), kind) + placed_bytes(
            seq![spans[at]],
            kind,
        ),
    decreases spans.len(),
{
    let one = seq![spans[at]];
    assert(one.drop_last() =~= Seq::<PlacedSpanView>::empty());
    assert(placed_bytes(one.drop_last(), kind) == 0);
    if at == spans.len() - 1 {
        assert(spans.remove(at) =~= spans.drop_last());
    } else {
        lemma_bytes_without(spans.drop_last(), at, kind);
        assert(spans.remove(at).drop_last() =~= spans.drop_last().remove(at));
        assert(spans.remove(at).last() == spans.last());
    }
}

proof fn lemma_bytes_of_arranged(spans: Seq<PlacedSpanView>, order: Seq<int>, kind: MemoryKind)
    requires
        order.no_duplicates(),
        order.len() == spans.len(),
        forall|i: int| 0 <= i < order.len() ==> 0 <= #[trigger] order[i] < spans.len(),
        forall|at: int| 0 <= at < spans.len() ==> #[trigger] lists(order, at),
    ensures
        placed_bytes(arranged(spans, order), kind) == placed_bytes(spans, kind),
    decreases spans.len(),
{
    if spans.len() > 0 {
        let last = spans.len() - 1;
        assert(lists(order, last));
        let place = choose|k: int| 0 <= k < order.len() && #[trigger] order[k] == last;
        let rest = order.remove(place);
        let front = spans.drop_last();
        assert forall|i: int| 0 <= i < rest.len() implies 0 <= #[trigger] rest[i] < last by {
            let from = if i < place { i } else { i + 1 };
            assert(rest[i] == order[from]);
            assert(order[from] != order[place]);
        }
        assert forall|at: int| 0 <= at < last implies #[trigger] lists(rest, at) by {
            assert(lists(order, at));
            let k = choose|k: int| 0 <= k < order.len() && #[trigger] order[k] == at;
            let to = if k < place { k } else { k - 1 };
            assert(rest[to] == at);
        }
        assert forall|i: int, j: int|
            0 <= i < rest.len() && 0 <= j < rest.len() && i != j implies rest[i] != rest[j] by {
            let a = if i < place { i } else { i + 1 };
            let b = if j < place { j } else { j + 1 };
            assert(order[a] != order[b]);
        }
        lemma_bytes_of_arranged(front, rest, kind);
        lemma_bytes_without(arranged(spans, order), place, kind);
        lemma_bytes_without(spans, last, kind);
        assert(spans.remove(last) =~= front);
        assert(arranged(spans, order).remove(place) =~= arranged(front, rest));
        assert(arranged(spans, order)[place] == spans[last]);
    }
}

proof fn lemma_reported_bytes(
    reports: Seq<SymbolReportView>,
    spans: Seq<PlacedSpanView>,
    kind: MemoryKind,
)
    requires
        reports.len() == spans.len(),
        forall|i: int|
            0 <= i < spans.len() ==> (#[trigger] reports[i]).memory == spans[i].memory
                && reports[i].size == spans[i].span.stop - spans[i].span.start,
    ensures
        reported_bytes(reports, kind) == placed_bytes(spans, kind),
    decreases spans.len(),
{
    if spans.len() > 0 {
        let front = reports.drop_last();
        assert forall|i: int| 0 <= i < front.len() implies (#[trigger] front[i]).memory
            == spans.drop_last()[i].memory && front[i].size == spans.drop_last()[i].span.stop
            - spans.drop_last()[i].span.start by {
            assert(front[i] == reports[i]);
        }
        lemma_reported_bytes(front, spans.drop_last(), kind);
        assert(reports[reports.len() - 1].memory == spans.last().memory);
    }
}

/// An entry of the report has the memory, the address and the size of a span, and the order of
/// the entries is that of the sorted spans.
pub proof fn lemma_entries_mirror_spans(
    analysis: AnalysisView,
    image: ElfImageView,
    file_size: u64,
    input: InputFile,
    replies: Seq<Result<Option<SourceLocationView>, LookupError>>,
    options: AnalysisOptions,
)
    requires
        is_analysis_of(analysis, image, file_size, input, replies, options),
    ensures
        analysis.symbols.len() == sorted_spans(image.spans()).len(),
        forall|i: int|
            0 <= i < analysis.symbols.len() ==> {
                let span = sorted_spans(image.spans())[i];
                let entry = #[trigger] analysis.symbols[i];
                &&& 0 <= span.span.start < span.span.stop <= u64::MAX
                &&& entry.memory == span.memory
                &&& entry.address == span.span.start
                &&& entry.size == span.span.stop - span.span.start
                &&& entry.section == span.section
                &&& entry.synthetic == (span.span.name is None)
            },
{
    let spans = image.spans();
    let order = sorting_order::<MemoryAddress>(span_keys(spans));
    lemma_stable_order_exists::<MemoryAddress>(span_keys(spans));
    lemma_placed_spans_are_in_range(image.memory_sections(), image.raw_symbols());
    assert forall|i: int| 0 <= i < analysis.symbols.len() implies {
        let span = sorted_spans(image.spans())[i];
        let entry = #[trigger] analysis.symbols[i];
        &&& 0 <= span.span.start < span.span.stop <= u64::MAX
        &&& entry.memory == span.memory
        &&& entry.address == span.span.start
        &&& entry.size == span.span.stop - span.span.start
        &&& entry.section == span.section
        &&& entry.synthetic == (span.span.name is None)
    } by {
        assert(sorted_spans(spans)[i] == spans[order[i]]);
    }
}

/// Every allocated byte is accounted for: in each kind of memory the entries of an analysis,
/// attributed and unattributed, take together exactly what the sections take, and flash and RAM
/// follow from that.
pub proof fn law_every_byte_is_accounted_for(
    analysis: AnalysisView,
    image: ElfImageView,
    file_size: u64,
    input: InputFile,
    replies: Seq<Result<Option<SourceLocationView>, LookupError>>,
    options: AnalysisOptions,
)
    requires
        is_analysis_of(analysis, image, file_size, input, replies, options),
        sections_end_in_range(image.memory_sections()),
    ensures
        forall|kind: MemoryKind|
            reported_bytes(analysis.symbols, kind) == #[trigger] analysis.totals.of_kind(kind),
        analysis.totals.flash == reported_bytes(analysis.symbols, MemoryKind::Text)
            + reported_bytes(analysis.symbols, MemoryKind::Data),
        analysis.totals.ram == reported_bytes(analysis.symbols, MemoryKind::Data)
            + reported_bytes(analysis.symbols, MemoryKind::Bss),
{
    let spans = image.spans();
    let keys = span_keys(spans);
    lemma_entries_mirror_spans(analysis, image, file_size, input, replies, options);
    lemma_stable_order_exists::<MemoryAddress>(keys);
    lemma_stable_order_has_no_duplicates::<MemoryAddress>(keys, sorting_order::<MemoryAddress>(keys));
    assert forall|kind: MemoryKind|
        reported_bytes(analysis.symbols, kind) == #[trigger] analysis.totals.of_kind(kind) by {
        lemma_reported_bytes(analysis.symbols, sorted_spans(spans), kind);
        lemma_bytes_of_arranged(spans, sorting_order::<MemoryAddress>(keys), kind);
        lemma_every_byte_is_represented(image.memory_sections(), image.raw_symbols(), kind);
    }
    assert(reported_bytes(analysis.symbols, MemoryKind::Text) == analysis.totals.of_kind(
        MemoryKind::Text,
    ));
    assert(reported_bytes(analysis.symbols, MemoryKind::Data) == analysis.totals.of_kind(
        MemoryKind::Data,
    ));
    assert(reported_bytes(analysis.symbols, MemoryKind::Bss) == analysis.totals.of_kind(
        MemoryKind::Bss,
    ));
}

/// Sections are the source of truth: images with the same sections have the same totals and list
/// the same sections, whatever symbols they hold, and none at all among them.
pub proof fn law_totals_do_not_depend_on_symbols(
    first: AnalysisView,
    first_image: ElfImageView,
    first_size: u64,
    first_input: InputFile,
    first_replies: Seq<Result<Option<SourceLocationView>, LookupError>>,
    first_options: AnalysisOptions,
    second: AnalysisView,
    second_image: ElfImageView,
    second_size: u64,
    second_input: InputFile,
    second_replies: Seq<Result<Option<SourceLocationView>, LookupError>>,
    second_options: AnalysisOptions,
)
    requires
        is_analysis_of(first, first_image, first_size, first_input, first_replies, first_options),
        is_analysis_of(
            second,
            second_image,
            second_size,
            second_input,
            second_replies,
            second_options,
        ),
        first_image.sections == second_image.sections,
    ensures
        first.totals == second.totals,
        first.sections == second.sections,
{
}

/// The entries come sorted by the name of the kind of memory, and by address within a kind.
pub proof fn law_entries_are_sorted(
    analysis: AnalysisView,
    image: ElfImageView,
    file_size: u64,
    input: InputFile,
    replies: Seq<Result<Option<SourceLocationView>, LookupError>>,
    options: AnalysisOptions,
)
    requires
        is_analysis_of(analysis, image, file_size, input, replies, options),
    ensures
        forall|i: int, j: int|
            0 <= i < j < analysis.symbols.len() ==> {
                let early = #[trigger] analysis.symbols[i];
                let late = #[trigger] analysis.symbols[j];
                &&& text_at_most(early.memory.name(), late.memory.name())
                &&& early.memory == late.memory ==> early.address <= late.address
            },
{
    let keys = span_keys(image.spans());
    let order = sorting_order::<MemoryAddress>(keys);
    lemma_entries_mirror_spans(analysis, image, file_size, input, replies, options);
    lemma_stable_order_exists::<MemoryAddress>(keys);
    assert forall|i: int, j: int| 0 <= i < j < analysis.symbols.len() implies {
        let early = #[trigger] analysis.symbols[i];
        let late = #[trigger] analysis.symbols[j];
        &&& text_at_most(early.memory.name(), late.memory.name())
        &&& early.memory == late.memory ==> early.address <= late.address
    } by {
        assert(comes_before::<MemoryAddress>(keys, order[i], order[j]));
        lemma_rank_orders_as_name(analysis.symbols[i].memory, analysis.symbols[j].memory);
    }
}

/// All sections that take memory are there, sorted by address.
pub proof fn law_sections_are_sorted(
    analysis: AnalysisView,
    image: ElfImageView,
    file_size: u64,
    input: InputFile,
    replies: Seq<Result<Option<SourceLocationView>, LookupError>>,
    options: AnalysisOptions,
)
    requires
        is_analysis_of(analysis, image, file_size, input, replies, options),
    ensures
        analysis.sections.len() == image.memory_sections().len(),
        forall|i: int|
            0 <= i < image.memory_sections().len() ==> analysis.sections.contains(
                (#[trigger] image.memory_sections()[i]).report,
            ),
        forall|i: int, j: int|
            0 <= i < j < analysis.sections.len() ==> (#[trigger] analysis.sections[i]).address <= (
            #[trigger] analysis.sections[j]).address,
{
    let sections = image.memory_sections();
    let keys = section_keys(sections);
    let order = sorting_order::<SectionAddress>(keys);
    lemma_stable_order_exists::<SectionAddress>(keys);
    assert forall|i: int, j: int| 0 <= i < j < analysis.sections.len() implies (
    #[trigger] analysis.sections[i]).address <= (#[trigger] analysis.sections[j]).address by {
        assert(comes_before::<SectionAddress>(keys, order[i], order[j]));
    }
    assert forall|i: int| 0 <= i < sections.len() implies analysis.sections.contains(
        (#[trigger] sections[i]).report,
    ) by {
        assert(lists(order, i));
        let place = choose|k: int| 0 <= k < order.len() && #[trigger] order[k] == i;
        assert(analysis.sections[place] == sections[i].report);
    }
}

/// No entry of the report is empty, and none reaches beyond the last address.
pub proof fn law_no_entry_is_empty(
    analysis: AnalysisView,
    image: ElfImageView,
    file_size: u64,
    input: InputFile,
    replies: Seq<Result<Option<SourceLocationView>, LookupError>>,
    options: AnalysisOptions,
)
    requires
        is_analysis_of(analysis, image, file_size, input, replies, options),
    ensures
        forall|i: int|
            0 <= i < analysis.symbols.len() ==> 0 < (#[trigger] analysis.symbols[i]).size
                && analysis.symbols[i].address + analysis.symbols[i].size <= u64::MAX,
{
    lemma_entries_mirror_spans(analysis, image, file_size, input, replies, options);
}

/// Where sources are not resolved, no entry has one, and every entry is grouped under its
/// section.
pub proof fn law_without_sources_sections_group(
    analysis: AnalysisView,
    image: ElfImageView,
    file_size: u64,
    input: InputFile,
    replies: Seq<Result<Option<SourceLocationView>, LookupError>>,
    options: AnalysisOptions,
)
    requires
        is_analysis_of(analysis, image, file_size, input, replies, options),
        !options.resolve_source || replies.len() == 0,
    ensures
        forall|i: int|
            0 <= i < analysis.symbols.len() ==> {
                let entry = #[trigger] analysis.symbols[i];
                &&& entry.source is None
                &&& entry.line is None
                &&& entry.path == seq!["[sections]"@, entry.section]
            },
{
}

/// The addresses of the first spans come first.
proof fn lemma_named_starts_of_front(spans: Seq<PlacedSpanView>, count: int)
    requires
        0 <= count <= spans.len(),
    ensures
        named_starts(spans.take(count)).is_prefix_of(named_starts(spans)),
    decreases spans.len(),
{
    if count == spans.len() {
        assert(spans.take(count) =~= spans);
    } else {
        let front = spans.drop_last();
        lemma_named_starts_of_front(front, count);
        assert(front.take(count) =~= spans.take(count));
        let starts = named_starts(front);
        let given = named_starts(spans.take(count));
        assert(starts.is_prefix_of(named_starts(spans)));
        assert(given =~= named_starts(spans).subrange(0, given.len() as int));
    }
}

/// A symbol has the location that was found for its address: the reply that counts for an entry
/// has the number of the entry's address among the addresses to look up.
pub proof fn law_locations_belong_to_their_addresses(
    analysis: AnalysisView,
    image: ElfImageView,
    file_size: u64,
    input: InputFile,
    replies: Seq<Result<Option<SourceLocationView>, LookupError>>,
    options: AnalysisOptions,
    at: int,
)
    requires
        is_analysis_of(analysis, image, file_size, input, replies, options),
        options.resolve_source,
        0 <= at < analysis.symbols.len(),
        !analysis.symbols[at].synthetic,
    ensures
        ({
            let addresses = named_starts(sorted_spans(image.spans()));
            let number = named_starts(sorted_spans(image.spans()).take(at)).len() as int;
            &&& 0 <= number < addresses.len()
            &&& addresses[number] == analysis.symbols[at].address
            &&& analysis.symbols[at].source == location_at(replies, number).file
            &&& analysis.symbols[at].line == location_at(replies, number).line
        }),
{
    let spans = sorted_spans(image.spans());
    lemma_entries_mirror_spans(analysis, image, file_size, input, replies, options);
    assert(analysis.symbols[at].section == spans[at].section);
    assert(spans.take(at + 1).drop_last() =~= spans.take(at));
    lemma_named_starts_of_front(spans, at + 1);
    let given = named_starts(spans.take(at + 1));
    assert(given =~= named_starts(spans.take(at)) + seq![analysis.symbols[at].address]);
    assert(given[given.len() - 1] == named_starts(spans)[given.len() - 1]);
}

} // verus!
