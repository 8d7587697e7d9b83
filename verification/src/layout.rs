//! Who owns the bytes of a section.
//!
//! A section is laid out as spans in ascending order. A span belongs to a symbol, or it is a
//! gap that no symbol covers.

use crate::memory::MemoryKind;
use crate::order::{
    arrange, arranged, comes_before, is_stable_order, key_views, lemma_stable_order_has_no_duplicates, lists,
    positions, stable_order, SortKey,
};
use crate::section::{section_bytes, MemorySection, MemorySectionView};
use crate::symbol::{choose_symbol, is_best, no_better, RawSymbol, RawSymbolView};
use vstd::prelude::*;
use vstd::slice::slice_subrange;
use vstd::utf8::encode_utf8;

verus! {

/// Bytes of a section that belong together.
#[derive(Clone, Debug)]
pub struct Span {
    pub address: u64,
    pub size: u64,
    /// The name of the symbol that owns the bytes; `None` for a gap.
    pub name: Option<String>,
}

/// What a [`Span`] holds: the bytes from `start` up to `stop`.
pub struct SpanView {
    pub start: int,
    pub stop: int,
    pub name: Option<Seq<char>>,
}

impl View for Span {
    type V = SpanView;

    open spec fn view(&self) -> SpanView {
        SpanView {
            start: self.address as int,
            stop: self.address + self.size,
            name: crate::text::optional_text(self.name),
        }
    }
}

/// The least address from `from` up to `end` at which a symbol of the section starts, or `end`
/// if there is none.
pub open spec fn next_start(
    symbols: Seq<RawSymbolView>,
    section: usize,
    from: int,
    end: int,
) -> int
    decreases symbols.len(),
{
    if symbols.len() == 0 {
        end
    } else {
        let least = next_start(symbols.drop_last(), section, from, end);
        let last = symbols.last();
        if last.section == section && from <= last.address < least {
            last.address as int
        } else {
            least
        }
    }
}

/// Whether a symbol of the section starts at this address.
pub open spec fn starts_at(symbol: RawSymbolView, section: usize, address: int) -> bool {
    symbol.section == section && symbol.address == address
}

/// Whether the symbol at `chosen` owns what starts at this address: of the symbols that start
/// there it is the best name, and the last of those that are equally good.
pub open spec fn is_owner(
    symbols: Seq<RawSymbolView>,
    section: usize,
    address: int,
    chosen: int,
) -> bool {
    &&& 0 <= chosen < symbols.len()
    &&& starts_at(symbols[chosen], section, address)
    &&& forall|i: int|
        0 <= i < symbols.len() && starts_at(#[trigger] symbols[i], section, address) ==> no_better(
            symbols[i],
            symbols[chosen],
        ) && (no_better(symbols[chosen], symbols[i]) ==> i <= chosen)
}

/// The symbol that owns what starts at this address.
pub open spec fn owner(symbols: Seq<RawSymbolView>, section: usize, address: int) -> RawSymbolView {
    symbols[choose|chosen: int| is_owner(symbols, section, address, chosen)]
}

/// Where the bytes end that belong to the symbol at `start`: at the next symbol or the end of
/// the section, or before that where the symbol declares fewer bytes.
pub open spec fn owner_stop(
    symbols: Seq<RawSymbolView>,
    section: usize,
    start: int,
    end: int,
) -> int {
    let next = next_start(symbols, section, start + 1, end);
    let size = owner(symbols, section, start).declared_size;
    if size == 0 || next <= start + size {
        next
    } else {
        start + size
    }
}

/// The gap between two addresses, if there is one.
pub open spec fn gap(start: int, stop: int) -> Seq<SpanView> {
    if start < stop {
        seq![SpanView { start, stop, name: None }]
    } else {
        Seq::<SpanView>::empty()
    }
}

/// How the bytes of a section from `cursor` up to `end` are laid out.
pub open spec fn layout(
    symbols: Seq<RawSymbolView>,
    section: usize,
    cursor: int,
    end: int,
) -> Seq<SpanView>
    decreases end - cursor,
{
    let start = next_start(symbols, section, cursor, end);
    if cursor <= start < end {
        proof {
            lemma_owner_stop_bounds(symbols, section, start, end);
        }
        let stop = owner_stop(symbols, section, start, end);
        let span = SpanView { start, stop, name: Some(owner(symbols, section, start).name) };
        gap(cursor, start) + seq![span] + layout(symbols, section, stop, end)
    } else {
        gap(cursor, end)
    }
}

/// The first address behind a section. Addresses end where the range of a `u64` does.
pub open spec fn section_end(address: u64, size: u64) -> int {
    if address + size <= u64::MAX {
        address + size
    } else {
        u64::MAX as int
    }
}

/// How the bytes of a section are laid out.
pub open spec fn section_layout(
    symbols: Seq<RawSymbolView>,
    section: MemorySectionView,
) -> Seq<SpanView> {
    layout(
        symbols,
        section.index,
        section.report.address as int,
        section_end(section.report.address, section.report.size),
    )
}

/// A start that is found lies in the range, and no symbol starts in front of it.
proof fn lemma_next_start(symbols: Seq<RawSymbolView>, section: usize, from: int, end: int)
    ensures
        next_start(symbols, section, from, end) <= end,
        from <= end ==> from <= next_start(symbols, section, from, end),
        next_start(symbols, section, from, end) < end ==> from <= next_start(
            symbols,
            section,
            from,
            end,
        ) && exists|i: int|
            0 <= i < symbols.len() && starts_at(
                #[trigger] symbols[i],
                section,
                next_start(symbols, section, from, end),
            ),
        forall|i: int|
            0 <= i < symbols.len() && (#[trigger] symbols[i]).section == section && from
                <= symbols[i].address < end ==> next_start(symbols, section, from, end)
                <= symbols[i].address,
    decreases symbols.len(),
{
    if symbols.len() > 0 {
        let rest = symbols.drop_last();
        lemma_next_start(rest, section, from, end);
        assert forall|i: int|
            0 <= i < symbols.len() && (#[trigger] symbols[i]).section == section && from
                <= symbols[i].address < end implies next_start(symbols, section, from, end)
            <= symbols[i].address by {
            if i < rest.len() {
                assert(rest[i] == symbols[i]);
            }
        }
        let found = next_start(symbols, section, from, end);
        if found < end {
            if found == next_start(rest, section, from, end) {
                let i = choose|i: int|
                    0 <= i < rest.len() && starts_at(#[trigger] rest[i], section, found);
                assert(starts_at(symbols[i], section, found));
            } else {
                assert(starts_at(symbols[symbols.len() - 1], section, found));
            }
        }
    }
}

/// The start that is found is the one number with these properties.
proof fn lemma_next_start_is(
    symbols: Seq<RawSymbolView>,
    section: usize,
    from: int,
    end: int,
    found: int,
)
    requires
        from <= found <= end,
        found < end ==> exists|i: int|
            0 <= i < symbols.len() && starts_at(#[trigger] symbols[i], section, found),
        forall|i: int|
            0 <= i < symbols.len() && (#[trigger] symbols[i]).section == section && from
                <= symbols[i].address < end ==> found <= symbols[i].address,
    ensures
        next_start(symbols, section, from, end) == found,
{
    lemma_next_start(symbols, section, from, end);
    let other = next_start(symbols, section, from, end);
    if other < end {
        let i = choose|i: int|
            0 <= i < symbols.len() && starts_at(#[trigger] symbols[i], section, other);
        assert(found <= symbols[i].address);
    }
    if found < end {
        let i = choose|i: int|
            0 <= i < symbols.len() && starts_at(#[trigger] symbols[i], section, found);
        assert(other <= symbols[i].address);
    }
}

/// A symbol owns at least its first byte and nothing behind the section.
pub proof fn lemma_owner_stop_bounds(
    symbols: Seq<RawSymbolView>,
    section: usize,
    start: int,
    end: int,
)
    requires
        start < end,
    ensures
        start < owner_stop(symbols, section, start, end) <= end,
        owner_stop(symbols, section, start, end) <= next_start(symbols, section, start + 1, end),
{
    lemma_next_start(symbols, section, start + 1, end);
}

/// There is one owner.
proof fn lemma_owner_is(
    symbols: Seq<RawSymbolView>,
    section: usize,
    address: int,
    chosen: int,
)
    requires
        is_owner(symbols, section, address, chosen),
    ensures
        owner(symbols, section, address) == symbols[chosen],
{
    let other = choose|other: int| is_owner(symbols, section, address, other);
    assert(is_owner(symbols, section, address, other));
    assert(no_better(symbols[other], symbols[chosen]));
    assert(no_better(symbols[chosen], symbols[other]));
}

/// Whether the spans follow each other without gap or overlap from `start` to `stop`, none of
/// them empty.
pub open spec fn is_partition(spans: Seq<SpanView>, start: int, stop: int) -> bool {
    if spans.len() == 0 {
        start == stop
    } else {
        &&& spans[0].start == start
        &&& spans.last().stop == stop
        &&& forall|i: int| 0 <= i < spans.len() ==> (#[trigger] spans[i]).start < spans[i].stop
        &&& forall|i: int, j: int|
            0 <= i < spans.len() && j == i + 1 && j < spans.len() ==> (#[trigger] spans[i]).stop
                == (#[trigger] spans[j]).start
    }
}

/// The bytes of the spans together.
pub open spec fn span_bytes(spans: Seq<SpanView>) -> int
    decreases spans.len(),
{
    if spans.len() == 0 {
        0
    } else {
        span_bytes(spans.drop_last()) + (spans.last().stop - spans.last().start)
    }
}

/// Every byte of a section lies in exactly one span: the spans of a layout follow each other
/// from its start to its end, without gap or overlap.
pub proof fn lemma_layout_is_partition(
    symbols: Seq<RawSymbolView>,
    section: usize,
    cursor: int,
    end: int,
)
    requires
        cursor <= end,
    ensures
        is_partition(layout(symbols, section, cursor, end), cursor, end),
    decreases end - cursor,
{
    lemma_next_start(symbols, section, cursor, end);
    let start = next_start(symbols, section, cursor, end);
    if start < end {
        lemma_owner_stop_bounds(symbols, section, start, end);
        let stop = owner_stop(symbols, section, start, end);
        lemma_layout_is_partition(symbols, section, stop, end);
        let rest = layout(symbols, section, stop, end);
        let span = SpanView { start, stop, name: Some(owner(symbols, section, start).name) };
        let front = gap(cursor, start) + seq![span];
        assert(layout(symbols, section, cursor, end) == front + rest);
        let all = front + rest;
        assert forall|i: int, j: int|
            0 <= i < all.len() && j == i + 1 && j < all.len() implies (#[trigger] all[i]).stop == (
        #[trigger] all[j]).start by {
            if i >= front.len() {
                assert(rest[i - front.len()].stop == rest[j - front.len()].start);
            }
        }
        assert forall|i: int| 0 <= i < all.len() implies (#[trigger] all[i]).start
            < all[i].stop by {
            if i >= front.len() {
                assert(rest[i - front.len()].start < rest[i - front.len()].stop);
            }
        }
    }
}

/// The spans of a partition hold as many bytes as there are between its ends.
pub proof fn lemma_partition_bytes(spans: Seq<SpanView>, start: int, stop: int)
    requires
        is_partition(spans, start, stop),
    ensures
        span_bytes(spans) == stop - start,
    decreases spans.len(),
{
    if spans.len() == 1 {
        assert(span_bytes(spans.drop_last()) == 0);
    } else if spans.len() > 1 {
        let rest = spans.drop_last();
        assert(spans[spans.len() - 2].stop == spans[spans.len() - 1].start);
        assert forall|i: int, j: int|
            0 <= i < rest.len() && j == i + 1 && j < rest.len() implies (#[trigger] rest[i]).stop
            == (#[trigger] rest[j]).start by {
            assert(spans[i].stop == spans[j].start);
        }
        assert forall|i: int| 0 <= i < rest.len() implies (#[trigger] rest[i]).start
            < rest[i].stop by {
            assert(spans[i].start < spans[i].stop);
        }
        lemma_partition_bytes(rest, start, spans.last().start);
    }
}

/// Whether a span holds the byte at this address.
pub open spec fn holds(span: SpanView, byte: int) -> bool {
    span.start <= byte < span.stop
}

/// Spans further on in a partition start no earlier.
proof fn lemma_partition_ascends(spans: Seq<SpanView>, start: int, stop: int, i: int, j: int)
    requires
        is_partition(spans, start, stop),
        0 <= i < j < spans.len(),
    ensures
        spans[i].stop <= spans[j].start,
    decreases j - i,
{
    assert(spans[j - 1].stop == spans[j].start);
    if i < j - 1 {
        lemma_partition_ascends(spans, start, stop, i, j - 1);
        assert(spans[j - 1].start < spans[j - 1].stop);
    }
}

proof fn lemma_partition_finds(
    spans: Seq<SpanView>,
    start: int,
    stop: int,
    byte: int,
    from: int,
) -> (at: int)
    requires
        is_partition(spans, start, stop),
        0 <= from < spans.len(),
        spans[from].start <= byte < stop,
    ensures
        0 <= at < spans.len(),
        holds(spans[at], byte),
    decreases spans.len() - from,
{
    if byte < spans[from].stop {
        from
    } else {
        assert(from + 1 < spans.len());
        assert(spans[from].stop == spans[from + 1].start);
        lemma_partition_finds(spans, start, stop, byte, from + 1)
    }
}

/// Every byte of a section lies in exactly one span of its layout.
pub proof fn law_each_byte_has_one_span(
    symbols: Seq<RawSymbolView>,
    section: MemorySectionView,
    byte: int,
)
    requires
        section.report.address <= byte < section_end(section.report.address, section.report.size),
    ensures
        exists|i: int|
            0 <= i < section_layout(symbols, section).len() && holds(
                #[trigger] section_layout(symbols, section)[i],
                byte,
            ),
        forall|i: int, j: int|
            0 <= i < section_layout(symbols, section).len() && 0 <= j < section_layout(
                symbols,
                section,
            ).len() && holds(#[trigger] section_layout(symbols, section)[i], byte) && holds(
                #[trigger] section_layout(symbols, section)[j],
                byte,
            ) ==> i == j,
{
    let spans = section_layout(symbols, section);
    let start = section.report.address as int;
    let end = section_end(section.report.address, section.report.size);
    lemma_layout_is_partition(symbols, section.index, start, end);
    let at = lemma_partition_finds(spans, start, end, byte, 0);
    assert(holds(spans[at], byte));
    assert forall|i: int, j: int|
        0 <= i < spans.len() && 0 <= j < spans.len() && holds(#[trigger] spans[i], byte) && holds(
            #[trigger] spans[j],
            byte,
        ) implies i == j by {
        if i < j {
            lemma_partition_ascends(spans, start, end, i, j);
        } else if j < i {
            lemma_partition_ascends(spans, start, end, j, i);
        }
    }
}

/// A section without symbols is one gap.
pub proof fn law_stripped_section_is_one_gap(
    symbols: Seq<RawSymbolView>,
    section: MemorySectionView,
)
    requires
        section.report.address < section_end(section.report.address, section.report.size),
        forall|i: int| 0 <= i < symbols.len() ==> (#[trigger] symbols[i]).section != section.index,
    ensures
        section_layout(symbols, section) == seq![
            SpanView {
                start: section.report.address as int,
                stop: section_end(section.report.address, section.report.size),
                name: None,
            },
        ],
{
    lemma_next_start(
        symbols,
        section.index,
        section.report.address as int,
        section_end(section.report.address, section.report.size),
    );
}

proof fn lemma_gaps_are_free(
    symbols: Seq<RawSymbolView>,
    section: usize,
    cursor: int,
    end: int,
    at: int,
    symbol: int,
)
    requires
        cursor <= end,
        0 <= at < layout(symbols, section, cursor, end).len(),
        layout(symbols, section, cursor, end)[at].name is None,
        0 <= symbol < symbols.len(),
        symbols[symbol].section == section,
    ensures
        !holds(layout(symbols, section, cursor, end)[at], symbols[symbol].address as int),
    decreases end - cursor,
{
    lemma_next_start(symbols, section, cursor, end);
    let start = next_start(symbols, section, cursor, end);
    let opening = gap(cursor, start);
    if start < end && at > opening.len() {
        lemma_owner_stop_bounds(symbols, section, start, end);
        let stop = owner_stop(symbols, section, start, end);
        lemma_gaps_are_free(symbols, section, stop, end, at - opening.len() - 1, symbol);
    }
}

/// Bytes are left unattributed only where they have to be: no symbol of a section starts in one
/// of its gaps.
pub proof fn law_no_symbol_starts_in_a_gap(
    symbols: Seq<RawSymbolView>,
    section: MemorySectionView,
    at: int,
    symbol: int,
)
    requires
        0 <= at < section_layout(symbols, section).len(),
        section_layout(symbols, section)[at].name is None,
        0 <= symbol < symbols.len(),
        symbols[symbol].section == section.index,
    ensures
        !holds(section_layout(symbols, section)[at], symbols[symbol].address as int),
{
    let start = section.report.address as int;
    let end = section_end(section.report.address, section.report.size);
    lemma_gaps_are_free(symbols, section.index, start, end, at, symbol);
}

/// Whether a span goes by the name of the symbol and takes no more bytes than the symbol declares,
/// where it declares any.
pub open spec fn is_span_of(span: SpanView, symbol: RawSymbolView) -> bool {
    &&& span.name == Some(symbol.name)
    &&& symbol.declared_size > 0 ==> span.stop - span.start <= symbol.declared_size
}

proof fn lemma_spans_have_owners(
    symbols: Seq<RawSymbolView>,
    section: usize,
    cursor: int,
    end: int,
    at: int,
) -> (chosen: int)
    requires
        cursor <= end,
        0 <= at < layout(symbols, section, cursor, end).len(),
        layout(symbols, section, cursor, end)[at].name is Some,
    ensures
        is_owner(symbols, section, layout(symbols, section, cursor, end)[at].start, chosen),
        is_span_of(layout(symbols, section, cursor, end)[at], symbols[chosen]),
    decreases end - cursor,
{
    lemma_next_start(symbols, section, cursor, end);
    let start = next_start(symbols, section, cursor, end);
    let opening = gap(cursor, start);
    if at == opening.len() {
        let chosen = lemma_owner_exists(symbols, section, start);
        lemma_owner_is(symbols, section, start, chosen);
        chosen
    } else {
        lemma_owner_stop_bounds(symbols, section, start, end);
        let stop = owner_stop(symbols, section, start, end);
        lemma_spans_have_owners(symbols, section, stop, end, at - opening.len() - 1)
    }
}

/// Bytes are attributed only to a symbol that can own them: a span with a name starts where a
/// symbol of that name starts, no other symbol there is a better name, and the span takes no more
/// bytes than the symbol declares, where it declares any.
pub proof fn law_attributed_bytes_have_an_owner(
    symbols: Seq<RawSymbolView>,
    section: MemorySectionView,
    at: int,
)
    requires
        0 <= at < section_layout(symbols, section).len(),
        section_layout(symbols, section)[at].name is Some,
    ensures
        exists|chosen: int| #[trigger]
            is_owner(symbols, section.index, section_layout(symbols, section)[at].start, chosen)
                && is_span_of(section_layout(symbols, section)[at], symbols[chosen]),
{
    let start = section.report.address as int;
    let end = section_end(section.report.address, section.report.size);
    let chosen = lemma_spans_have_owners(symbols, section.index, start, end, at);
    assert(is_owner(
        symbols,
        section.index,
        section_layout(symbols, section)[at].start,
        chosen,
    ));
}

/// The place of a symbol: its section, then its address.
pub struct SymbolPlace {
    pub section: usize,
    pub address: u64,
}

impl View for SymbolPlace {
    type V = SymbolPlace;

    open spec fn view(&self) -> SymbolPlace {
        *self
    }
}

impl SortKey for SymbolPlace {
    open spec fn at_most(left: Self, right: Self) -> bool {
        ||| left.section < right.section
        ||| left.section == right.section && left.address <= right.address
    }

    proof fn lemma_total(left: Self, right: Self) {
    }

    proof fn lemma_transitive(low: Self, middle: Self, high: Self) {
    }

    fn is_at_most(&self, other: &Self) -> (below: bool) {
        self.section < other.section || self.section == other.section && self.address
            <= other.address
    }
}

/// The place of a symbol.
pub open spec fn place_of(symbol: RawSymbolView) -> SymbolPlace {
    SymbolPlace { section: symbol.section, address: symbol.address }
}

/// The places of the symbols.
pub open spec fn places(symbols: Seq<RawSymbolView>) -> Seq<SymbolPlace> {
    symbols.map_values(|symbol: RawSymbolView| place_of(symbol))
}

/// Whether the symbols stand in the order of their places.
pub open spec fn is_sorted_by_place(symbols: Seq<RawSymbolView>) -> bool {
    forall|i: int, j: int|
        0 <= i < j < symbols.len() ==> SymbolPlace::at_most(
            place_of(#[trigger] symbols[i]),
            place_of(#[trigger] symbols[j]),
        )
}

/// A stable sort of the symbols leaves the next start as it is.
proof fn lemma_next_start_of_arranged(
    symbols: Seq<RawSymbolView>,
    order: Seq<int>,
    section: usize,
    from: int,
    end: int,
)
    requires
        is_stable_order::<SymbolPlace>(places(symbols), order),
        from <= end,
    ensures
        next_start(arranged(symbols, order), section, from, end) == next_start(
            symbols,
            section,
            from,
            end,
        ),
{
    let sorted = arranged(symbols, order);
    let found = next_start(symbols, section, from, end);
    lemma_next_start(symbols, section, from, end);
    if found < end {
        let i = choose|i: int|
            0 <= i < symbols.len() && starts_at(#[trigger] symbols[i], section, found);
        assert(lists(order, i));
        let k = choose|k: int| 0 <= k < order.len() && #[trigger] order[k] == i;
        assert(starts_at(sorted[k], section, found));
    }
    assert forall|k: int|
        0 <= k < sorted.len() && (#[trigger] sorted[k]).section == section && from
            <= sorted[k].address < end implies found <= sorted[k].address by {
        assert(sorted[k] == symbols[order[k]]);
    }
    lemma_next_start_is(sorted, section, from, end, found);
}

/// Where a symbol starts, one of the symbols is the owner.
proof fn lemma_owner_exists(symbols: Seq<RawSymbolView>, section: usize, address: int) -> (chosen:
    int)
    requires
        exists|i: int| 0 <= i < symbols.len() && starts_at(#[trigger] symbols[i], section, address),
    ensures
        is_owner(symbols, section, address, chosen),
    decreases symbols.len(),
{
    let rest = symbols.drop_last();
    let last = symbols.len() - 1;
    assert forall|i: int| 0 <= i < rest.len() implies rest[i] == #[trigger] symbols[i] by {}
    if exists|i: int| 0 <= i < rest.len() && starts_at(#[trigger] rest[i], section, address) {
        let chosen = lemma_owner_exists(rest, section, address);
        if starts_at(symbols[last], section, address) && no_better(rest[chosen], symbols[last]) {
            assert forall|i: int|
                0 <= i < symbols.len() && starts_at(
                    #[trigger] symbols[i],
                    section,
                    address,
                ) implies no_better(symbols[i], symbols[last]) by {
                if i < last {
                    assert(starts_at(rest[i], section, address));
                }
            }
            last
        } else {
            assert forall|i: int|
                0 <= i < symbols.len() && starts_at(
                    #[trigger] symbols[i],
                    section,
                    address,
                ) implies no_better(symbols[i], symbols[chosen]) && (no_better(
                symbols[chosen],
                symbols[i],
            ) ==> i <= chosen) by {
                if i < last {
                    assert(starts_at(rest[i], section, address));
                }
            }
            chosen
        }
    } else {
        assert forall|i: int|
            0 <= i < symbols.len() && starts_at(
                #[trigger] symbols[i],
                section,
                address,
            ) implies i == last by {
            if i < last {
                assert(starts_at(rest[i], section, address));
            }
        }
        last
    }
}

/// A stable sort of the symbols leaves the owner as it is.
proof fn lemma_owner_of_arranged(
    symbols: Seq<RawSymbolView>,
    order: Seq<int>,
    section: usize,
    address: int,
)
    requires
        is_stable_order::<SymbolPlace>(places(symbols), order),
        exists|i: int| 0 <= i < symbols.len() && starts_at(#[trigger] symbols[i], section, address),
    ensures
        owner(arranged(symbols, order), section, address) == owner(symbols, section, address),
{
    let sorted = arranged(symbols, order);
    let keys = places(symbols);
    let at = choose|i: int|
        0 <= i < symbols.len() && starts_at(#[trigger] symbols[i], section, address);
    assert(lists(order, at));
    let place = choose|k: int| 0 <= k < order.len() && #[trigger] order[k] == at;
    assert(starts_at(sorted[place], section, address));
    let chosen = lemma_owner_exists(sorted, section, address);
    lemma_owner_is(sorted, section, address, chosen);
    let original = order[chosen];
    assert(sorted[chosen] == symbols[original]);
    assert forall|i: int|
        0 <= i < symbols.len() && starts_at(
            #[trigger] symbols[i],
            section,
            address,
        ) implies no_better(symbols[i], symbols[original]) && (no_better(
        symbols[original],
        symbols[i],
    ) ==> i <= original) by {
        assert(lists(order, i));
        let k = choose|k: int| 0 <= k < order.len() && #[trigger] order[k] == i;
        assert(starts_at(sorted[k], section, address));
        if k < chosen {
            assert(comes_before::<SymbolPlace>(keys, order[k], order[chosen]));
            assert(keys[original] == place_of(symbols[original]));
            assert(keys[i] == place_of(symbols[i]));
        }
    }
    lemma_owner_is(symbols, section, address, original);
}

/// A stable sort of the symbols leaves the layout as it is.
proof fn lemma_layout_of_arranged(
    symbols: Seq<RawSymbolView>,
    order: Seq<int>,
    section: usize,
    cursor: int,
    end: int,
)
    requires
        is_stable_order::<SymbolPlace>(places(symbols), order),
        cursor <= end,
    ensures
        layout(arranged(symbols, order), section, cursor, end) == layout(
            symbols,
            section,
            cursor,
            end,
        ),
    decreases end - cursor,
{
    lemma_next_start_of_arranged(symbols, order, section, cursor, end);
    lemma_next_start(symbols, section, cursor, end);
    let start = next_start(symbols, section, cursor, end);
    if start < end {
        lemma_owner_of_arranged(symbols, order, section, start);
        lemma_next_start_of_arranged(symbols, order, section, start + 1, end);
        lemma_owner_stop_bounds(symbols, section, start, end);
        lemma_layout_of_arranged(
            symbols,
            order,
            section,
            owner_stop(symbols, section, start, end),
            end,
        );
    }
}

/// The best of the symbols that share an address owns what starts there.
proof fn lemma_best_is_owner(
    symbols: Seq<RawSymbolView>,
    section: usize,
    address: int,
    first: int,
    behind: int,
    chosen: int,
)
    requires
        0 <= first <= behind <= symbols.len(),
        is_best(symbols.subrange(first, behind), chosen),
        forall|i: int|
            0 <= i < symbols.len() ==> (starts_at(#[trigger] symbols[i], section, address)
                <==> first <= i < behind),
    ensures
        owner(symbols, section, address) == symbols[first + chosen],
{
    let group = symbols.subrange(first, behind);
    assert(group[chosen] == symbols[first + chosen]);
    assert forall|i: int|
        0 <= i < symbols.len() && starts_at(
            #[trigger] symbols[i],
            section,
            address,
        ) implies no_better(symbols[i], symbols[first + chosen]) && (no_better(
        symbols[first + chosen],
        symbols[i],
    ) ==> i <= first + chosen) by {
        assert(group[i - first] == symbols[i]);
    }
    lemma_owner_is(symbols, section, address, first + chosen);
}

/// Appends the gap between two addresses, if there is one.
fn push_gap(spans: &mut Vec<Span>, start: u64, stop: u64)
    ensures
        final(spans)@.map_values(|span: Span| span@) == old(spans)@.map_values(|span: Span| span@)
            + gap(start as int, stop as int),
{
    if start < stop {
        spans.push(Span { address: start, size: stop - start, name: None });
        assert(spans@.map_values(|span: Span| span@) =~= old(spans)@.map_values(|span: Span| span@)
            + gap(start as int, stop as int));
    } else {
        assert(spans@.map_values(|span: Span| span@) =~= old(spans)@.map_values(|span: Span| span@)
            + gap(start as int, stop as int));
    }
}

/// Lays out a section, given all symbols in the order of their places.
fn lay_out_section(symbols: &[RawSymbol], section: &MemorySection) -> (spans: Vec<Span>)
    requires
        is_sorted_by_place(symbols@.map_values(|symbol: RawSymbol| symbol@)),
    ensures
        spans@.map_values(|span: Span| span@) == section_layout(
            symbols@.map_values(|symbol: RawSymbol| symbol@),
            section@,
        ),
{
    let ghost all = symbols@.map_values(|symbol: RawSymbol| symbol@);
    let index: usize = section.index;
    let section_start: u64 = section.report.address;
    let end: u64 = section_start.saturating_add(section.report.size);
    assert(end == section_end(section_start, section.report.size));
    let mut at: usize = 0;
    while at < symbols.len() && (symbols[at].section < index || symbols[at].section == index
        && symbols[at].address < section_start)
        invariant
            all == symbols@.map_values(|symbol: RawSymbol| symbol@),
            at <= symbols.len(),
            forall|i: int|
                0 <= i < at ==> (#[trigger] all[i]).section < index || all[i].section == index
                    && all[i].address < section_start,
        decreases symbols.len() - at,
    {
        assert(all[at as int] == symbols[at as int]@);
        at = at + 1;
    }
    let mut cursor: u64 = section_start;
    let mut spans: Vec<Span> = Vec::new();
    proof {
        assert(spans@.map_values(|span: Span| span@) =~= Seq::<SpanView>::empty());
        assert(Seq::<SpanView>::empty() + layout(all, index, cursor as int, end as int) =~= layout(
            all,
            index,
            section_start as int,
            end as int,
        ));
        if at < symbols.len() {
            assert(all[at as int] == symbols[at as int]@);
        }
    }
    while at < symbols.len() && symbols[at].section == index && symbols[at].address < end
        invariant
            all == symbols@.map_values(|symbol: RawSymbol| symbol@),
            is_sorted_by_place(all),
            at <= symbols.len(),
            section_start <= cursor <= end,
            forall|i: int|
                0 <= i < at ==> (#[trigger] all[i]).section < index || all[i].section == index
                    && all[i].address < cursor,
            at < symbols.len() ==> all[at as int].section > index || all[at as int].section
                == index && all[at as int].address >= cursor,
            spans@.map_values(|span: Span| span@) + layout(all, index, cursor as int, end as int)
                == layout(all, index, section_start as int, end as int),
        decreases symbols.len() - at,
    {
        let ghost before = spans@.map_values(|span: Span| span@);
        let first: usize = at;
        let start: u64 = symbols[at].address;
        proof {
            assert(all[first as int] == symbols[first as int]@);
            assert(starts_at(all[first as int], index, start as int));
            assert forall|i: int|
                0 <= i < all.len() && (#[trigger] all[i]).section == index && cursor
                    <= all[i].address < end implies start <= all[i].address by {
                if i > first {
                    assert(SymbolPlace::at_most(place_of(all[first as int]), place_of(all[i])));
                }
            }
            lemma_next_start_is(all, index, cursor as int, end as int, start as int);
        }
        push_gap(&mut spans, cursor, start);
        at = at + 1;
        while at < symbols.len() && symbols[at].section == index && symbols[at].address == start
            invariant
                all == symbols@.map_values(|symbol: RawSymbol| symbol@),
                0 <= first < at <= symbols.len(),
                forall|i: int| first <= i < at ==> starts_at(#[trigger] all[i], index, start as int),
            decreases symbols.len() - at,
        {
            assert(all[at as int] == symbols[at as int]@);
            at = at + 1;
        }
        let next: u64 = if at < symbols.len() && symbols[at].section == index && symbols[at].address
            < end {
            symbols[at].address
        } else {
            end
        };
        proof {
            if at < symbols.len() {
                assert(all[at as int] == symbols[at as int]@);
                assert(SymbolPlace::at_most(place_of(all[first as int]), place_of(all[at as int])));
                if next < end {
                    assert(starts_at(all[at as int], index, next as int));
                }
            }
            assert forall|i: int| at <= i < all.len() implies (#[trigger] all[i]).section > index
                || all[i].section == index && all[i].address > start && all[i].address
                >= next || all[i].address >= end by {
                if i > at {
                    assert(SymbolPlace::at_most(place_of(all[at as int]), place_of(all[i])));
                }
            }
            assert forall|i: int| 0 <= i < all.len() implies (starts_at(
                #[trigger] all[i],
                index,
                start as int,
            ) <==> first <= i < at) by {}
            lemma_next_start_is(all, index, start + 1, end as int, next as int);
        }
        let group = slice_subrange(symbols, first, at);
        let chosen = choose_symbol(group);
        proof {
            assert(group@.map_values(|symbol: RawSymbol| symbol@) =~= all.subrange(
                first as int,
                at as int,
            ));
            let k = choose|k: int|
                is_best(group@.map_values(|symbol: RawSymbol| symbol@), k) && *chosen
                    == #[trigger] group@[k];
            assert(group@[k]@ == all[first + k]);
            lemma_best_is_owner(all, index, start as int, first as int, at as int, k);
            lemma_owner_stop_bounds(all, index, start as int, end as int);
        }
        let stop: u64 = if chosen.declared_size == 0 {
            next
        } else {
            let declared: u64 = start.saturating_add(chosen.declared_size);
            if declared < next {
                declared
            } else {
                next
            }
        };
        let ghost filled = spans@.map_values(|span: Span| span@);
        spans.push(Span { address: start, size: stop - start, name: Some(chosen.name.clone()) });
        proof {
            let span = SpanView {
                start: start as int,
                stop: stop as int,
                name: Some(owner(all, index, start as int).name),
            };
            assert(spans@.map_values(|span: Span| span@) =~= filled + seq![span]);
            let rest = layout(all, index, stop as int, end as int);
            let opening = gap(cursor as int, start as int);
            assert(layout(all, index, cursor as int, end as int) == opening + seq![span] + rest);
            assert(before + (opening + seq![span] + rest) =~= before + opening + seq![span] + rest);
        }
        cursor = stop;
    }
    proof {
        assert forall|i: int|
            0 <= i < all.len() && (#[trigger] all[i]).section == index && cursor <= all[i].address
                < end implies end <= all[i].address by {
            if i >= at {
                assert(all[at as int] == symbols[at as int]@);
                if i > at {
                    assert(SymbolPlace::at_most(place_of(all[at as int]), place_of(all[i])));
                }
            }
        }
        lemma_next_start_is(all, index, cursor as int, end as int, end as int);
    }
    push_gap(&mut spans, cursor, end);
    spans
}

/// A span with what the report says of its section.
#[derive(Clone, Debug)]
pub struct PlacedSpan {
    /// The name of the section.
    pub section: String,
    pub memory: MemoryKind,
    pub span: Span,
}

/// What a [`PlacedSpan`] holds.
pub struct PlacedSpanView {
    pub section: Seq<char>,
    pub memory: MemoryKind,
    pub span: SpanView,
}

impl View for PlacedSpan {
    type V = PlacedSpanView;

    open spec fn view(&self) -> PlacedSpanView {
        PlacedSpanView { section: self.section@, memory: self.memory, span: self.span@ }
    }
}

/// The spans of one section with what the report says of it.
pub open spec fn placed_in(section: MemorySectionView, spans: Seq<SpanView>) -> Seq<
    PlacedSpanView,
> {
    spans.map_values(
        |span: SpanView|
            PlacedSpanView { section: section.report.name, memory: section.report.memory, span },
    )
}

/// The spans of all sections, section by section.
pub open spec fn placed_spans(
    sections: Seq<MemorySectionView>,
    symbols: Seq<RawSymbolView>,
) -> Seq<PlacedSpanView>
    decreases sections.len(),
{
    if sections.len() == 0 {
        Seq::<PlacedSpanView>::empty()
    } else {
        placed_spans(sections.drop_last(), symbols) + placed_in(
            sections.last(),
            section_layout(symbols, sections.last()),
        )
    }
}

/// Lays out all sections.
pub fn lay_out(sections: &[MemorySection], symbols: Vec<RawSymbol>) -> (spans: Vec<PlacedSpan>)
    ensures
        spans@.map_values(|span: PlacedSpan| span@) == placed_spans(
            sections@.map_values(|section: MemorySection| section@),
            symbols@.map_values(|symbol: RawSymbol| symbol@),
        ),
{
    let ghost original = symbols@.map_values(|symbol: RawSymbol| symbol@);
    let mut keys: Vec<SymbolPlace> = Vec::new();
    for i in 0..symbols.len()
        invariant
            original == symbols@.map_values(|symbol: RawSymbol| symbol@),
            keys@ == places(original).take(i as int),
    {
        assert(original[i as int] == symbols[i as int]@);
        keys.push(SymbolPlace { section: symbols[i].section, address: symbols[i].address });
        assert(keys@ =~= places(original).take(i + 1));
    }
    assert(keys@ =~= places(original));
    assert(key_views(keys@) =~= keys@);
    let order = stable_order(keys.as_slice());
    proof {
        lemma_stable_order_has_no_duplicates::<SymbolPlace>(places(original), positions(order@));
    }
    let sorted_symbols = arrange(symbols, order.as_slice());
    let ghost sorted = sorted_symbols@.map_values(|symbol: RawSymbol| symbol@);
    proof {
        assert(sorted =~= arranged(original, positions(order@)));
        assert forall|i: int, j: int| 0 <= i < j < sorted.len() implies SymbolPlace::at_most(place_of(
            #[trigger] sorted[i],
        ), place_of(#[trigger] sorted[j])) by {
            assert(comes_before::<SymbolPlace>(
                places(original),
                positions(order@)[i],
                positions(order@)[j],
            ));
        }
    }
    let ghost all = sections@.map_values(|section: MemorySection| section@);
    let mut spans: Vec<PlacedSpan> = Vec::new();
    for i in 0..sections.len()
        invariant
            all == sections@.map_values(|section: MemorySection| section@),
            sorted == sorted_symbols@.map_values(|symbol: RawSymbol| symbol@),
            sorted == arranged(original, positions(order@)),
            is_stable_order::<SymbolPlace>(places(original), positions(order@)),
            is_sorted_by_place(sorted),
            spans@.map_values(|span: PlacedSpan| span@) == placed_spans(
                all.take(i as int),
                original,
            ),
    {
        let section = &sections[i];
        let ghost before = spans@.map_values(|span: PlacedSpan| span@);
        let section_spans = lay_out_section(sorted_symbols.as_slice(), section);
        let ghost parts = section_spans@.map_values(|span: Span| span@);
        proof {
            assert(all.take(i + 1).drop_last() =~= all.take(i as int));
            assert(all.take(i + 1).last() == section@);
            lemma_layout_of_arranged(
                original,
                positions(order@),
                section.index,
                section.report.address as int,
                section_end(section.report.address, section.report.size),
            );
        }
        let ghost own = placed_in(section@, parts);
        for span in it: section_spans
            invariant
                it.seq().map_values(|span: Span| span@) == parts,
                own == placed_in(section@, parts),
                spans@.map_values(|span: PlacedSpan| span@) == before + own.take(it.index()),
        {
            let ghost earlier = spans@.map_values(|span: PlacedSpan| span@);
            assert(parts[it.index()] == it.seq()[it.index()]@);
            spans.push(
                PlacedSpan {
                    section: section.report.name.clone(),
                    memory: section.report.memory,
                    span,
                },
            );
            assert(spans@.map_values(|span: PlacedSpan| span@) =~= earlier.push(own[it.index()]));
            assert(own.take(it.index() + 1) =~= own.take(it.index()).push(own[it.index()]));
        }
        assert(own.take(own.len() as int) =~= own);
    }
    assert(all.take(all.len() as int) =~= all);
    spans
}

/// The bytes that the spans in memory of one kind take together.
pub open spec fn placed_bytes(spans: Seq<PlacedSpanView>, kind: MemoryKind) -> int
    decreases spans.len(),
{
    if spans.len() == 0 {
        0
    } else {
        placed_bytes(spans.drop_last(), kind) + if spans.last().memory == kind {
            spans.last().span.stop - spans.last().span.start
        } else {
            0
        }
    }
}

proof fn lemma_placed_bytes_add(
    left: Seq<PlacedSpanView>,
    right: Seq<PlacedSpanView>,
    kind: MemoryKind,
)
    ensures
        placed_bytes(left + right, kind) == placed_bytes(left, kind) + placed_bytes(right, kind),
    decreases right.len(),
{
    if right.len() == 0 {
        assert(left + right =~= left);
    } else {
        assert((left + right).drop_last() =~= left + right.drop_last());
        lemma_placed_bytes_add(left, right.drop_last(), kind);
    }
}

proof fn lemma_placed_bytes_of_section(
    section: MemorySectionView,
    spans: Seq<SpanView>,
    kind: MemoryKind,
)
    ensures
        placed_bytes(placed_in(section, spans), kind) == if section.report.memory == kind {
            span_bytes(spans)
        } else {
            0
        },
    decreases spans.len(),
{
    if spans.len() > 0 {
        assert(placed_in(section, spans).drop_last() =~= placed_in(section, spans.drop_last()));
        lemma_placed_bytes_of_section(section, spans.drop_last(), kind);
    }
}

/// No span is empty, and all lie in the range of addresses.
pub proof fn lemma_placed_spans_are_in_range(
    sections: Seq<MemorySectionView>,
    symbols: Seq<RawSymbolView>,
)
    ensures
        forall|i: int|
            #![trigger placed_spans(sections, symbols)[i]]
            0 <= i < placed_spans(sections, symbols).len() ==> 0 <= placed_spans(
                sections,
                symbols,
            )[i].span.start < placed_spans(sections, symbols)[i].span.stop <= u64::MAX,
    decreases sections.len(),
{
    if sections.len() > 0 {
        let last = sections.last();
        let earlier = placed_spans(sections.drop_last(), symbols);
        let spans = section_layout(symbols, last);
        let all = placed_spans(sections, symbols);
        lemma_placed_spans_are_in_range(sections.drop_last(), symbols);
        let start = last.report.address as int;
        let end = section_end(last.report.address, last.report.size);
        lemma_layout_is_partition(symbols, last.index, start, end);
        assert forall|i: int| 0 <= i < all.len() implies 0 <= (#[trigger] all[i]).span.start
            < all[i].span.stop <= u64::MAX by {
            if i < earlier.len() {
                assert(all[i] == earlier[i]);
            } else {
                lemma_partition_bounds(spans, start, end, i - earlier.len());
            }
        }
    }
}

/// A span of a partition lies between its ends.
proof fn lemma_partition_bounds(spans: Seq<SpanView>, start: int, stop: int, at: int)
    requires
        is_partition(spans, start, stop),
        0 <= at < spans.len(),
    ensures
        start <= spans[at].start < spans[at].stop <= stop,
    decreases spans.len() - at,
{
    lemma_partition_lower_bound(spans, start, stop, at);
    if at + 1 < spans.len() {
        assert(spans[at].stop == spans[at + 1].start);
        lemma_partition_bounds(spans, start, stop, at + 1);
    }
}

proof fn lemma_partition_lower_bound(spans: Seq<SpanView>, start: int, stop: int, at: int)
    requires
        is_partition(spans, start, stop),
        0 <= at < spans.len(),
    ensures
        start <= spans[at].start,
    decreases at,
{
    if at > 0 {
        assert(spans[at - 1].stop == spans[at].start);
        lemma_partition_lower_bound(spans, start, stop, at - 1);
    }
}

/// Whether no section reaches beyond the last address.
pub open spec fn sections_end_in_range(sections: Seq<MemorySectionView>) -> bool {
    forall|i: int|
        0 <= i < sections.len() ==> (#[trigger] sections[i]).report.address
            + sections[i].report.size <= u64::MAX
}

/// Every byte of the sections is represented: in each kind of memory the spans hold as many
/// bytes as the sections, whatever the symbols are.
pub proof fn lemma_every_byte_is_represented(
    sections: Seq<MemorySectionView>,
    symbols: Seq<RawSymbolView>,
    kind: MemoryKind,
)
    requires
        sections_end_in_range(sections),
    ensures
        placed_bytes(placed_spans(sections, symbols), kind) == section_bytes(sections, kind),
    decreases sections.len(),
{
    if sections.len() > 0 {
        let last = sections.last();
        let spans = section_layout(symbols, last);
        let start = last.report.address as int;
        let end = section_end(last.report.address, last.report.size);
        assert forall|i: int| 0 <= i < sections.drop_last().len() implies (
        #[trigger] sections.drop_last()[i]).report.address + sections.drop_last()[i].report.size
            <= u64::MAX by {
            assert(sections.drop_last()[i] == sections[i]);
        }
        lemma_every_byte_is_represented(sections.drop_last(), symbols, kind);
        lemma_placed_bytes_add(
            placed_spans(sections.drop_last(), symbols),
            placed_in(last, spans),
            kind,
        );
        lemma_placed_bytes_of_section(last, spans, kind);
        assert(sections[sections.len() - 1] == last);
        lemma_layout_is_partition(symbols, last.index, start, end);
        lemma_partition_bytes(spans, start, end);
    }
}

/// The spans of a section follow each other from its first address to its last, and none is empty.
pub proof fn law_spans_follow_each_other(symbols: Seq<RawSymbolView>, section: MemorySectionView)
    requires
        section.report.size > 0,
        section.report.address < u64::MAX,
    ensures
        ({
            let spans = section_layout(symbols, section);
            let first = section.report.address as int;
            let size = section.report.size as int;
            &&& spans.len() > 0
            &&& spans[0].start == first
            &&& spans[spans.len() - 1].stop == if first + size <= u64::MAX {
                first + size
            } else {
                u64::MAX as int
            }
            &&& forall|i: int| 0 <= i < spans.len() ==> (#[trigger] spans[i]).start < spans[i].stop
            &&& forall|i: int, j: int|
                0 <= i < spans.len() && j == i + 1 && j < spans.len() ==> (#[trigger] spans[i]).stop
                    == (#[trigger] spans[j]).start
        }),
{
    lemma_layout_is_partition(
        symbols,
        section.index,
        section.report.address as int,
        section_end(section.report.address, section.report.size),
    );
}

/// What is attributed to a symbol: a span with a name starts where a symbol of the section with
/// that name starts. It ends where the bytes end that the symbol declares, at the next symbol, or
/// at the end of the section, whichever comes first; a symbol that declares no bytes has all up to
/// the next symbol or the end. Of the symbols at one address the one with the most bytes is taken,
/// then one without a leading dot, then the one with the shortest name, then the last.
pub proof fn law_symbols_own_what_they_declare(
    symbols: Seq<RawSymbolView>,
    section: MemorySectionView,
    at: int,
) -> (owner: int)
    requires
        0 <= at < section_layout(symbols, section).len(),
        section_layout(symbols, section)[at].name is Some,
    ensures
        0 <= owner < symbols.len(),
        symbols[owner].section == section.index,
        symbols[owner].address == section_layout(symbols, section)[at].start,
        section_layout(symbols, section)[at].name == Some(symbols[owner].name),
        ({
            let start = symbols[owner].address as int;
            let stop = section_layout(symbols, section)[at].stop;
            let size = symbols[owner].declared_size as int;
            let sum = section.report.address + section.report.size;
            let end = if sum <= u64::MAX {
                sum
            } else {
                u64::MAX as int
            };
            &&& start < stop <= end
            &&& size > 0 ==> stop <= start + size
            &&& forall|k: int|
                0 <= k < symbols.len() && (#[trigger] symbols[k]).section == section.index
                    && symbols[k].address > start ==> stop <= symbols[k].address
            &&& {
                ||| stop == end
                ||| size > 0 && stop == start + size
                ||| exists|k: int|
                    0 <= k < symbols.len() && (#[trigger] symbols[k]).section == section.index
                        && symbols[k].address == stop
            }
        }),
        forall|k: int|
            0 <= k < symbols.len() && (#[trigger] symbols[k]).section == section.index
                && symbols[k].address == symbols[owner].address ==> {
                let dotted = symbols[k].name.len() > 0 && symbols[k].name[0] == '.';
                let owner_dotted = symbols[owner].name.len() > 0 && symbols[owner].name[0] == '.';
                let length = encode_utf8(symbols[k].name).len();
                let owner_length = encode_utf8(symbols[owner].name).len();
                &&& symbols[k].declared_size <= symbols[owner].declared_size
                &&& symbols[k].declared_size == symbols[owner].declared_size ==> {
                    &&& owner_dotted ==> dotted
                    &&& owner_dotted == dotted ==> {
                        &&& owner_length <= length
                        &&& owner_length == length ==> k <= owner
                    }
                }
            },
{
    let start = section.report.address as int;
    let end = section_end(section.report.address, section.report.size);
    let chosen = lemma_spans_have_owners(symbols, section.index, start, end, at);
    let span = section_layout(symbols, section)[at];
    lemma_owner_is(symbols, section.index, span.start, chosen);
    lemma_spans_end_with_owners(symbols, section.index, start, end, at);
    lemma_next_start(symbols, section.index, span.start + 1, end);
    let next = next_start(symbols, section.index, span.start + 1, end);
    if next < end {
        let k = choose|k: int|
            0 <= k < symbols.len() && starts_at(#[trigger] symbols[k], section.index, next);
        assert(symbols[k].section == section.index && symbols[k].address == next);
    }
    assert forall|k: int|
        0 <= k < symbols.len() && (#[trigger] symbols[k]).section == section.index
            && symbols[k].address == symbols[chosen].address implies starts_at(
        symbols[k],
        section.index,
        span.start,
    ) by {}
    chosen
}

proof fn lemma_spans_end_with_owners(
    symbols: Seq<RawSymbolView>,
    section: usize,
    cursor: int,
    end: int,
    at: int,
)
    requires
        cursor <= end,
        0 <= at < layout(symbols, section, cursor, end).len(),
        layout(symbols, section, cursor, end)[at].name is Some,
    ensures
        ({
            let span = layout(symbols, section, cursor, end)[at];
            &&& span.start < span.stop <= end
            &&& span.stop == owner_stop(symbols, section, span.start, end)
        }),
    decreases end - cursor,
{
    lemma_next_start(symbols, section, cursor, end);
    let start = next_start(symbols, section, cursor, end);
    let opening = gap(cursor, start);
    lemma_owner_stop_bounds(symbols, section, start, end);
    if at > opening.len() {
        let stop = owner_stop(symbols, section, start, end);
        lemma_spans_end_with_owners(symbols, section, stop, end, at - opening.len() - 1);
    }
}

proof fn lemma_starts_have_spans(
    symbols: Seq<RawSymbolView>,
    section: usize,
    cursor: int,
    end: int,
    symbol: int,
) -> (at: int)
    requires
        0 <= symbol < symbols.len(),
        symbols[symbol].section == section,
        cursor <= symbols[symbol].address < end,
    ensures
        0 <= at < layout(symbols, section, cursor, end).len(),
        layout(symbols, section, cursor, end)[at].name is Some,
        layout(symbols, section, cursor, end)[at].start == symbols[symbol].address,
    decreases end - cursor,
{
    lemma_next_start(symbols, section, cursor, end);
    let start = next_start(symbols, section, cursor, end);
    let opening = gap(cursor, start);
    lemma_owner_stop_bounds(symbols, section, start, end);
    if start == symbols[symbol].address {
        opening.len() as int
    } else {
        let stop = owner_stop(symbols, section, start, end);
        lemma_next_start(symbols, section, start + 1, end);
        let at = lemma_starts_have_spans(symbols, section, stop, end, symbol);
        at + opening.len() + 1
    }
}

/// No symbol is passed over: where a symbol starts in its section, a span with a name starts.
pub proof fn law_symbols_start_spans(
    symbols: Seq<RawSymbolView>,
    section: MemorySectionView,
    symbol: int,
) -> (at: int)
    requires
        0 <= symbol < symbols.len(),
        symbols[symbol].section == section.index,
        section.report.address <= symbols[symbol].address < section.report.address
            + section.report.size,
        symbols[symbol].address < u64::MAX,
    ensures
        0 <= at < section_layout(symbols, section).len(),
        section_layout(symbols, section)[at].name is Some,
        section_layout(symbols, section)[at].start == symbols[symbol].address,
{
    lemma_starts_have_spans(
        symbols,
        section.index,
        section.report.address as int,
        section_end(section.report.address, section.report.size),
        symbol,
    )
}

/// Whether no symbol of the section starts behind `start` and up to `byte`.
pub open spec fn starts_last(
    symbols: Seq<RawSymbolView>,
    section: usize,
    start: int,
    byte: int,
) -> bool {
    forall|k: int|
        0 <= k < symbols.len() && (#[trigger] symbols[k]).section == section ==> !(start
            < symbols[k].address <= byte)
}

/// A byte is unattributed only where the symbols that start last in front of it have declared
/// sizes, all of which end at the byte or before it.
pub proof fn law_gaps_are_not_declared(
    symbols: Seq<RawSymbolView>,
    section: MemorySectionView,
    at: int,
    byte: int,
    symbol: int,
)
    requires
        0 <= at < section_layout(symbols, section).len(),
        section_layout(symbols, section)[at].name is None,
        section_layout(symbols, section)[at].start <= byte < section_layout(symbols, section)[at].stop,
        0 <= symbol < symbols.len(),
        symbols[symbol].section == section.index,
        section.report.address <= symbols[symbol].address <= byte,
        starts_last(symbols, section.index, symbols[symbol].address as int, byte),
    ensures
        symbols[symbol].address + symbols[symbol].declared_size <= byte,
        exists|k: int|
            0 <= k < symbols.len() && (#[trigger] symbols[k]).section == section.index
                && symbols[k].address == symbols[symbol].address && symbols[k].declared_size > 0,
{
    let start = section.report.address as int;
    let end = section_end(section.report.address, section.report.size);
    let spans = section_layout(symbols, section);
    lemma_layout_is_partition(symbols, section.index, start, end);
    lemma_partition_bounds(spans, start, end, at);
    let named = law_symbols_start_spans(symbols, section, symbol);
    if named < at {
        lemma_partition_ascends(spans, start, end, named, at);
    } else {
        lemma_partition_ascends(spans, start, end, at, named);
    }
    let owner = law_symbols_own_what_they_declare(symbols, section, named);
    assert(spans[named].stop <= byte);
    assert(symbols[owner].address == symbols[symbol].address);
}

proof fn lemma_gaps_are_whole(symbols: Seq<RawSymbolView>, section: usize, cursor: int, end: int)
    ensures
        forall|i: int, j: int|
            #![trigger layout(symbols, section, cursor, end)[i], layout(
                symbols,
                section,
                cursor,
                end,
            )[j]]
            0 <= i && j == i + 1 && j < layout(symbols, section, cursor, end).len() ==> layout(
                symbols,
                section,
                cursor,
                end,
            )[i].name is Some || layout(symbols, section, cursor, end)[j].name is Some,
    decreases end - cursor,
{
    let start = next_start(symbols, section, cursor, end);
    if cursor <= start < end {
        lemma_owner_stop_bounds(symbols, section, start, end);
        let stop = owner_stop(symbols, section, start, end);
        let opening = gap(cursor, start);
        let rest = layout(symbols, section, stop, end);
        let spans = layout(symbols, section, cursor, end);
        lemma_gaps_are_whole(symbols, section, stop, end);
        assert forall|i: int, j: int|
            #![trigger spans[i], spans[j]]
            0 <= i && j == i + 1 && j < spans.len() implies spans[i].name is Some || spans[j].name
            is Some by {
            let skipped = opening.len() + 1;
            assert(spans[opening.len() as int].name is Some);
            if i >= skipped {
                assert(spans[i] == rest[i - skipped]);
                assert(spans[j] == rest[j - skipped]);
            }
        }
    }
}

/// Bytes that no symbol owns are one span up to the next symbol or the end of the section: of two
/// spans in a row at least one has a name. A section behind the last address has no span.
pub proof fn law_gaps_are_whole(symbols: Seq<RawSymbolView>, section: MemorySectionView)
    ensures
        forall|i: int, j: int|
            #![trigger section_layout(symbols, section)[i], section_layout(symbols, section)[j]]
            0 <= i && j == i + 1 && j < section_layout(symbols, section).len() ==> section_layout(
                symbols,
                section,
            )[i].name is Some || section_layout(symbols, section)[j].name is Some,
        section.report.address == u64::MAX ==> section_layout(symbols, section).len() == 0,
{
    let start = section.report.address as int;
    let end = section_end(section.report.address, section.report.size);
    lemma_gaps_are_whole(symbols, section.index, start, end);
    lemma_next_start(symbols, section.index, start, end);
}

/// Sections do not get into each other's way: one more section adds its own spans, under its name
/// and in its memory, behind those that are there without it.
pub proof fn law_sections_are_laid_out_one_by_one(
    sections: Seq<MemorySectionView>,
    section: MemorySectionView,
    symbols: Seq<RawSymbolView>,
)
    ensures
        ({
            let without = placed_spans(sections, symbols);
            let with = placed_spans(sections.push(section), symbols);
            let own = section_layout(symbols, section);
            &&& with.len() == without.len() + own.len()
            &&& with.take(without.len() as int) == without
            &&& forall|i: int|
                0 <= i < own.len() ==> {
                    let placed = #[trigger] with[without.len() + i];
                    &&& placed.span == own[i]
                    &&& placed.section == section.report.name
                    &&& placed.memory == section.report.memory
                }
        }),
        placed_spans(Seq::<MemorySectionView>::empty(), symbols).len() == 0,
{
    assert(sections.push(section).drop_last() =~= sections);
    let without = placed_spans(sections, symbols);
    let with = placed_spans(sections.push(section), symbols);
    assert(with.take(without.len() as int) =~= without);
}

} // verus!
