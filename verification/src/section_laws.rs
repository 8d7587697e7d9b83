//! What holds of every section table: which sections take memory, what kind of memory each takes,
//! and what they amount to.

use crate::memory::{MemoryKind, MemoryTotals};
use crate::section::{
    are_totals_of, memory_kind, memory_sections, section_bytes, section_kind_named, totals_fit,
    MemorySectionView, SectionEntryView, SectionFlags, SectionKind,
};
use crate::text::{ascii_lowercase, ascii_lowercase_char, occurs, occurs_at};
use vstd::prelude::*;

verus! {

/// Whether an entry of a section table takes memory: it is not empty, and it is an ELF section
/// with the second lowest bit of its flags set, or a section of another format of one of the
/// kinds that are loaded.
pub open spec fn takes_memory(entry: SectionEntryView) -> bool {
    &&& entry.size > 0
    &&& match entry.flags {
        SectionFlags::Elf { sh_flags } => (sh_flags / 2) % 2 == 1,
        SectionFlags::Other => {
            ||| entry.kind == "Text"@
            ||| entry.kind == "Data"@
            ||| entry.kind == "ReadOnlyData"@
            ||| entry.kind == "ReadOnlyString"@
            ||| entry.kind == "UninitializedData"@
            ||| entry.kind == "Common"@
            ||| entry.kind == "Tls"@
            ||| entry.kind == "UninitializedTls"@
        },
    }
}

/// The bits of the flags that count, one by one.
proof fn lemma_flag_bits(flags: u64)
    ensures
        (flags & 1 != 0) == (flags % 2 == 1),
        (flags & 2 != 0) == ((flags / 2) % 2 == 1),
        (flags & 4 != 0) == ((flags / 4) % 2 == 1),
{
    assert((flags & 1 != 0) == (flags % 2 == 1)) by (bit_vector);
    assert((flags & 2 != 0) == ((flags / 2) % 2 == 1)) by (bit_vector);
    assert((flags & 4 != 0) == ((flags / 4) % 2 == 1)) by (bit_vector);
}

/// Whether the flags are those of an ELF section for machine code.
pub open spec fn holds_code(entry: SectionEntryView) -> bool {
    match entry.flags {
        SectionFlags::Elf { sh_flags } => (sh_flags / 4) % 2 == 1,
        SectionFlags::Other => false,
    }
}

/// Whether the flags are those of an ELF section that is written to.
pub open spec fn is_written(entry: SectionEntryView) -> bool {
    match entry.flags {
        SectionFlags::Elf { sh_flags } => sh_flags % 2 == 1,
        SectionFlags::Other => false,
    }
}

/// Sections are reported one by one: one more entry leaves those in front as they are, and is
/// reported behind them exactly if it takes memory, with its own index, address, size and kind,
/// and with its name where it has one.
pub proof fn law_every_section_in_memory_is_reported(
    entries: Seq<SectionEntryView>,
    entry: SectionEntryView,
)
    ensures
        memory_sections(Seq::<SectionEntryView>::empty()).len() == 0,
        !takes_memory(entry) ==> memory_sections(entries.push(entry)) == memory_sections(entries),
        takes_memory(entry) ==> {
            let without = memory_sections(entries);
            let with = memory_sections(entries.push(entry));
            let last = with[without.len() as int];
            &&& with.len() == without.len() + 1
            &&& with.take(without.len() as int) == without
            &&& last.index == entry.index
            &&& last.report.address == entry.address
            &&& last.report.size == entry.size
            &&& last.report.kind == entry.kind
            &&& entry.name is Some ==> last.report.name == entry.name.unwrap()
            &&& entry.name is None ==> last.report.name == "<unnamed>"@
            &&& last.report.memory == memory_kind(
                last.report.name,
                section_kind_named(entry.kind),
                holds_code(entry),
                is_written(entry),
            )
        },
{
    match entry.flags {
        SectionFlags::Elf { sh_flags } => {
            lemma_flag_bits(sh_flags);
        },
        SectionFlags::Other => {},
    }
    assert(entries.push(entry).drop_last() =~= entries);
    let without = memory_sections(entries);
    let with = memory_sections(entries.push(entry));
    if takes_memory(entry) {
        assert(with.take(without.len() as int) =~= without);
    }
}

/// The bytes of the entries that take memory.
pub open spec fn loaded_bytes(entries: Seq<SectionEntryView>) -> int
    decreases entries.len(),
{
    if entries.len() == 0 {
        0
    } else {
        loaded_bytes(entries.drop_last()) + if takes_memory(entries.last()) {
            entries.last().size as int
        } else {
            0
        }
    }
}

/// The bytes of the sections in memory of one kind, counted from the first section on.
pub open spec fn bytes_in(sections: Seq<MemorySectionView>, kind: MemoryKind) -> int
    decreases sections.len(),
{
    if sections.len() == 0 {
        0
    } else {
        bytes_in(sections.drop_first(), kind) + if sections[0].report.memory == kind {
            sections[0].report.size as int
        } else {
            0
        }
    }
}

proof fn lemma_bytes_in_push(
    sections: Seq<MemorySectionView>,
    section: MemorySectionView,
    kind: MemoryKind,
)
    ensures
        bytes_in(sections.push(section), kind) == bytes_in(sections, kind)
            + if section.report.memory == kind {
            section.report.size as int
        } else {
            0
        },
    decreases sections.len(),
{
    if sections.len() == 0 {
        assert(sections.push(section).drop_first() =~= sections);
    } else {
        assert(sections.push(section).drop_first() =~= sections.drop_first().push(section));
        lemma_bytes_in_push(sections.drop_first(), section, kind);
    }
}

proof fn lemma_bytes_in(sections: Seq<MemorySectionView>, kind: MemoryKind)
    ensures
        section_bytes(sections, kind) == bytes_in(sections, kind),
    decreases sections.len(),
{
    if sections.len() > 0 {
        lemma_bytes_in(sections.drop_last(), kind);
        lemma_bytes_in_push(sections.drop_last(), sections.last(), kind);
        assert(sections.drop_last().push(sections.last()) =~= sections);
    }
}

/// Totals count each section once, under its kind of memory. Flash is text and data, RAM is data
/// and bss, and totals exist exactly where both fit.
pub proof fn law_totals_count_each_section_once(
    totals: MemoryTotals,
    sections: Seq<MemorySectionView>,
)
    ensures
        totals_fit(sections) <==> {
            &&& bytes_in(sections, MemoryKind::Text) + bytes_in(sections, MemoryKind::Data)
                <= u64::MAX
            &&& bytes_in(sections, MemoryKind::Data) + bytes_in(sections, MemoryKind::Bss)
                <= u64::MAX
        },
        are_totals_of(totals, sections) <==> {
            &&& totals.text == bytes_in(sections, MemoryKind::Text)
            &&& totals.data == bytes_in(sections, MemoryKind::Data)
            &&& totals.bss == bytes_in(sections, MemoryKind::Bss)
            &&& totals.flash == totals.text + totals.data
            &&& totals.ram == totals.data + totals.bss
        },
{
    lemma_bytes_in(sections, MemoryKind::Text);
    lemma_bytes_in(sections, MemoryKind::Data);
    lemma_bytes_in(sections, MemoryKind::Bss);
}

proof fn lemma_loaded_bytes(entries: Seq<SectionEntryView>)
    ensures
        loaded_bytes(entries) == section_bytes(memory_sections(entries), MemoryKind::Text)
            + section_bytes(memory_sections(entries), MemoryKind::Data) + section_bytes(
            memory_sections(entries),
            MemoryKind::Bss,
        ),
    decreases entries.len(),
{
    if entries.len() > 0 {
        let front = entries.drop_last();
        let with = memory_sections(entries);
        lemma_loaded_bytes(front);
        law_every_section_in_memory_is_reported(front, entries.last());
        assert(front.push(entries.last()) =~= entries);
        if takes_memory(entries.last()) {
            assert(with.drop_last() =~= memory_sections(front));
        }
    }
}

/// Every byte that is loaded counts: the totals add up to the sizes of the entries of the section
/// table that take memory.
pub proof fn law_every_loaded_byte_counts(totals: MemoryTotals, entries: Seq<SectionEntryView>)
    requires
        are_totals_of(totals, memory_sections(entries)),
    ensures
        totals.text + totals.data + totals.bss == loaded_bytes(entries),
{
    lemma_loaded_bytes(entries);
}

/// Whether a name reads like a text in small letters when the capitals of ASCII are taken for small
/// ones, from position `at` on.
pub open spec fn reads_like(name: Seq<char>, at: int, text: Seq<char>) -> bool {
    &&& 0 <= at
    &&& at + text.len() <= name.len()
    &&& forall|i: int|
        0 <= i < text.len() ==> {
            let ch = #[trigger] name[at + i];
            ||| ch == text[i] && !('A' <= ch && ch <= 'Z')
            ||| 'A' <= ch && ch <= 'Z' && ch as int + 32 == text[i] as int
        }
}

/// Whether a name speaks for memory without contents: `.bss`, `.noinit`, all that begins with
/// `.bss.`, and all that has `stack` in it.
pub open spec fn speaks_for_bss(name: Seq<char>) -> bool {
    ||| name.len() == 4 && reads_like(name, 0, ".bss"@)
    ||| name.len() == 7 && reads_like(name, 0, ".noinit"@)
    ||| reads_like(name, 0, ".bss."@)
    ||| exists|at: int| #[trigger] reads_like(name, at, "stack"@)
}

/// Whether a name speaks for memory with contents: `.data`, `.relocate`, and all that begins with
/// `.data.`.
pub open spec fn speaks_for_data(name: Seq<char>) -> bool {
    ||| name.len() == 5 && reads_like(name, 0, ".data"@)
    ||| name.len() == 9 && reads_like(name, 0, ".relocate"@)
    ||| reads_like(name, 0, ".data."@)
}

proof fn lemma_lowercase_char(ch: char)
    ensures
        'A' <= ch && ch <= 'Z' ==> ascii_lowercase_char(ch) as int == ch as int + 32,
        !('A' <= ch && ch <= 'Z') ==> ascii_lowercase_char(ch) == ch,
{
}

proof fn lemma_reads_like(name: Seq<char>, at: int, text: Seq<char>)
    requires
        forall|i: int| 0 <= i < text.len() ==> !('A' <= #[trigger] text[i] && text[i] <= 'Z'),
    ensures
        reads_like(name, at, text) == occurs_at(
            ascii_lowercase(name),
            text,
            at,
        ),
{
    let lower = ascii_lowercase(name);
    if 0 <= at && at + text.len() <= name.len() {
        let part = lower.subrange(at, at + text.len());
        if reads_like(name, at, text) {
            assert forall|i: int| 0 <= i < text.len() implies part[i] == text[i] by {
                lemma_lowercase_char(name[at + i]);
            }
            assert(part =~= text);
        }
        if part == text {
            assert forall|i: int| 0 <= i < text.len() implies {
                let ch = #[trigger] name[at + i];
                ||| ch == text[i] && !('A' <= ch && ch <= 'Z')
                ||| 'A' <= ch && ch <= 'Z' && ch as int + 32 == text[i] as int
            } by {
                lemma_lowercase_char(name[at + i]);
                assert(part[i] == text[i]);
            }
        }
    }
}

proof fn lemma_reads_wholly_like(name: Seq<char>, text: Seq<char>)
    requires
        forall|i: int| 0 <= i < text.len() ==> !('A' <= #[trigger] text[i] && text[i] <= 'Z'),
    ensures
        (name.len() == text.len() && reads_like(name, 0, text)) == (ascii_lowercase(
            name,
        ) == text),
        reads_like(name, 0, text) == text.is_prefix_of(ascii_lowercase(name)),
{
    let lower = ascii_lowercase(name);
    lemma_reads_like(name, 0, text);
    if name.len() == text.len() {
        assert(lower.subrange(0, text.len() as int) =~= lower);
    }
}

/// What kind of memory a section takes: machine code is text, whatever it is called. What has no
/// contents, by its kind or by its name, is bss. What is written to, or holds data by its kind or by
/// its name, is data. All else is text.
pub proof fn law_memory_goes_by_flags_kind_and_name(
    name: Seq<char>,
    kind: SectionKind,
    executable: bool,
    writable: bool,
)
    ensures
        ({
            let memory = memory_kind(name, kind, executable, writable);
            let code = executable || kind is Text;
            let empty = kind is UninitializedData || kind is UninitializedTls || kind is Common
                || speaks_for_bss(name);
            let filled = writable || kind is Data || kind is Tls || speaks_for_data(name);
            &&& memory is Bss <==> !code && empty
            &&& memory is Data <==> !code && !empty && filled
            &&& memory is Text <==> code || !empty && !filled
        }),
{
    reveal_strlit(".bss");
    reveal_strlit(".noinit");
    reveal_strlit(".bss.");
    reveal_strlit("stack");
    reveal_strlit(".data");
    reveal_strlit(".relocate");
    reveal_strlit(".data.");
    lemma_reads_wholly_like(name, ".bss"@);
    lemma_reads_wholly_like(name, ".noinit"@);
    lemma_reads_wholly_like(name, ".bss."@);
    lemma_reads_wholly_like(name, ".data"@);
    lemma_reads_wholly_like(name, ".relocate"@);
    lemma_reads_wholly_like(name, ".data."@);
    let lower = ascii_lowercase(name);
    assert forall|at: int| reads_like(name, at, "stack"@) == #[trigger] occurs_at(
        lower,
        "stack"@,
        at,
    ) by {
        lemma_reads_like(name, at, "stack"@);
    }
    assert(occurs(lower, "stack"@) <==> exists|at: int|
        #[trigger] reads_like(name, at, "stack"@)) by {
        if exists|at: int| #[trigger] reads_like(name, at, "stack"@) {
            let at = choose|at: int| #[trigger] reads_like(name, at, "stack"@);
            assert(occurs_at(lower, "stack"@, at));
        }
        if occurs(lower, "stack"@) {
            let at = choose|at: int| occurs_at(lower, "stack"@, at);
            assert(reads_like(name, at, "stack"@));
        }
    }
}

/// Kinds of section go by the names that they are written with, and no others.
pub proof fn law_section_kinds_go_by_their_names(name: Seq<char>)
    ensures
        section_kind_named(name) is Text <==> name == "Text"@,
        section_kind_named(name) is Data <==> name == "Data"@,
        section_kind_named(name) is ReadOnlyData <==> name == "ReadOnlyData"@,
        section_kind_named(name) is ReadOnlyString <==> name == "ReadOnlyString"@,
        section_kind_named(name) is UninitializedData <==> name == "UninitializedData"@,
        section_kind_named(name) is Common <==> name == "Common"@,
        section_kind_named(name) is Tls <==> name == "Tls"@,
        section_kind_named(name) is UninitializedTls <==> name == "UninitializedTls"@,
{
    reveal_strlit("Text");
    reveal_strlit("Data");
    reveal_strlit("ReadOnlyData");
    reveal_strlit("ReadOnlyString");
    reveal_strlit("UninitializedData");
    reveal_strlit("Common");
    reveal_strlit("Tls");
    reveal_strlit("UninitializedTls");
    assert("Text"@[0] == 'T' && "Data"@[0] == 'D');
    assert("Text"@.len() == 4 && "Data"@.len() == 4 && "ReadOnlyData"@.len() == 12
        && "ReadOnlyString"@.len() == 14 && "UninitializedData"@.len() == 17 && "Common"@.len() == 6
        && "Tls"@.len() == 3 && "UninitializedTls"@.len() == 16);
}

} // verus!
