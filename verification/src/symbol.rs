//! The symbols of an object file.

use crate::section::{MemorySection, MemorySectionView};
use crate::text::{
    chars_of, decimal, decimal_text, first_char, is_ascii_number, occurs_at, optional_text, stands_at,
};
use vstd::prelude::*;
use vstd::utf8::encode_utf8;

verus! {

/// The kinds of symbol that the analysis tells apart.
#[derive(Clone, Copy, Debug, PartialEq, Eq, Structural)]
pub enum SymbolKind {
    /// The symbol stands for a section.
    Section,
    /// The symbol names a source file.
    File,
    /// Any other kind.
    Other,
}

/// An entry of a symbol table.
#[derive(Clone, Debug)]
pub struct SymbolEntry {
    /// The name as the file holds it, where that is UTF-8 text.
    pub name: Option<String>,
    pub address: u64,
    pub size: u64,
    pub kind: SymbolKind,
    /// The index of the section that the symbol lies in.
    pub section: Option<usize>,
    /// Whether the symbol defines a function or a data object.
    pub definition: bool,
    /// Whether the symbol is left to another file to define.
    pub undefined: bool,
}

/// What a [`SymbolEntry`] holds.
pub struct SymbolEntryView {
    pub name: Option<Seq<char>>,
    pub address: u64,
    pub size: u64,
    pub kind: SymbolKind,
    pub section: Option<usize>,
    pub definition: bool,
    pub undefined: bool,
}

impl View for SymbolEntry {
    type V = SymbolEntryView;

    open spec fn view(&self) -> SymbolEntryView {
        SymbolEntryView {
            name: optional_text(self.name),
            address: self.address,
            size: self.size,
            kind: self.kind,
            section: self.section,
            definition: self.definition,
            undefined: self.undefined,
        }
    }
}

/// How the C++ scheme writes the template parameter with the largest number that an `isize`
/// holds.
pub open spec fn last_template_parameter() -> Seq<char> {
    seq!['T'] + decimal(isize::MAX as nat)
}

/// Whether a name refers to that template parameter at this position. With one more digit the
/// number would be too large for the C++ scheme.
pub open spec fn is_last_template_parameter_at(name: Seq<char>, at: int) -> bool {
    let end = at + last_template_parameter().len();
    &&& occurs_at(name, last_template_parameter(), at)
    &&& end < name.len() ==> !is_ascii_number(name[end])
}

/// Whether a name refers to that template parameter anywhere. The C++ scheme counts parameters
/// from one more than the number that is written, so it has no count for this one.
pub open spec fn has_last_template_parameter(name: Seq<char>) -> bool {
    exists|at: int| #[trigger] is_last_template_parameter_at(name, at)
}

/// The readable form that `addr2line::demangle_auto` finds for a mangled name on a machine whose
/// largest `isize` is `largest`: names with numbers of more than 31 bits can have another form on
/// a 32-bit machine than on a 64-bit one.
pub uninterp spec fn demangled(name: Seq<char>, largest: int) -> Seq<char>;

/// The readable form that `addr2line::demangle` finds for a name by the Rust scheme on a machine
/// whose largest `isize` is `largest`; `None` where the name is not mangled by it.
pub uninterp spec fn rust_demangled(name: Seq<char>, largest: int) -> Option<Seq<char>>;

/// Calls `addr2line::demangle` for the language Rust. The readable form depends on the name and on
/// the width of the machine alone.
#[verifier::external_body]
fn demangle_rust(name: &str) -> (readable: Option<String>)
    ensures
        optional_text(readable) == rust_demangled(name@, isize::MAX as int),
{
    addr2line::demangle(name, addr2line::gimli::DW_LANG_Rust)
}

/// Calls `addr2line::demangle_auto` without a language. The readable form depends on the name and
/// on the width of the machine alone; a name that neither the Rust nor the C++ scheme explains
/// comes back as it is. Names with a template parameter that cannot be counted are left out: the
/// C++ scheme adds one to its number.
#[verifier::external_body]
fn demangle(name: &str) -> (readable: String)
    requires
        !has_last_template_parameter(name@),
    ensures
        readable@ == demangled(name@, isize::MAX as int),
{
    addr2line::demangle_auto(name.into(), None).into_owned()
}

/// The name by which the report shows a symbol. A name that the C++ scheme cannot be tried on is
/// shown as the Rust scheme reads it, or else as it is.
pub open spec fn readable_name(name: Seq<char>) -> Seq<char> {
    if has_last_template_parameter(name) {
        match rust_demangled(name, isize::MAX as int) {
            Some(readable) => readable,
            None => name,
        }
    } else {
        demangled(name, isize::MAX as int)
    }
}

/// Whether a name refers to the last template parameter.
pub fn names_last_template_parameter(name: &str) -> (found: bool)
    ensures
        found == has_last_template_parameter(name@),
{
    let chars = chars_of(name);
    let mut pattern: Vec<char> = Vec::new();
    pattern.push('T');
    let mut digits = chars_of(decimal_text(isize::MAX as u64).as_str());
    pattern.append(&mut digits);
    assert(pattern@ =~= last_template_parameter());
    for at in 0..chars.len()
        invariant
            chars@ == name@,
            pattern@ == last_template_parameter(),
            forall|earlier: int|
                0 <= earlier < at ==> !#[trigger] is_last_template_parameter_at(name@, earlier),
    {
        if stands_at(chars.as_slice(), pattern.as_slice(), at) {
            let end: usize = at + pattern.len();
            if end == chars.len() || !('0' <= chars[end] && chars[end] <= '9') {
                assert(is_last_template_parameter_at(name@, at as int));
                return true;
            }
        }
    }
    false
}

/// The name by which the report shows a symbol.
fn show_name(name: &str) -> (shown: String)
    ensures
        shown@ == readable_name(name@),
{
    if names_last_template_parameter(name) {
        match demangle_rust(name) {
            Some(readable) => readable,
            None => name.to_string(),
        }
    } else {
        demangle(name)
    }
}

/// A symbol that can own bytes of a section.
#[derive(Clone, Debug)]
pub struct RawSymbol {
    /// The index of the section.
    pub section: usize,
    /// The readable name.
    pub name: String,
    pub address: u64,
    /// The size that the symbol table gives; zero where it gives none.
    pub declared_size: u64,
}

/// What a [`RawSymbol`] holds.
pub struct RawSymbolView {
    pub section: usize,
    pub name: Seq<char>,
    pub address: u64,
    pub declared_size: u64,
}

impl View for RawSymbol {
    type V = RawSymbolView;

    open spec fn view(&self) -> RawSymbolView {
        RawSymbolView {
            section: self.section,
            name: self.name@,
            address: self.address,
            declared_size: self.declared_size,
        }
    }
}

/// Whether one of the sections has this index.
pub open spec fn has_section(sections: Seq<MemorySectionView>, index: usize) -> bool {
    exists|i: int| 0 <= i < sections.len() && (#[trigger] sections[i]).index == index
}

/// An address with its lowest bit cleared.
pub open spec fn without_thumb_bit(address: u64) -> u64 {
    (address - address % 2) as u64
}

/// The symbol that an entry of a symbol table stands for, if it can own bytes of one of the
/// sections: it must define something in that section and have a name.
pub open spec fn raw_symbol(
    entry: SymbolEntryView,
    sections: Seq<MemorySectionView>,
    clear_thumb_bit: bool,
) -> Option<RawSymbolView> {
    if !entry.definition || entry.undefined || entry.kind == SymbolKind::Section || entry.kind
        == SymbolKind::File {
        None
    } else {
        match (entry.section, entry.name) {
            (Some(section), Some(name)) => if has_section(sections, section) && name.len() > 0 {
                Some(
                    RawSymbolView {
                        section,
                        name: readable_name(name),
                        address: if clear_thumb_bit {
                            without_thumb_bit(entry.address)
                        } else {
                            entry.address
                        },
                        declared_size: entry.size,
                    },
                )
            } else {
                None
            },
            _ => None,
        }
    }
}

/// The symbols that the entries stand for, in the order of the table.
pub open spec fn raw_symbols(
    entries: Seq<SymbolEntryView>,
    sections: Seq<MemorySectionView>,
    clear_thumb_bit: bool,
) -> Seq<RawSymbolView> {
    entries.filter_map(|entry: SymbolEntryView| raw_symbol(entry, sections, clear_thumb_bit))
}

/// Whether one of the sections has this index.
fn find_section(sections: &[MemorySection], index: usize) -> (found: bool)
    ensures
        found == has_section(sections@.map_values(|section: MemorySection| section@), index),
{
    let ghost all = sections@.map_values(|section: MemorySection| section@);
    for i in 0..sections.len()
        invariant
            all == sections@.map_values(|section: MemorySection| section@),
            forall|j: int| 0 <= j < i ==> (#[trigger] all[j]).index != index,
    {
        assert(all[i as int] == sections[i as int]@);
        if sections[i].index == index {
            return true;
        }
    }
    false
}

/// The symbol that an entry of a symbol table stands for, if it can own bytes.
pub fn read_symbol(
    entry: &SymbolEntry,
    sections: &[MemorySection],
    clear_thumb_bit: bool,
) -> (symbol: Option<RawSymbol>)
    ensures
        (match symbol {
            Some(symbol) => Some(symbol@),
            None => None,
        }) == raw_symbol(
            entry@,
            sections@.map_values(|section: MemorySection| section@),
            clear_thumb_bit,
        ),
{
    if !entry.definition || entry.undefined || matches!(
        entry.kind,
        SymbolKind::Section | SymbolKind::File
    ) {
        return None;
    }
    let section: usize = match entry.section {
        Some(section) => section,
        None => return None,
    };
    if !find_section(sections, section) {
        return None;
    }
    let name = match &entry.name {
        Some(name) => name,
        None => return None,
    };
    if name.as_str().is_empty() {
        return None;
    }
    let raw: u64 = entry.address;
    assert(raw & !1u64 == raw - raw % 2) by (bit_vector);
    let address: u64 = if clear_thumb_bit {
        raw & !1
    } else {
        raw
    };
    Some(
        RawSymbol {
            section,
            name: show_name(name.as_str()),
            address,
            declared_size: entry.size,
        },
    )
}

/// The symbols that can own bytes: those of the symbol table, then those of the dynamic one.
pub fn collect_symbols(
    entries: &[SymbolEntry],
    dynamic_entries: &[SymbolEntry],
    sections: &[MemorySection],
    clear_thumb_bit: bool,
) -> (symbols: Vec<RawSymbol>)
    ensures
        symbols@.map_values(|symbol: RawSymbol| symbol@) == raw_symbols(
            entries@.map_values(|entry: SymbolEntry| entry@) + dynamic_entries@.map_values(
                |entry: SymbolEntry| entry@,
            ),
            sections@.map_values(|section: MemorySection| section@),
            clear_thumb_bit,
        ),
{
    let ghost placed = sections@.map_values(|section: MemorySection| section@);
    let ghost main = entries@.map_values(|entry: SymbolEntry| entry@);
    let ghost all = main + dynamic_entries@.map_values(|entry: SymbolEntry| entry@);
    let mut symbols: Vec<RawSymbol> = Vec::new();
    for i in 0..entries.len()
        invariant
            placed == sections@.map_values(|section: MemorySection| section@),
            main == entries@.map_values(|entry: SymbolEntry| entry@),
            all == main + dynamic_entries@.map_values(|entry: SymbolEntry| entry@),
            symbols@.map_values(|symbol: RawSymbol| symbol@) == raw_symbols(
                all.take(i as int),
                placed,
                clear_thumb_bit,
            ),
    {
        let ghost before = symbols@;
        proof {
            assert(all.take(i + 1).drop_last() =~= all.take(i as int));
            assert(all.take(i + 1).last() == entries[i as int]@);
        }
        if let Some(symbol) = read_symbol(&entries[i], sections, clear_thumb_bit) {
            symbols.push(symbol);
            assert(symbols@.map_values(|symbol: RawSymbol| symbol@) =~= before.map_values(
                |symbol: RawSymbol| symbol@,
            ) + seq![symbol@]);
        }
    }
    for i in 0..dynamic_entries.len()
        invariant
            placed == sections@.map_values(|section: MemorySection| section@),
            main.len() == entries.len(),
            all == main + dynamic_entries@.map_values(|entry: SymbolEntry| entry@),
            symbols@.map_values(|symbol: RawSymbol| symbol@) == raw_symbols(
                all.take(main.len() + i),
                placed,
                clear_thumb_bit,
            ),
    {
        let ghost before = symbols@;
        proof {
            assert(all.take(main.len() + i + 1).drop_last() =~= all.take(main.len() + i));
            assert(all.take(main.len() + i + 1).last() == dynamic_entries[i as int]@);
        }
        if let Some(symbol) = read_symbol(&dynamic_entries[i], sections, clear_thumb_bit) {
            symbols.push(symbol);
            assert(symbols@.map_values(|symbol: RawSymbol| symbol@) =~= before.map_values(
                |symbol: RawSymbol| symbol@,
            ) + seq![symbol@]);
        }
    }
    assert(all.take(all.len() as int) =~= all);
    symbols
}

/// Whether a name begins with a dot.
pub open spec fn is_dotted(name: Seq<char>) -> bool {
    name.len() > 0 && name[0] == '.'
}

/// Whether `other` is at least as good a name for a shared address as `symbol`: it declares
/// more bytes; or as many, and its name has no leading dot where the other's has; or else its
/// name takes no more bytes.
pub open spec fn no_better(symbol: RawSymbolView, other: RawSymbolView) -> bool {
    if symbol.declared_size != other.declared_size {
        symbol.declared_size < other.declared_size
    } else if is_dotted(symbol.name) != is_dotted(other.name) {
        is_dotted(symbol.name)
    } else {
        encode_utf8(symbol.name).len() >= encode_utf8(other.name).len()
    }
}

/// Whether the symbol at `chosen` is the best name for an address that all of these share, and
/// the last of those that are equally good.
pub open spec fn is_best(symbols: Seq<RawSymbolView>, chosen: int) -> bool {
    &&& 0 <= chosen < symbols.len()
    &&& forall|i: int|
        0 <= i < symbols.len() ==> no_better(#[trigger] symbols[i], symbols[chosen]) && (no_better(
            symbols[chosen],
            symbols[i],
        ) ==> i <= chosen)
}

/// Whether `other` is at least as good a name as `symbol`.
fn is_no_better(symbol: &RawSymbol, other: &RawSymbol) -> (result: bool)
    ensures
        result == no_better(symbol@, other@),
{
    let dotted = match first_char(symbol.name.as_str()) {
        Some(ch) => ch == '.',
        None => false,
    };
    let other_dotted = match first_char(other.name.as_str()) {
        Some(ch) => ch == '.',
        None => false,
    };
    if symbol.declared_size != other.declared_size {
        symbol.declared_size < other.declared_size
    } else if dotted != other_dotted {
        dotted
    } else {
        symbol.name.as_str().as_bytes().len() >= other.name.as_str().as_bytes().len()
    }
}

/// The symbol by which an address goes that all of these symbols share.
pub fn choose_symbol(symbols: &[RawSymbol]) -> (symbol: &RawSymbol)
    requires
        symbols.len() > 0,
    ensures
        exists|chosen: int|
            is_best(symbols@.map_values(|symbol: RawSymbol| symbol@), chosen) && *symbol
                == #[trigger] symbols@[chosen],
{
    let ghost all = symbols@.map_values(|symbol: RawSymbol| symbol@);
    let mut best: usize = 0;
    for i in 1..symbols.len()
        invariant
            all == symbols@.map_values(|symbol: RawSymbol| symbol@),
            best < i <= symbols.len(),
            is_best(all.take(i as int), best as int),
    {
        let ghost earlier = all.take(i as int);
        let ghost now = all.take(i + 1);
        proof {
            assert(now =~= earlier.push(symbols[i as int]@));
            assert(earlier[best as int] == symbols[best as int]@);
            assert forall|j: int| 0 <= j < i implies now[j] == #[trigger] earlier[j] by {}
        }
        if is_no_better(&symbols[best], &symbols[i]) {
            best = i;
        }
    }
    assert(all.take(all.len() as int) =~= all);
    assert(symbols@[best as int]@ == all[best as int]);
    &symbols[best]
}

} // verus!
