//! What holds of every symbol table: which entries can own bytes, and where they lie.

use crate::section::MemorySectionView;
use crate::symbol::{
    demangled, has_last_template_parameter, is_best, is_last_template_parameter_at,
    last_template_parameter, no_better, raw_symbol, raw_symbols, readable_name, rust_demangled,
    RawSymbolView, SymbolEntryView, SymbolKind,
};
use crate::text::decimal;
use crate::text_laws::{are_digits, digits_value, law_numbers_are_written_in_decimal};
use vstd::prelude::*;
use vstd::utf8::encode_utf8;

verus! {

/// Whether an entry of a symbol table can own bytes of one of the sections: it defines something
/// that is neither a section nor a file, lies in one of the sections, and has a name.
pub open spec fn can_own_bytes(entry: SymbolEntryView, sections: Seq<MemorySectionView>) -> bool {
    &&& entry.definition
    &&& !entry.undefined
    &&& entry.kind == SymbolKind::Other
    &&& entry.name is Some
    &&& entry.name.unwrap().len() > 0
    &&& entry.section is Some
    &&& exists|i: int|
        0 <= i < sections.len() && (#[trigger] sections[i]).index == entry.section.unwrap()
}

/// Symbols are read one by one: one more entry leaves those in front as they are, and comes behind
/// them exactly if it can own bytes, with its own section and size. Its address is the one in the
/// table, made even where the Thumb bit is cleared.
pub proof fn law_every_owner_is_read(
    entries: Seq<SymbolEntryView>,
    entry: SymbolEntryView,
    sections: Seq<MemorySectionView>,
    clear_thumb_bit: bool,
)
    ensures
        raw_symbols(Seq::<SymbolEntryView>::empty(), sections, clear_thumb_bit).len() == 0,
        raw_symbol(entry, sections, clear_thumb_bit) is Some <==> can_own_bytes(entry, sections),
        !can_own_bytes(entry, sections) ==> raw_symbols(
            entries.push(entry),
            sections,
            clear_thumb_bit,
        ) == raw_symbols(entries, sections, clear_thumb_bit),
        can_own_bytes(entry, sections) ==> {
            let without = raw_symbols(entries, sections, clear_thumb_bit);
            let with = raw_symbols(entries.push(entry), sections, clear_thumb_bit);
            let last = with[without.len() as int];
            &&& with.len() == without.len() + 1
            &&& with.take(without.len() as int) == without
            &&& raw_symbol(entry, sections, clear_thumb_bit) == Some(last)
            &&& last.section == entry.section.unwrap()
            &&& last.declared_size == entry.size
            &&& last.name == readable_name(entry.name.unwrap())
            &&& !clear_thumb_bit ==> last.address == entry.address
            &&& clear_thumb_bit ==> last.address % 2 == 0 && last.address <= entry.address
                <= last.address + 1
        },
{
    assert(entries.push(entry).drop_last() =~= entries);
    let without = raw_symbols(entries, sections, clear_thumb_bit);
    let with = raw_symbols(entries.push(entry), sections, clear_thumb_bit);
    if can_own_bytes(entry, sections) {
        assert(with.take(without.len() as int) =~= without);
    }
}

/// Names are demangled. The only names that are not handed to the demangler are those with a `T`
/// in front of the digits of the largest `isize`; they are shown as the Rust scheme reads them, or
/// as they are where it does not apply.
pub proof fn law_names_are_demangled(name: Seq<char>)
    ensures
        (forall|at: int, end: int|
            #![trigger name.subrange(at + 1, end)]
            0 <= at < end <= name.len() && name[at] == 'T' && are_digits(name.subrange(at + 1, end))
                && (end < name.len() ==> !('0' <= name[end] && name[end] <= '9')) ==> digits_value(
                name.subrange(at + 1, end),
            ) != isize::MAX) ==> readable_name(name) == demangled(name, isize::MAX as int),
        readable_name(name) == demangled(name, isize::MAX as int) || match rust_demangled(
            name,
            isize::MAX as int,
        ) {
            Some(readable) => readable_name(name) == readable,
            None => readable_name(name) == name,
        },
{
    if has_last_template_parameter(name) {
        let pattern = last_template_parameter();
        let digits = decimal(isize::MAX as nat);
        let at = choose|at: int| #[trigger] is_last_template_parameter_at(name, at);
        let end = at + pattern.len();
        let part = name.subrange(at, end);
        law_numbers_are_written_in_decimal(isize::MAX as nat);
        assert(part[0] == name[at]);
        assert(name.subrange(at + 1, end) =~= digits) by {
            assert(pattern.skip(1) =~= digits);
            assert(part.skip(1) =~= name.subrange(at + 1, end));
        }
    }
}

/// The best name for an address: it has the most bytes, then no leading dot if any has none, then
/// the fewest bytes in the name, and comes last of those that are equal in all that.
pub proof fn law_best_name_has_most_bytes(symbols: Seq<RawSymbolView>, chosen: int)
    requires
        0 <= chosen < symbols.len(),
    ensures
        is_best(symbols, chosen) <==> forall|k: int|
            0 <= k < symbols.len() ==> {
                let other = #[trigger] symbols[k];
                let best = symbols[chosen];
                let dotted = other.name.len() > 0 && other.name[0] == '.';
                let best_dotted = best.name.len() > 0 && best.name[0] == '.';
                let length = encode_utf8(other.name).len();
                let best_length = encode_utf8(best.name).len();
                &&& other.declared_size <= best.declared_size
                &&& other.declared_size == best.declared_size ==> {
                    &&& best_dotted ==> dotted
                    &&& best_dotted == dotted ==> {
                        &&& best_length <= length
                        &&& best_length == length ==> k <= chosen
                    }
                }
            },
{
    if is_best(symbols, chosen) {
        assert forall|k: int| 0 <= k < symbols.len() implies {
            let other = #[trigger] symbols[k];
            let best = symbols[chosen];
            let dotted = other.name.len() > 0 && other.name[0] == '.';
            let best_dotted = best.name.len() > 0 && best.name[0] == '.';
            let length = encode_utf8(other.name).len();
            let best_length = encode_utf8(best.name).len();
            &&& other.declared_size <= best.declared_size
            &&& other.declared_size == best.declared_size ==> {
                &&& best_dotted ==> dotted
                &&& best_dotted == dotted ==> {
                    &&& best_length <= length
                    &&& best_length == length ==> k <= chosen
                }
            }
        } by {
            assert(no_better(symbols[k], symbols[chosen]));
        }
    }
}

} // verus!
