//! What the `object` crate reads from the bytes of an object file.
//!
//! The functions marked as trusted here are the only ones that call into `object`. Each hands
//! the sections or symbols over as plain values, and its contract names what it hands over as
//! a function of the bytes of the file.

use crate::section::{SectionEntry, SectionEntryView, SectionFlags};
use crate::symbol::{SymbolEntry, SymbolEntryView, SymbolKind};
use object::{Object, ObjectSection, ObjectSymbol};
use vstd::prelude::*;

verus! {

/// The error with which `object` refuses a file.
#[verifier::external_type_specification]
#[verifier::external_body]
pub struct ExObjectError(object::Error);

/// An object file that `object` has parsed: the collection of its sections and symbols.
#[verifier::external_body]
pub struct ObjectFile<'data> {
    file: object::File<'data>,
}

/// The bytes that an object file was parsed from.
pub uninterp spec fn image_of(file: ObjectFile<'_>) -> Seq<u8>;

/// The error with which `object::File::parse` refuses these bytes, or `None` where it parses them.
/// It depends on the bytes and on the width of a `usize`: counts of more than 32 bits in the header
/// of a file can be refused on a 32-bit machine only.
pub uninterp spec fn parse_error(image: Seq<u8>) -> Option<object::Error>;

/// The variant name of the architecture that `object` finds in the header of these bytes.
pub uninterp spec fn architecture_of(image: Seq<u8>) -> Seq<char>;

/// The sections that `object` lists for these bytes.
pub uninterp spec fn sections_of(image: Seq<u8>) -> Seq<SectionEntryView>;

/// The entries of the symbol table that `object` lists for these bytes.
pub uninterp spec fn symbols_of(image: Seq<u8>) -> Seq<SymbolEntryView>;

/// The entries of the dynamic symbol table that `object` lists for these bytes.
pub uninterp spec fn dynamic_symbols_of(image: Seq<u8>) -> Seq<SymbolEntryView>;

/// Whether the bytes begin as an ELF file does: the magic number, then the class for 32 or
/// for 64 bits.
pub open spec fn has_elf_magic(image: Seq<u8>) -> bool {
    &&& image.len() >= 5
    &&& image[0] == 0x7f
    &&& image[1] == 0x45
    &&& image[2] == 0x4c
    &&& image[3] == 0x46
    &&& image[4] == 1 || image[4] == 2
}

/// Whether the data encoding in the identification of an ELF file is the little-endian one.
pub open spec fn has_little_endian_encoding(image: Seq<u8>) -> bool {
    image.len() >= 6 && image[5] == 1
}

impl<'data> ObjectFile<'data> {
    /// Calls `object::File::parse`. It either gives a file that stands for exactly these bytes,
    /// or refuses them with an error that depends on nothing else, on machines of one width.
    #[verifier::external_body]
    pub(crate) fn parse(bytes: &'data [u8]) -> (result: Result<ObjectFile<'data>, object::Error>)
        ensures
            match result {
                Ok(file) => parse_error(bytes@) is None && image_of(file) == bytes@,
                Err(error) => parse_error(bytes@) == Some(error),
            },
    {
        object::File::parse(bytes).map(|file| ObjectFile { file })
    }

    /// Calls `object::File::format`. The format is ELF exactly when the bytes begin with the
    /// magic number of ELF and a known class, which is how `object` tells the formats apart.
    #[verifier::external_body]
    pub(crate) fn is_elf(&self) -> (elf: bool)
        ensures
            elf == has_elf_magic(image_of(*self)),
    {
        matches!(self.file.format(), object::BinaryFormat::Elf)
    }

    /// Calls `object::Object::architecture` for an ELF file and writes the variant's name as
    /// `Debug` does.
    #[verifier::external_body]
    pub(crate) fn architecture(&self) -> (name: String)
        requires
            has_elf_magic(image_of(*self)),
        ensures
            name@ == architecture_of(image_of(*self)),
    {
        format!("{:?}", self.file.architecture())
    }

    /// Calls `object::Object::is_little_endian`, which for an ELF file looks at the data
    /// encoding in its identification.
    #[verifier::external_body]
    pub(crate) fn is_little_endian(&self) -> (little: bool)
        requires
            has_elf_magic(image_of(*self)),
        ensures
            little == has_little_endian_encoding(image_of(*self)),
    {
        self.file.is_little_endian()
    }

    /// Calls `object::Object::sections` for an ELF file and reads each section through
    /// `object::ObjectSection`. The kind is the variant's name as `Debug` writes it.
    #[verifier::external_body]
    pub(crate) fn sections(&self) -> (sections: Vec<SectionEntry>)
        requires
            has_elf_magic(image_of(*self)),
        ensures
            sections@.map_values(|entry: SectionEntry| entry@) == sections_of(image_of(*self)),
    {
        self.file.sections().map(|section| SectionEntry {
            index: section.index().0,
            name: section.name().ok().map(str::to_string),
            address: section.address(),
            size: section.size(),
            kind: format!("{:?}", section.kind()),
            flags: match section.flags() {
                object::SectionFlags::Elf { sh_flags } => SectionFlags::Elf { sh_flags },
                _ => SectionFlags::Other,
            },
        }).collect()
    }

    /// Calls `object::Object::symbols` for an ELF file and reads each symbol through
    /// `object::ObjectSymbol`. For other formats an address can be a sum that does not fit.
    #[verifier::external_body]
    pub(crate) fn symbols(&self) -> (symbols: Vec<SymbolEntry>)
        requires
            has_elf_magic(image_of(*self)),
        ensures
            symbols@.map_values(|entry: SymbolEntry| entry@) == symbols_of(image_of(*self)),
    {
        self.file.symbols().map(|symbol| SymbolEntry {
            name: symbol.name().ok().map(str::to_string),
            address: symbol.address(),
            size: symbol.size(),
            kind: match symbol.kind() {
                object::SymbolKind::Section => SymbolKind::Section,
                object::SymbolKind::File => SymbolKind::File,
                _ => SymbolKind::Other,
            },
            section: symbol.section_index().map(|index| index.0),
            definition: symbol.is_definition(),
            undefined: symbol.is_undefined(),
        }).collect()
    }

    /// Calls `object::Object::dynamic_symbols` for an ELF file and reads each symbol through
    /// `object::ObjectSymbol`.
    #[verifier::external_body]
    pub(crate) fn dynamic_symbols(&self) -> (symbols: Vec<SymbolEntry>)
        requires
            has_elf_magic(image_of(*self)),
        ensures
            symbols@.map_values(|entry: SymbolEntry| entry@) == dynamic_symbols_of(image_of(*self)),
    {
        self.file.dynamic_symbols().map(|symbol| SymbolEntry {
            name: symbol.name().ok().map(str::to_string),
            address: symbol.address(),
            size: symbol.size(),
            kind: match symbol.kind() {
                object::SymbolKind::Section => SymbolKind::Section,
                object::SymbolKind::File => SymbolKind::File,
                _ => SymbolKind::Other,
            },
            section: symbol.section_index().map(|index| index.0),
            definition: symbol.is_definition(),
            undefined: symbol.is_undefined(),
        }).collect()
    }
}

} // verus!
