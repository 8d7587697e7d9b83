//! ELF size analysis and self-contained HTML visualization.
//!
//! The library takes the bytes of an ELF file apart into sections and symbols, accounts for every
//! allocated byte, and renders the result as an HTML page. It parses ELF files directly and does
//! not require GNU `nm`, `size`, a linker map, Python, or a web server.
//!
//! Every function states in its contract what it returns. The modules go from the parts to the
//! whole: [`text`] and [`order`] know nothing of ELF; [`memory`], [`section`], [`symbol`],
//! [`layout`], [`source_path`] and [`crate_name`] each decide one thing; [`analysis`] puts them
//! together. [`object_file`] is the way to the `object` crate, and [`location`] says what a lookup
//! in debug information means. [`render`] writes the page, [`summary`] the table for a terminal,
//! and [`cargo`] finds the executable of a Cargo project in the [`json`] messages of a build.
//!
//! The modules whose names end in `laws` hold what is true of every input, in terms of characters,
//! bytes and table entries: [`text_laws`], [`section_laws`], [`symbol_laws`], [`path_laws`] and
//! [`crate_laws`] of the parts, [`laws`] and [`report_laws`] of an analysis as a whole,
//! [`page_laws`] of the page and the summary, and [`cargo_arg_laws`], [`cargo_message_laws`] and
//! [`cargo_laws`] of a build.

pub mod analysis;
pub mod cargo;
pub mod cargo_arg_laws;
pub mod cargo_laws;
pub mod cargo_message_laws;
pub mod crate_laws;
pub mod crate_name;
pub mod json;
pub mod laws;
pub mod layout;
pub mod location;
pub mod memory;
pub mod object_file;
pub mod order;
pub mod page_laws;
pub mod path_laws;
pub mod render;
pub mod report_laws;
pub mod section;
pub mod section_laws;
pub mod source_path;
pub mod summary;
pub mod symbol;
pub mod symbol_laws;
pub mod template;
pub mod text;
pub mod text_laws;

pub use analysis::{
    analyze_file, analyze_image, lookup_addresses, read_image, Analysis, AnalysisOptions, ElfImage,
    InputFile, SymbolReport, rozyError,
};
pub use memory::{MemoryKind, MemoryTotals};
pub use render::render_html;
pub use section::SectionReport;
