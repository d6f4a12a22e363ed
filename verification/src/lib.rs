//! Converts bibliographic records from the RIS tag format into BibTeX entries.
//!
//! The pipeline: split the document into record blocks, parse each block into
//! a tag-to-values field map, map the RIS type code to a BibTeX entry type,
//! escape LaTeX metacharacters, and render one BibTeX entry per record.

pub mod chars;
pub mod bibtype;
pub mod convert;
pub mod escape;
pub mod fields;
pub mod format;
pub mod split;

pub use bibtype::guess_bibtex_type;
pub use convert::convert_document;
pub use escape::latex_escape;
pub use fields::parse_record;
pub use fields::FieldMap;
pub use format::format_entry;
pub use split::split_records;
