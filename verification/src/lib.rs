//! Extraction of header fields and named sections from office documents whose
//! authors followed no fixed template.
//!
//! A document comes as a tree of paragraphs and tables (`content`) and is
//! turned into a sequence of blocks (`block`). Labels are terms with several
//! spellings (`term`), matched exactly or in a normal form (`text`). The
//! header is read from the one table that holds header labels (`header`), the
//! sections from the blocks that follow or hold their labels (`section`) or
//! from tables with headings (`tables`), and both make the record of the
//! document (`record`). The header and the closing section can also be read
//! straight from the markup (`stream`, `info`).

pub mod block;
pub mod content;
pub mod error;
pub mod handle;
pub mod header;
pub mod info;
pub mod record;
pub mod scan;
pub mod section;
pub mod stream;
pub mod tables;
pub mod term;
pub mod text;
