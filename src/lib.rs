//! Maps byte ranges of a linked executable back to the object files that
//! contributed them, from the linker's map file and the binary itself.
//!
//! A map file is read in its dialect (GNU ld, LLVM lld or MSVC link) into sections
//! and subsections; the binary's section table gives each subsection its offset in
//! the file; an interval tree then answers which files contributed a range.
pub mod text;
pub mod model;
pub mod gnu;
pub mod llvm;
pub mod msvc;
pub mod detect;
pub mod reconcile;
pub mod index;
pub mod laws;

pub use model::{GenealogyError, MapfileInformation, Section, SubSection};
pub use index::{Genealogy, Hit};
pub use reconcile::{BinaryLayout, ElfSectionHeader};
pub use detect::{extract_mapfile, Dialect};
