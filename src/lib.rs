//! Hathor: generates sets of same-size files filled with the repeating
//! pattern `0123456789`, named `0`, `1`, `2`, ... inside a directory.
//!
//! The library is built from small capabilities that compose: a content
//! source, a sequencer of destination paths, a byte sink, and generators
//! that can be repeated by decoration.
pub mod content;
pub mod generator;
pub mod naming;
pub mod sink;

pub use content::pattern_content;
pub use generator::{FileGenerator, FileGeneratorBuilder, RepeatFileGenerator, SizedFileGenerator};
pub use naming::{
    decimal_text, join, FilenameGenerator, OrdinalPathFilenameGenerator, PathFilenameGenerator,
};
pub use sink::{FileWriter, MemoryFileWriter};
