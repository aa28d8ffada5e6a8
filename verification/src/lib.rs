//! Reader for the CC-CEDICT Chinese-English dictionary line format.
//!
//! One line of dictionary text is classified as a comment, a metadata
//! directive, a well-formed entry, an empty line, or malformed input.
//! A well-formed entry
//!
//! ```text
//! <traditional> <simplified> [<pinyin>] /<def1>/<def2>/.../
//! ```
//!
//! is tokenized into four fields that are kept as character ranges into the
//! original line, so reading a field never copies it.

mod defs;
mod entry;
mod line;
mod scan;

pub use line::Line;
pub use line::classifies;
pub use line::comment_text;
pub use line::is_comment;
pub use line::is_comment_line;
pub use line::is_metadata;
pub use line::is_metadata_line;
pub use line::lemma_classification_idempotent;
pub use line::metadata_has_eq;
pub use line::metadata_key;
pub use line::metadata_rest;
pub use line::metadata_value;
pub use line::parse_line;
pub use entry::DictEntry;
pub use entry::EntryView;
pub use entry::canonical;
pub use entry::entry_delims;
pub use entry::entry_of_line;
pub use entry::from_components;
pub use entry::lemma_entry_delims;
pub use entry::lemma_round_trip;
pub use entry::parse_dict_entry;
pub use defs::join_defs;
pub use defs::split_blob;
pub use defs::split_definitions;
pub use defs::split_on_slash;
pub use defs::trim_blob;
pub use scan::find_from;
pub use scan::is_ws;
pub use scan::trim_spec;
