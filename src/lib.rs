//! Parsing, validation and formatting of compact `major.minor.patch[-pre]`
//! version identifiers, and their combination with a package name into a
//! single versioned name (and the split back).

mod naming;
mod text;
mod version;

pub use naming::{
    is_valid_name, lemma_split_versioned, lemma_split_versioned_name, split_spec,
    split_versioned_name, valid_name, versioned_name_spec, NameError, SplitError,
};
pub use text::{decimal, first_index_of, numeral_u32, split_on};
pub use version::{
    format_spec, is_valid_identifier, is_valid_pre_release, lemma_parse_format, parse_spec,
    ParseError, TinyVersion, VersionModel,
};
