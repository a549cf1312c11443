//! Reading and writing the OpenType `GSUB` (glyph substitution) table.
//!
//! The GSUB-level structure (header, feature list, feature tables, lookup
//! list and lookup headers) is decoded and encoded here; the script list,
//! the lookup subtables and feature parameters are carried as the encoded
//! tables they are.
#![allow(non_snake_case, non_camel_case_types)]

pub mod wire;
pub mod error;
pub mod table;
pub mod extent;
pub mod layout;
pub mod decode;
pub mod encode;
pub mod laws;
