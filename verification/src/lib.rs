//! A parser for RSZ documents, the serialized data files of the RE Engine.
//!
//! Parsing is driven by a [`LayoutMap`], which describes the fields of each type that can be
//! encoded in a document. Every parsing step is specified over the raw bytes of the document.
pub mod hex;
pub mod layout;

pub use layout::LayoutMap;
pub mod rsz;
pub mod transparent;
pub mod types;

pub use rsz::content::{Content, Field, Object, Objects, Value, Values};
pub use rsz::user::User;
pub use rsz::{Error, Rsz};
