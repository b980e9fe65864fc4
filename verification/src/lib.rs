//! A small task manager: projects hold ordered lists of tasks, are stored as
//! delimited text and are shown as fixed-width tables.

use crate::table::LayoutError;
use vstd::prelude::*;

pub mod cli;
pub mod style;
pub mod table;
pub mod task;
pub mod text;

verus! {

/// A value with a textual form that can be read back.
pub trait Serializer {
    type Type;

    /// The text of this value.
    fn serialize(self) -> String;

    /// The value that `src` is the text of, if it is the text of one.
    fn deserialize(src: &str) -> Option<Self::Type>;
}

/// A value that can be shown as a table of a given width.
pub trait ToTableLikeString {
    /// The table, or why a table of `width` cannot be laid out.
    fn to_table_string(&self, width: usize) -> Result<String, LayoutError>;
}

} // verus!
