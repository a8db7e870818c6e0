//! Plain representations of moves and squares for callers in other languages.

pub mod struct_reprs;
