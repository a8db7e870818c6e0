//! The Universal Chess Interface: commands and their text.

pub mod command;
