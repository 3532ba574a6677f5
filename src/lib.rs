//! Module loading and export resolution for a BEAM-style virtual machine,
//! together with the line editing of its terminal.
pub mod bif;
pub mod exports;
pub mod layout;
pub mod line_buffer;
pub mod module;
pub mod registry;
pub mod terminal;
pub mod text;
pub mod vm;
