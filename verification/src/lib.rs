//! Qust's browser logic as verified functions over plain values: input
//! modes and what each key does in them, the command bar (completion,
//! commands, terminal output, URL display), tabs and tab groups (order,
//! visibility, labels, widths, saving and importing), Firefox session
//! import, link hints, search templates, the saved session and the
//! password-manager helpers.

pub mod command_bar;
pub mod commands;
pub mod firefox;
pub mod hints;
pub mod keys;
pub mod modes;
pub mod navigation;
pub mod passwords;
pub mod session;
pub mod tabs;
pub mod text;
