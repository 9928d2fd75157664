//! Correction of mislabelled units in time-aligned, tiered annotation files.
//!
//! An annotation is read from the bytes of a file (`charset`, `parse`, after
//! the grammar in `grammar`) and written back as text (`encode`, after the
//! layout in `layout`); `roundtrip` proves that what is written is read
//! back. The phones of an annotation are aligned with its words (`align`),
//! the matches of a rule are found and shown (`matcher`), and the
//! replacements chosen for them are written into the phone tier
//! (`rewrite`). `project` keeps the rules, `session` the files of a scan
//! with their matches and choices, `settings` the settings, and `audio`
//! decides what the audio worker renders.

pub mod align;
pub mod audio;
pub mod charset;
pub mod decimal;
pub mod encode;
pub mod grammar;
pub mod grid;
pub mod layout;
pub mod matcher;
pub mod parse;
pub mod project;
pub mod rewrite;
pub mod roundtrip;
pub mod rules;
pub mod session;
pub mod settings;
pub mod text;
