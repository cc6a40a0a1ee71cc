//! BibleDesk's library: the catalog of translations and books, chapters
//! assembled from whole books, the reader's state and its transitions, reading
//! plans, saved verses, verse and word marks, flash cards, and settings, each
//! with a contract proved by Verus. Network, disk and window work stay with the
//! caller, which hands the library plain values.
pub mod text;
pub mod sort;
pub mod models;
pub mod api;
pub mod settings;
pub mod reader;
pub mod study;
pub mod plans;
pub mod saved;
pub mod marks;
