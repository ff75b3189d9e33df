//! Keeps a directory of notes in step with a set of observers.
//!
//! A note is a text file with frontmatter. When a note is added or
//! synchronised, the observers are told of it in a fixed order; what they
//! hand back is merged into the note's metadata, and the body of the last
//! observer that supplied one takes the place of the note's body. A cache
//! of digests keeps unchanged notes from being processed again, and the
//! watcher decides which changes of files set a synchronisation going.
//!
//! Texts are specified as sequences of characters. Reading and writing
//! files, the relational store and the clock are left to the caller.

// Texts, lines and field maps.
pub mod text;
pub mod split;
pub mod order;
pub mod lines;
pub mod fields;
pub mod utils;

// Metadata, events and the registry of observers.
pub mod metadata;
pub mod event;
pub mod observer_registry;

// Notes and their workflow.
pub mod settings;
pub mod hash_cache;
pub mod note;
pub mod sync;
pub mod watcher;

// The embedded query blocks.
pub mod sql_blocks;
pub mod sql_render;
pub mod sqlite_store;

// The observers that come with the application.
pub mod timestamp;
pub mod toc;
pub mod tag_index;
pub mod observers;
pub mod llm_metadata;
pub mod similar_notes;
pub mod script_loader;

// The command line.
pub mod cli;
pub mod handlers;

// What holds of the rewriting of query blocks.
pub mod line_laws;
pub mod scan_laws;
pub mod render_laws;
pub mod query_laws;
pub mod rewrite_laws;
pub mod table_laws;
pub mod marker_laws;
