//! A verified core for a directory-tree listing tool.
//!
//! The library models a directory tree as plain values, renders it as an
//! indented listing with box-drawing connectors, keeps a set of excluded
//! entry names, and decides the transitions of the interactive
//! exclusion-editing loop.  All file-system and console I/O stays outside.

pub mod excl;
pub mod interactive;
pub mod naming;
pub mod text;
pub mod tree;

pub use excl::ExclusionSet;
pub use excl::should_exclude;
pub use interactive::ActionChoice;
pub use interactive::IdEvent;
pub use interactive::IdsReply;
pub use interactive::handle_action;
pub use interactive::process_ids_line;
pub use naming::default_output_name;
pub use naming::output_name_for;
pub use tree::Entry;
pub use tree::EntryKind;
pub use tree::format_entry_line;
pub use tree::generate_tree;
pub use tree::render_entry_lines;
