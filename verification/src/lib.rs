//! Editor-side logic of a GUI front end for a modal text editor: command-line
//! parsing, completion prefixes, split-pane geometry, file-tree entries and
//! the other decisions that the user interface makes.
pub mod text;
pub mod sequences;
pub mod decimal;
pub mod command_system;
pub mod prefix_extraction;
pub mod split_resize;
pub mod file_tree;
pub mod simple_file_tree;
pub mod single_instance;
pub mod error_boundary;
pub mod workspace_root;
pub mod config;
pub mod vcs;
pub mod events;
pub mod file_url;
pub mod graphemes;
pub mod completion;
pub mod picker;
pub mod lsp_state;
pub mod paths;
pub mod tree;
pub mod file_icons;
pub mod file_tree_panel;
pub mod prompt_state;
pub mod view_manager;
pub mod statusline;
pub mod key_hints;
pub mod buffers;
pub mod search;
pub mod key_routing;
pub mod preview_tracker;
pub mod line_runs;
