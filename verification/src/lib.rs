//! Verified logic of a native code editor: surface lifecycle, command
//! palette, literal find, document tabs and their history, the bounded
//! workspace file tree and its directory scans, source-to-display
//! composition, dogfood evidence, and the language-server client's framing,
//! JSON-RPC peer, process configuration and protocol writes.
pub mod surface;
pub mod lsp_framing;
pub mod lsp_header;
mod std_calls;
pub mod text;
pub mod commands;
pub mod find;
pub mod lsp_language;
pub mod documents;
pub mod lsp_json;
pub mod lsp_process;
pub mod lsp_client;
pub mod dogfood;
pub mod composition;
pub mod path_order;
pub mod file_tree;
pub mod tree_rows;
pub mod tree_state;
pub mod scan;
pub mod overlays;
