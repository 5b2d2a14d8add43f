//! Terminal presentation logic of the Codex TUI: copying selected Markdown table
//! cells, the session banner cards, and the first-frame startup layout.

pub mod text;
pub mod markdown_copy;
pub mod table_laws;
pub mod session;
pub mod layout;
pub mod startup_draft_layout;
pub mod session_laws;
pub mod empty_state_animation;
pub mod animation_laws;
