//! Pager-side state for agent modes, the debug loop, side chats, the side
//! panel and tiled windows.
use vstd::prelude::*;

pub mod text;
pub mod seqs;
pub mod agent_mode;
pub mod geometry;
pub mod ids;
pub mod side_chat;
pub mod side_panel;
pub mod window_manager;
pub mod commands;
pub mod debug_loop;
pub mod storage;

verus! {

} // verus!
