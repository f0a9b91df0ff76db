//! Process and thread control plane for sandboxed guest programs.
pub mod ids;
pub mod stack;
pub mod thread;
pub mod process;
pub mod plane;
