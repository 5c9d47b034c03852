//! The logic of a small manager for NFS mounts: the history of recent mounts,
//! the reading of the kernel's mount table, the privileged commands, and what
//! the window shows in answer to each event.
//!
//! Everything here works on plain values. Files, processes and widgets belong
//! to the program around the library.
pub mod command;
pub mod decimal;
pub mod history;
pub mod manager;
pub mod markup;
pub mod mounts;
pub mod recent;
pub mod status;
pub mod text;
pub mod window;
