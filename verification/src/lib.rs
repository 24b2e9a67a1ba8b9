//! Decision logic of a small Modbus polling service with a file watcher.
//!
//! The network and file-system work (Modbus TCP, `notify` watches, tokio
//! tasks) is driven from the program around this library; the library decides
//! what that program does next and keeps its registries.

pub mod device_manager;
pub mod file_watcher;
pub mod worker;
