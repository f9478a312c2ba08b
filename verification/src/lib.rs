//! The rules of the Ashell terminal client: sessions and their configuration,
//! terminal tabs and panes, remote probes, SFTP browsing and the lists that
//! the window shows.
pub mod config;
pub mod crypto;
pub mod forms;
pub mod history;
pub mod keys;
pub mod load;
pub mod local;
pub mod notification;
pub mod number;
pub mod panes;
pub mod path_laws;
pub mod paths;
pub mod preferences;
pub mod probes;
pub mod proxy;
pub mod saved;
pub mod selection;
pub mod selector;
pub mod session;
pub mod sftp;
pub mod snapshot;
pub mod ssh;
pub mod system;
pub mod text;
pub mod text_map;
pub mod views;
pub mod workspace;
