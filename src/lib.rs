//! Backs up, restores and edits the settings files of a game client.
//!
//! The library decides what each operation reads and writes; the program
//! around it performs the file accesses.
pub mod region;
pub mod settings;
pub mod command;
