//! Verified core of a JVM-inspecting game client: the model of a process's
//! memory, the HotSpot structures walked in it (symbol table, system
//! dictionary, klass field tables, compressed pointers), the helpers that
//! read game entities out of it, and the per-tick decisions of the client's
//! modules.
pub mod game;
pub mod jvm;
pub mod layout;
pub mod memory;
pub mod module;
pub mod utils;
