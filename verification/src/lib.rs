//! Spark Garden: a small shared ritual, served over HTTP.
//!
//! Visitors plant moods, finish tiny quests and leave kind notes. This library
//! holds everything the server decides and computes: reading a request, routing
//! it, cleaning what was submitted, keeping the garden's entries, writing and
//! reading their stored form, and rendering the page and the JSON state.
//! Sockets, files and the database handle belong to the program around it.

pub mod assets;
pub mod db;
pub mod entry;
pub mod escape;
pub mod form;
pub mod garden;
pub mod http;
pub mod json;
pub mod number;
pub mod page;
pub mod quest;
pub mod record;
pub mod server;
pub mod store;
pub mod text;

