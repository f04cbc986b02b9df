//! The rules behind a small personal-site server: the project catalogue that
//! is listed from a directory, the word that is drawn from a word list, and
//! the table of routes that the server registers.
//!
//! Nothing here touches the file system or the network. A caller reads the
//! directory or the word list, hands the outcome over as plain values, and
//! sends what comes back.

pub mod catalog;
pub mod routes;
pub mod text;
pub mod words;
