//! Dictionary lookups for the terminal.
//!
//! The library holds what a lookup decides: the address to ask for a word
//! ([`request`]), the records a dictionary answers with ([`model`]), and the
//! text that shows them. That text is made in two steps. The layout of an
//! entry ([`layout`], [`render`]) says which runs of text stand in which
//! order and with which decoration ([`style`]); it is a function of the
//! entry alone. Painting ([`paint`]) turns the runs into characters for the
//! terminal through the `colored` crate, in colour or without. What holds of
//! every entry and of every text that shows it is collected in [`laws`].
//!
//! Asking the dictionary and decoding its answer are left to the program
//! around the library.

pub mod laws;
pub mod layout;
pub mod model;
pub mod paint;
pub mod render;
pub mod request;
pub mod runs;
pub mod style;
pub mod text;
