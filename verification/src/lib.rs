//! A node of a distributed pizza factory: recipes, gossip between peers,
//! and the framed CBOR command protocol that orders are placed with.
pub mod recipe;
pub mod seqs;
pub mod text;
pub mod cbor;
pub mod wire;
pub mod protocol;
pub mod json;
pub mod json_text;
pub mod server;
pub mod client;
pub mod cli;
pub mod formula;
