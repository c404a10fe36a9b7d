//! Chunked file transfer: the frames exchanged between client and server,
//! the rules that split a file into chunks and reassemble it, name
//! containment, and the rendering of file listings.
pub mod frame;
pub mod names;
pub mod chunking;
pub mod receive;
pub mod laws;
pub mod listing;
pub mod command;
pub mod codec;
