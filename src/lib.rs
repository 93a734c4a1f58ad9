//! A small HTTP request dispatcher: static-file rewriting, longest-prefix
//! selection of route groups and exact method dispatch, with the request and
//! response models, reading a request from its text and a response's wire
//! form. Sockets, threads, files and the callbacks themselves are the caller's.
pub mod message;
pub mod parse;
pub mod path;
pub mod router;
pub mod server;
