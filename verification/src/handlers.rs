//! The operations of the server.
//!
//! Each operation is split where it touches the file system: a function plans
//! it from the request and the state of the server, and others take what the
//! file system answered and say what happens next.

pub mod delete_object;
pub mod get_object;
pub mod multipart;
pub mod put_object;
