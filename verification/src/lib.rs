//! The core of an S3-compatible file server.
//!
//! The server keeps an index of the objects in its serve directory
//! ([`store`]) and a table of multipart uploads in progress
//! ([`multipart_state`]). The operations on them ([`handlers`]) are functions
//! from a request and the state of the server to the next state and to what is
//! to be done with files; receiving requests, touching files and sending
//! responses is left to the program around this library. What the operations
//! promise together is stated in [`consistency`].

pub mod conditional;
pub mod config;
pub mod consistency;
pub mod errors;
pub mod etag;
pub mod fs_path;
pub mod handlers;
pub mod headers;
pub mod ids;
pub mod metadata_cache;
pub mod multipart_state;
pub mod range;
pub mod response;
pub mod s3_xml_compat;
pub mod store;
pub mod test_server;
pub mod text;
pub mod time;
