//! Route-pattern lexing and parsing, URL routing trees, and the small
//! protocol helpers of the Hotaru web framework, with their contracts.

pub mod text;
pub mod url;
pub mod protocol;
pub mod sql;
pub mod http;
pub mod grpc;
pub mod io;
