//! A small embeddable HTTP/1.1 server library: a byte-level request parser,
//! response builders and their wire format, a path/method router, and the
//! decision a connection makes for each buffer it reads.

pub mod fields;
pub mod request;
pub mod response;
pub mod router;
pub mod server;
pub mod text;

pub use fields::Fields;
pub use request::{Body, Method, ParseError, Request};
pub use response::{Response, StatusCode};
pub use router::{Route, Router};
pub use server::respond;
