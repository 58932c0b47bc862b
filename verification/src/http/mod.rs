//! The HTTP model: requests, responses and the router.

pub mod request;
pub mod response;
pub mod roundtrip;
pub mod router;
pub mod text;

pub use request::HttpRequest;
pub use response::HttpResponse;
pub use router::{Handler, Router};
