//! The request model: methods, headers, requests and responses, saved
//! requests, and the cURL importer.
pub mod curl;
pub mod http_header;
pub mod http_method;
pub mod request;
pub mod saved_request;

pub use http_header::Header;
pub use http_method::{HttpMethod, UnknownMethod};
pub use request::{HttpRequest, HttpResponse};
pub use saved_request::{new_id, SavedRequest};
