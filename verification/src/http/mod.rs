pub mod errors;
pub mod text;
pub mod types;

pub use errors::HttpsServiceError;
pub use text::{remove_port_from_host, request_text, response_body, url_to_host};
pub use types::{IHttpService, MockHttpsService};
