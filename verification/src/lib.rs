//! An HTTP caching policy engine: given the request and response headers of an
//! HTTP exchange, decides whether the exchange may be stored, whether a stored
//! exchange may satisfy a new request without contacting the origin, and how
//! to build revalidation requests and merge `304 Not Modified` replies,
//! following the freshness, storability and revalidation rules of RFC 7234.
//!
//! The engine owns no storage, performs no I/O and never reads the clock:
//! every query takes the current time as an argument, in whole seconds since
//! the Unix epoch.
//!
//! Header values are carried and read as plain bytes throughout: a directive
//! or token found inside a value counts whether or not the value is valid
//! UTF-8. Only HTTP-date parsing insists on UTF-8, rejecting anything else
//! as a malformed date.

pub mod bytes;
pub mod cache_control;
pub mod config;
pub mod dates;
pub mod headers;
pub mod names;
pub mod policy;
pub mod project;
pub mod revalidate;
pub mod update;

pub use cache_control::{format_cache_control, parse_cache_control, CacheControl};
pub use config::{Config, LastModifiedHeuristic, Mode};
pub use headers::HeaderMap;
pub use policy::{CacheOptions, CachePolicy, Privacy, Request, Response};
pub use revalidate::BeforeRequest;
pub use update::AfterResponse;
