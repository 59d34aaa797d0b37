//! The logic of plumbrs, an HTTP load generator.
pub mod body;
pub mod check;
pub mod client;
pub mod dial;
pub mod engine;
pub mod headers;
pub mod http1;
pub mod json;
pub mod mcp;
pub mod metrics;
pub mod net;
pub mod options;
pub mod request;
pub mod rss;
pub mod schema;
pub mod sse;
pub mod stats;
pub mod text;
pub mod tls;
pub mod uri;
pub mod worker;
