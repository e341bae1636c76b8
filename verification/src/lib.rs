pub mod types;
pub mod grammar;
pub mod prefix;
pub mod text;
pub mod keyword;
pub mod header_value;
pub mod response;
pub mod chunk;
pub mod buffer;
pub mod response_stream;
pub mod header;
pub mod request;
pub mod http_utils;
pub mod aggregator;
pub mod harness;
pub mod properties;
