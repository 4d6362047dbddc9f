//! A verified core for a small file gateway: three operations (upload,
//! download, list) over a key-addressed object store, plus resolution of the
//! store's connection settings.
//!
//! The store itself is modelled as a sequence of key/blob entries with unique
//! keys; the gateway operations are specified against a map view of that
//! model. The HTTP and S3 plumbing around this core lives outside the
//! library and only drives these functions.

pub mod config;
pub mod error;
pub mod gateway;
pub mod store;
