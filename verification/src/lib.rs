//! Client core for a distributed table store.
//!
//! The library turns logical table operations (get, insert, update, replace,
//! append, increment, delete, batches and ranged queries) into physical
//! requests dispatched to the endpoint that hosts the target partition. It
//! holds the value and row model, the request/response correlation state of a
//! connection, the route cache with singleflight refresh, the per-operation
//! retry policy, batch fan-out with result-order preservation, and the
//! streamed-query cursor. Transport and scheduling stay with the host.

pub mod client;
pub mod connection;
pub mod error;
pub mod memstore;
pub mod operation;
pub mod order;
pub mod proxy;
pub mod query;
pub mod route;
pub mod row;
pub mod strutil;
pub mod table;
pub mod value;

use vstd::prelude::*;

verus! {

/// Client-wide configuration. All durations are in milliseconds.
#[derive(Clone)]
pub struct ClientConfig {
    /// Deadline for establishing a transport connection.
    pub rpc_connect_timeout: u64,
    /// Per-request deadline.
    pub rpc_operation_timeout: u64,
    /// Deadline for the login handshake.
    pub rpc_login_timeout: u64,
    /// Time-to-live of a route-cache entry.
    pub metadata_refresh_interval: u64,
    /// Maximum number of retries per operation.
    pub runtime_retry_times: u64,
    /// Base interval for retry backoff.
    pub runtime_retry_interval_ms: u64,
    /// Number of connections kept per endpoint.
    pub connection_pool_size: usize,
    /// Bit-field forwarded in request flags.
    pub log_level_flag: u16,
}

impl ClientConfig {
    /// The default configuration, as contracts see it.
    pub open spec fn spec_default() -> ClientConfig {
        ClientConfig {
            rpc_connect_timeout: 1000,
            rpc_operation_timeout: 10000,
            rpc_login_timeout: 1000,
            metadata_refresh_interval: 60000,
            runtime_retry_times: 1,
            runtime_retry_interval_ms: 0,
            connection_pool_size: 1,
            log_level_flag: 7,
        }
    }

    /// A field-for-field copy.
    pub fn clone_config(&self) -> (c: ClientConfig)
        ensures
            c == *self,
    {
        ClientConfig {
            rpc_connect_timeout: self.rpc_connect_timeout,
            rpc_operation_timeout: self.rpc_operation_timeout,
            rpc_login_timeout: self.rpc_login_timeout,
            metadata_refresh_interval: self.metadata_refresh_interval,
            runtime_retry_times: self.runtime_retry_times,
            runtime_retry_interval_ms: self.runtime_retry_interval_ms,
            connection_pool_size: self.connection_pool_size,
            log_level_flag: self.log_level_flag,
        }
    }

    /// The default configuration.
    pub fn new() -> (c: ClientConfig)
        ensures
            c == ClientConfig::spec_default(),
            c.connection_pool_size > 0,
    {
        ClientConfig {
            rpc_connect_timeout: 1000,
            rpc_operation_timeout: 10000,
            rpc_login_timeout: 1000,
            metadata_refresh_interval: 60000,
            runtime_retry_times: 1,
            runtime_retry_interval_ms: 0,
            connection_pool_size: 1,
            log_level_flag: 7,
        }
    }
}

} // verus!
