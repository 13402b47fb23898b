//! Plain option and identity types of the pluggable backend layer. The
//! backends themselves are asynchronous trait objects and live with the
//! application; only their data shapes are modeled here.

use vstd::prelude::*;
use crate::tenant::TenantContext;

verus! {

/// Options for cache set operations.
pub struct CacheOptions {
    /// Time-to-live in seconds. None means no expiration.
    pub ttl_secs: Option<u64>,
}

impl Default for CacheOptions {
    fn default() -> (r: Self)
        ensures
            r.ttl_secs is None,
    {
        CacheOptions { ttl_secs: None }
    }
}

/// Options for publishing a message.
pub struct PublishOptions {
    /// Optional delay in seconds before the message is delivered.
    pub delay_secs: Option<u64>,
    /// Optional message priority (higher is more urgent).
    pub priority: Option<u32>,
}

impl Default for PublishOptions {
    fn default() -> (r: Self)
        ensures
            r.delay_secs is None,
            r.priority is None,
    {
        PublishOptions { delay_secs: None, priority: None }
    }
}

/// Subscription handle identifier.
pub struct SubscriptionId(pub String);

/// Execution context for a stateful function.
pub struct FunctionContext {
    pub tenant: TenantContext,
    pub invocation_id: String,
    pub function_id: String,
}

} // verus!
