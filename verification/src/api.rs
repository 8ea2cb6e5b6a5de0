use vstd::prelude::*;

verus! {

/// Body of a request that stores `value` under `key`.
pub struct SetRequest {
    pub key: String,
    pub value: String,
}

/// Answer to a read: the value stored under the key, if any.
pub struct GetResponse {
    pub value: Option<String>,
}

} // verus!
