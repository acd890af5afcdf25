//! Stored attachments.
use vstd::prelude::*;

use crate::models::ResourceMeta;

verus! {

pub struct ResourceBlob {
    pub meta: ResourceMeta,
    pub data: Vec<u8>,
    pub owner_id: i64,
    /// None while still unattached (composer upload not yet saved).
    pub memo_id: Option<i64>,
}

} // verus!
