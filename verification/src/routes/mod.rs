//! The decisions of the request handlers: form validation, query parameters,
//! which page or fragment answers, and the messages shown.
pub mod api;
pub mod auth_routes;
pub mod export_routes;
pub mod memo_routes;
pub mod pages;
pub mod resource_routes;
pub mod sections_routes;
pub mod settings_routes;

use vstd::prelude::*;

verus! {

/// The request body cap: the configured MiB, or no cap for 0.
pub fn max_body_bytes(max_upload_mb: usize) -> (bytes: usize)
    requires
        max_upload_mb * 1048576 <= usize::MAX,
    ensures
        max_upload_mb == 0 ==> bytes == usize::MAX,
        max_upload_mb > 0 ==> bytes == max_upload_mb * 1048576,
{
    if max_upload_mb == 0 {
        usize::MAX
    } else {
        max_upload_mb * 1024 * 1024
    }
}

} // verus!
