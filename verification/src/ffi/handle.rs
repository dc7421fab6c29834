//! Runtime handle constants and status codes.

use vstd::prelude::*;

verus! {

pub const NEX_ABI_VERSION_1: u32 = 0x00010000;
pub const NEX_HANDLE_MAGIC: u32 = 0x4E455848;

pub const NEX_SUCCESS: i32 = 0;
pub const NEX_ERR_INVALID_HANDLE: i32 = -4001;
pub const NEX_ERR_UNAUTHORIZED: i32 = -4010;
pub const NEX_ERR_OBJECT_NOT_FOUND: i32 = -4040;
pub const NEX_ERR_OBJECT_TOMBSTONED: i32 = -4100;
pub const NEX_ERR_PAYLOAD_TOO_LARGE: i32 = -4130;
pub const NEX_ERR_CAS_CORRUPTION: i32 = -4140;
pub const NEX_ERR_SYNC_DEFERRED: i32 = -4290;
pub const NEX_ERR_STORAGE_EXHAUSTED: i32 = -5070;
pub const NEX_ERR_INTERNAL_ERROR: i32 = -5000;

} // verus!
