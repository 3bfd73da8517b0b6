pub mod bytes;
pub mod codec;
pub mod idgen;
pub mod region;
pub mod store;
pub mod table;

use vstd::prelude::*;

verus! {

/// Maximum number of bytes an encoded record may occupy in the table region.
pub const MAX_RECORD_BYTES: u64 = 1024;

} // verus!
