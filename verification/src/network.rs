//! What a read of a project's document hands back: the document and the
//! version token every later write of it must carry.
use vstd::prelude::*;

verus! {

/// A fetched value together with its version token (ETag): the token is
/// opaque, required on the matching write, and stale tokens make the service
/// reject the write rather than merge.
pub struct ResponseWithEtag<T> {
    pub etag: String,
    pub data: T,
}

} // verus!
