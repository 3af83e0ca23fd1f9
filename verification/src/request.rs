//! Update requests: the unit of work the queue carries.

use vstd::prelude::*;

verus! {

/// A request to recompute one user's level and badges.  Identity is the
/// `request_id`; requests are immutable once submitted.
#[derive(Debug)]
pub struct LevelRequest {
    /// The user whose level and badges are to be recomputed.
    pub user_id: String,
    /// Unique identity of this request; generated at submission when the
    /// caller left it empty.
    pub request_id: String,
    /// Submission time in seconds since the Unix epoch; defaulted to the
    /// time of submission when the caller left it zero.
    pub created_at: i64,
}

impl Clone for LevelRequest {
    fn clone(&self) -> (r: Self)
        ensures
            r == *self,
    {
        LevelRequest {
            user_id: self.user_id.clone(),
            request_id: self.request_id.clone(),
            created_at: self.created_at,
        }
    }
}

/// Fills the empty identity fields of a request: an empty `request_id`
/// becomes `fresh_id` and a zero `created_at` becomes `now`.  Fields the
/// caller supplied are never touched.
pub fn normalize_request(request: LevelRequest, fresh_id: String, now: i64) -> (r: LevelRequest)
    ensures
        r.user_id == request.user_id,
        r.request_id@ == (if request.request_id@.len() == 0 {
            fresh_id@
        } else {
            request.request_id@
        }),
        r.created_at == (if request.created_at == 0 {
            now
        } else {
            request.created_at
        }),
{
    let mut request = request;
    if request.request_id.as_str().is_empty() {
        request.request_id = fresh_id;
    }
    if request.created_at == 0 {
        request.created_at = now;
    }
    request
}

} // verus!
