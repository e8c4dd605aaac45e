//! The answer to an event.

use vstd::prelude::*;

verus! {

/// The status with which an event's handling is answered.
#[derive(Clone, Copy, Debug, PartialEq, Eq, Structural)]
pub struct HttpResponse {
    pub status_code: i16,
}

impl HttpResponse {
    /// 200 where the handling went through, 500 where it failed.
    pub fn of(ok: bool) -> (response: HttpResponse)
        ensures
            response.status_code == if ok {
                200i16
            } else {
                500i16
            },
    {
        if ok {
            HttpResponse { status_code: 200 }
        } else {
            HttpResponse { status_code: 500 }
        }
    }
}

} // verus!
