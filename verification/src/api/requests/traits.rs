use crate::api::responses::Response;
use vstd::prelude::*;

verus! {

/// A request that knows the response it is answered with.
pub trait IntoResponse {
    fn into_response(&self) -> Response;
}

} // verus!
