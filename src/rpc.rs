//! Helpers of the query endpoint: the handle it holds and its error codes.
use std::marker::PhantomData;
use std::sync::Arc;

use vstd::prelude::*;

verus! {

/// The query endpoint's handle on the node client.
pub struct SubspaceCustom<C, P> {
    pub client: Arc<C>,
    pub _marker: PhantomData<P>,
}

impl<C, P> SubspaceCustom<C, P> {
    /// Wraps the shared client.
    pub fn new(client: Arc<C>) -> (r: Self)
        ensures
            r.client == client,
    {
        SubspaceCustom { client, _marker: PhantomData }
    }
}

/// Error type of the query endpoint.
#[derive(Clone, Copy, Debug, PartialEq, Eq, Structural)]
pub enum Error {
    /// The call into the runtime failed.
    RuntimeError,
}

impl From<Error> for i32 {
    fn from(e: Error) -> (r: i32) {
        match e {
            Error::RuntimeError => 1,
        }
    }
}

impl vstd::std_specs::convert::FromSpecImpl<Error> for i32 {
    open spec fn obeys_from_spec() -> bool {
        true
    }

    open spec fn from_spec(e: Error) -> i32 {
        match e {
            Error::RuntimeError => 1,
        }
    }
}

} // verus!
