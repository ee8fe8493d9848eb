//! The handle of the jobs RPC: it holds the client that answers queries.
use std::marker::PhantomData;
use std::sync::Arc;
use vstd::prelude::*;

verus! {

/// The handle of the jobs RPC, over a shared client.
pub struct JobsClient<C, M, P> {
    client: Arc<C>,
    _marker: PhantomData<(M, P)>,
}

impl<C, M, P> JobsClient<C, M, P> {
    /// The client that answers queries.
    pub closed spec fn client_spec(&self) -> Arc<C> {
        self.client
    }

    /// A handle over the given client.
    pub fn new(client: Arc<C>) -> (r: Self)
        ensures
            r.client_spec() == client,
    {
        JobsClient { client, _marker: PhantomData }
    }

    /// The client that answers queries.
    pub fn client(&self) -> (r: &Arc<C>)
        ensures
            *r == self.client_spec(),
    {
        &self.client
    }
}

/// The errors of the jobs RPC.
#[derive(Clone, Copy, Debug, PartialEq, Eq)]
pub enum Error {
    /// The transaction was not decodable.
    DecodeError,
    /// The call to the runtime failed.
    RuntimeError,
}

/// The RPC error code of an error.
pub open spec fn error_code(e: Error) -> i32 {
    match e {
        Error::RuntimeError => 1,
        Error::DecodeError => 2,
    }
}

impl From<Error> for i32 {
    fn from(e: Error) -> (r: i32) {
        match e {
            Error::RuntimeError => 1,
            Error::DecodeError => 2,
        }
    }
}

impl vstd::std_specs::convert::FromSpecImpl<Error> for i32 {
    open spec fn obeys_from_spec() -> bool {
        true
    }

    open spec fn from_spec(e: Error) -> i32 {
        error_code(e)
    }
}

} // verus!
