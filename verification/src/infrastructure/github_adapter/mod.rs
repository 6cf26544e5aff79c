//! The adapter that gives the use cases GitHub through a client.
use vstd::prelude::*;

verus! {

/// GitHub, reached through the client `client`.
#[derive(Clone)]
pub struct GitHubAdapter<C> {
    pub client: C,
}

impl<C> GitHubAdapter<C> {
    /// The adapter that works through `client`.
    pub fn new(client: C) -> (res: Self)
        ensures
            res.client == client,
    {
        GitHubAdapter { client }
    }
}

} // verus!
