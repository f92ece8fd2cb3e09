//! The Docker environment, which cannot do anything yet.

use vstd::prelude::*;

verus! {

/// The Docker environment.
#[derive(Debug, Clone, Copy)]
pub struct DockerHandler;

impl DockerHandler {
    /// What is answered to any request.
    pub fn refusal(&self) -> (r: String)
        ensures
            r@ == "Docker handler is not implemented yet."@,
    {
        "Docker handler is not implemented yet.".to_owned()
    }
}

} // verus!
