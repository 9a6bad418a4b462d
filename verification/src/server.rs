//! The most basic server: listening on a TCP port and answering connections.
use vstd::prelude::*;

verus! {

/// What the most basic server keeps: nothing yet.
#[derive(Debug)]
pub struct ServerBaseStore {}

impl ServerBaseStore {
    pub fn new() -> (res: Self) {
        Self {  }
    }
}

} // verus!
