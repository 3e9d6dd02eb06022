//! Where the server is.

use vstd::prelude::*;
use vstd::string::*;

verus! {

/// The settings of the network.
#[derive(Debug)]
pub struct Config {
    pub server_address: String,
}

} // verus!
