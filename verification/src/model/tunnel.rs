//! Ways in from outside.
use vstd::prelude::*;

verus! {

/// A way in from outside; connecting gives its public address.
pub trait Tunnel {
    fn name(&self) -> &str;

    fn connect(&self) -> Result<String, String>;

    fn disconnect(&self) -> Result<(), String>;
}

} // verus!
