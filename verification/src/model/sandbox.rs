//! Places where tools run apart from the rest.
use vstd::prelude::*;

verus! {

/// A place where tools run apart from the rest.
pub trait Sandbox {
    fn name(&self) -> &str;

    fn setup(&self) -> Result<(), String>;

    fn teardown(&self) -> Result<(), String>;
}

} // verus!
