//! Watching the lifecycle of the program.
use vstd::prelude::*;

verus! {

/// Something that happened.
#[derive(Clone, Debug)]
pub enum ObserverEvent {
    Started,
    Stopped,
    Error(String),
}

/// What is told of events.
pub trait Observer {
    fn name(&self) -> &str;

    fn observe(&self, event: ObserverEvent) -> Result<(), String>;
}

} // verus!
