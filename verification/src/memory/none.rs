//! A memory that keeps nothing.
use vstd::prelude::*;
use crate::model::memory::{Category, Memory, MemoryEntry, RecallScope};

verus! {

/// A memory that keeps nothing.
#[derive(Debug)]
pub struct NoneMemory {}

impl NoneMemory {
    pub fn new() -> (r: NoneMemory)
        ensures
            r == (NoneMemory {  }),
    {
        NoneMemory {  }
    }
}

impl Default for NoneMemory {
    fn default() -> (r: NoneMemory)
        ensures
            r == (NoneMemory {  }),
    {
        NoneMemory::new()
    }
}

impl Memory for NoneMemory {
    fn name(&self) -> (r: &str)
        ensures
            r@ == "none"@,
    {
        "none"
    }

    fn store(
        &self,
        _key: &str,
        _content: &str,
        _category: Category,
        _session: Option<&str>,
        _topic: Option<&str>,
    ) -> (r: Result<(), String>)
        ensures
            r is Ok,
    {
        Ok(())
    }

    fn recall(
        &self,
        _query: &str,
        _limit: usize,
        _session: Option<&str>,
        _scope: RecallScope,
    ) -> (r: Result<Vec<MemoryEntry>, String>)
        ensures
            r matches Ok(v) && v@.len() == 0,
    {
        Ok(Vec::new())
    }

    fn get(&self, _key: &str) -> (r: Result<Option<MemoryEntry>, String>)
        ensures
            r matches Ok(o) && o is None,
    {
        Ok(None)
    }

    fn list(&self, _category: Option<&Category>, _session: Option<&str>) -> (r: Result<
        Vec<MemoryEntry>,
        String,
    >)
        ensures
            r matches Ok(v) && v@.len() == 0,
    {
        Ok(Vec::new())
    }

    fn forget(&self, _key: &str) -> (r: Result<bool, String>)
        ensures
            r matches Ok(b) && !b,
    {
        Ok(false)
    }

    fn count(&self) -> (r: Result<usize, String>)
        ensures
            r matches Ok(n) && n == 0,
    {
        Ok(0)
    }

    fn health_check(&self) -> (r: bool)
        ensures
            r,
    {
        true
    }
}

} // verus!
