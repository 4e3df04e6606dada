//! An in-memory model of the durable object store collaborator: a list of
//! immutable files keyed by generated identifiers, with the same
//! injectable fault schedule as the catalog model.

use crate::batch::Batch;
use vstd::prelude::*;

verus! {

/// A failure of an object-store call.
#[derive(Debug, Clone, Copy, PartialEq, Eq, Structural)]
pub enum StoreError {
    /// The store could not be reached; retrying may help.
    Unavailable,
}

/// One durable file: a compacted batch under its object-store identifier.
#[derive(Debug, Clone, PartialEq)]
pub struct StoredFile {
    pub object_store_id: u128,
    pub data: Batch,
}

/// The object store's whole state.
#[derive(Debug, PartialEq)]
pub struct ObjectStore {
    pub files: Vec<StoredFile>,
    /// Injected failures, consumed from the end, one per call; when empty,
    /// every call succeeds.
    pub faults: Vec<bool>,
}

/// How one store call treats the fault schedule.
pub open spec fn store_fault_step(a: ObjectStore, b: ObjectStore, failed: bool) -> bool {
    if a.faults@.len() == 0 {
        !failed && b.faults@ == a.faults@
    } else {
        failed == a.faults@.last() && b.faults@ == a.faults@.drop_last()
    }
}

impl ObjectStore {
    /// A store with no files and no injected faults.
    pub fn new() -> (r: ObjectStore)
        ensures
            r.files@.len() == 0,
            r.faults@.len() == 0,
    {
        ObjectStore { files: Vec::new(), faults: Vec::new() }
    }

    /// Writes one file durably under the given identifier.
    pub fn put(&mut self, object_store_id: u128, data: Batch) -> (r: Result<(), StoreError>)
        ensures
            match r {
                Ok(_) => {
                    &&& store_fault_step(*old(self), *final(self), false)
                    &&& final(self).files@ == old(self).files@.push(
                        StoredFile { object_store_id, data },
                    )
                },
                Err(e) => {
                    &&& store_fault_step(*old(self), *final(self), true)
                    &&& final(self).files == old(self).files
                },
            },
    {
        let failed = match self.faults.pop() {
            Option::Some(b) => b,
            Option::None => false,
        };
        if failed {
            return Err(StoreError::Unavailable);
        }
        self.files.push(StoredFile { object_store_id, data });
        Ok(())
    }

    /// The identifiers of all stored files, in storage order.
    #[verifier::loop_isolation(false)]
    pub fn list(&self) -> (r: Vec<u128>)
        ensures
            r@ == self.files@.map(|i: int, f: StoredFile| f.object_store_id),
    {
        let mut out: Vec<u128> = Vec::new();
        let mut i: usize = 0;
        while i < self.files.len()
            invariant
                i <= self.files@.len(),
                out@ == self.files@.take(i as int).map(|k: int, f: StoredFile| f.object_store_id),
            decreases self.files@.len() - i,
        {
            out.push(self.files[i].object_store_id);
            proof {
                assert(self.files@.take(i as int + 1).map(
                    |k: int, f: StoredFile| f.object_store_id,
                ) =~= self.files@.take(i as int).map(|k: int, f: StoredFile| f.object_store_id).push(
                    self.files@[i as int].object_store_id,
                ));
            }
            i += 1;
        }
        proof {
            assert(self.files@.take(self.files@.len() as int) =~= self.files@);
        }
        out
    }
}

} // verus!
