//! Moving entries through their lifecycle.

use vstd::prelude::*;
use crate::ids::EntryId;
use crate::memory::entry::{MemoryEntry, MemoryState};
use crate::memory::store::{InMemoryStore, StoreError};

verus! {

/// Bring a deceased entry back to life; entries in other states are left
/// as they are (false). An unknown entry is an error.
pub fn resuscitate<S>(store: &mut InMemoryStore<S>, id: &EntryId) -> (r: Result<bool, StoreError>)
    requires
        old(store).wf(),
    ensures
        final(store).wf(),
        !old(store).entries().dom().contains(id@) ==> {
            &&& r == Err::<bool, StoreError>(StoreError::NotFound(*id))
            &&& final(store).entries() == old(store).entries()
        },
        old(store).entries().dom().contains(id@) && old(store).entries()[id@].state == MemoryState::Deceased ==> {
            &&& r == Ok::<bool, StoreError>(true)
            &&& final(store).entries() == old(store).entries().insert(
                id@,
                MemoryEntry { state: MemoryState::Alive, ..old(store).entries()[id@] },
            )
        },
        old(store).entries().dom().contains(id@) && old(store).entries()[id@].state != MemoryState::Deceased ==> {
            &&& r == Ok::<bool, StoreError>(false)
            &&& final(store).entries() == old(store).entries()
        },
{
    let deceased = match store.load(id) {
        None => {
            return Err(StoreError::NotFound(id.clone()));
        },
        Some(e) => e.state == MemoryState::Deceased,
    };
    if deceased {
        let t = store.transition(id, MemoryState::Alive);
        match t {
            Ok(()) => Ok(true),
            Err(e) => Err(e),
        }
    } else {
        Ok(false)
    }
}

} // verus!
