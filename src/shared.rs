use vstd::prelude::*;
use vstd::rwlock::{RwLock, RwLockPredicate};
use vstd::utf8::valid_utf8;

use crate::store::{ApplyError, StateStore, StateView, Variant};

verus! {

/// What every state held by a shared store satisfies: it is well-formed and
/// keeps the shape the store was built with.
pub struct WholeState {
    pub variant: Variant,
}

impl RwLockPredicate<StateStore> for WholeState {
    open spec fn inv(self, v: StateStore) -> bool {
        v.wf() && v.variant() == self.variant
    }
}

/// A state store shared between one writer that folds messages and any number
/// of readers that take snapshots. Folds run under the write lock and
/// snapshots under the read lock, so a reader sees either all of a fold or
/// none of it.
pub struct SharedStore {
    variant: Variant,
    lock: RwLock<StateStore, WholeState>,
}

impl SharedStore {
    /// The lock guards states of the shape this store was built with.
    pub closed spec fn wf(&self) -> bool {
        self.lock.pred() == WholeState { variant: self.variant }
    }

    pub closed spec fn variant(&self) -> Variant {
        self.variant
    }

    /// A shared store that starts empty: a counter at zero, or an empty map.
    pub fn new(variant: Variant) -> (r: SharedStore)
        ensures
            r.wf(),
            r.variant() == variant,
    {
        let store = StateStore::new(variant);
        let lock = RwLock::new(store, Ghost(WholeState { variant }));
        SharedStore { variant, lock }
    }

    /// The shape this store was built with.
    pub fn kind(&self) -> (r: Variant)
        ensures
            r == self.variant(),
    {
        self.variant
    }

    /// Decodes the payload and folds the message in, as one step under the
    /// write lock. A payload that is not UTF-8 text changes nothing.
    pub fn apply(&self, topic: &str, payload: &[u8]) -> (r: Result<(), ApplyError>)
        requires
            self.wf(),
        ensures
            r == Err::<(), ApplyError>(ApplyError::Decode) <==> !valid_utf8(payload@),
            self.variant() == Variant::KeyValue ==> (r is Ok <==> valid_utf8(payload@)),
    {
        let (mut store, handle) = self.lock.acquire_write();
        proof {
            store.lemma_variant_shape();
        }
        let r = store.apply(topic, payload);
        proof {
            if let Err(e) = r {
                assert(e == ApplyError::Decode || e == ApplyError::CounterSaturated);
            }
        }
        handle.release_write(store);
        r
    }

    /// A copy of the whole current state, taken under the read lock.
    pub fn snapshot(&self) -> (r: StateView)
        requires
            self.wf(),
        ensures
            r.wf(),
            r.variant() == self.variant(),
    {
        let handle = self.lock.acquire_read();
        let r = handle.borrow().snapshot();
        handle.release_read();
        r
    }
}

} // verus!
