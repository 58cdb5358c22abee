use vstd::prelude::*;
use crate::gate::{BorrowGate, ReadTicket, WriteTicket};
use crate::unique::Unique;

verus! {

/// Failure of a registry-level request.
#[derive(Clone, Copy, Debug, PartialEq, Eq, Structural)]
pub enum RegistryError {
    /// The requested access mode conflicts with tickets outstanding on the
    /// same storage. Recoverable: retry, skip this cycle, or escalate.
    BorrowConflict,
    /// No storage is registered under the requested type key. The registry
    /// does not auto-create on borrow or removal; `get_or_create` does.
    StorageAbsent,
}

/// Capability-only identity of one unique storage inside a registry,
/// independent of the stored type. Handles for the same key are equal for the
/// whole registry lifetime, as long as the entry is not removed.
#[derive(Clone, Copy, Debug, PartialEq, Eq, Structural)]
pub struct ErasedHandle {
    index: usize,
}

/// A granted shared borrow of the storage registered under one key; it is
/// given back through `release_shared`, and read through `read`.
pub struct SharedGrant {
    key: u64,
    ticket: ReadTicket,
}

impl SharedGrant {
    pub closed spec fn key_spec(self) -> u64 {
        self.key
    }

    /// The type key this grant was issued for.
    pub fn key(&self) -> (k: u64)
        ensures
            k == self.key_spec(),
    {
        self.key
    }
}

/// A granted exclusive borrow of the storage registered under one key; it is
/// given back through `release_exclusive`, which records the modification.
pub struct ExclusiveGrant {
    key: u64,
    ticket: WriteTicket,
}

impl ExclusiveGrant {
    pub closed spec fn key_spec(self) -> u64 {
        self.key
    }

    /// The type key this grant was issued for.
    pub fn key(&self) -> (k: u64)
        ensures
            k == self.key_spec(),
    {
        self.key
    }
}

/// A registry of unique storages, keyed by type identity.
///
/// A key is the caller's stable stand-in for a concrete type (one key per
/// type, assigned at the erasure boundary); the registry itself never looks
/// inside the stored values. Each entry carries its own borrow gate, so
/// borrows on different entries never interfere.
pub struct Registry<T> {
    keys: Vec<u64>,
    gates: Vec<BorrowGate>,
    storages: Vec<Option<Unique<T>>>,
}

impl<T> Registry<T> {
    /// Number of slots ever allocated (removed entries keep their slot, so
    /// handles of other entries stay stable).
    pub closed spec fn n_slots(self) -> int {
        self.keys@.len() as int
    }

    /// Whether slot `i` currently holds a storage.
    pub closed spec fn slot_live(self, i: int) -> bool {
        self.storages@[i] is Some
    }

    pub closed spec fn slot_key(self, i: int) -> u64 {
        self.keys@[i]
    }

    pub closed spec fn slot_gate(self, i: int) -> BorrowGate {
        self.gates@[i]
    }

    pub closed spec fn slot_storage(self, i: int) -> Unique<T> {
        self.storages@[i]->0
    }

    /// Well-formedness: the three columns agree in length, live slots have
    /// pairwise distinct keys, and every gate is internally consistent.
    pub closed spec fn wf(self) -> bool {
        &&& self.gates@.len() == self.keys@.len()
        &&& self.storages@.len() == self.keys@.len()
        &&& (forall|i: int, j: int|
            0 <= i < j < self.n_slots() && #[trigger] self.slot_live(i) && #[trigger] self.slot_live(j)
                ==> self.slot_key(i) != self.slot_key(j))
        &&& (forall|i: int| 0 <= i < self.n_slots() ==> (#[trigger] self.slot_gate(i)).wf())
    }

    /// Whether a storage is registered under `key`.
    pub closed spec fn has(self, key: u64) -> bool {
        exists|i: int|
            0 <= i < self.n_slots() && #[trigger] self.slot_live(i) && self.slot_key(i) == key
    }

    /// The slot of the storage registered under `key`.
    pub closed spec fn slot_of(self, key: u64) -> int {
        choose|i: int|
            0 <= i < self.n_slots() && #[trigger] self.slot_live(i) && self.slot_key(i) == key
    }

    /// The handle that identifies `key`'s storage.
    pub closed spec fn handle_for(self, key: u64) -> ErasedHandle {
        ErasedHandle { index: self.slot_of(key) as usize }
    }

    pub closed spec fn value_of(self, key: u64) -> T {
        self.slot_storage(self.slot_of(key)).value_spec()
    }

    pub closed spec fn modified_of(self, key: u64) -> bool {
        self.slot_storage(self.slot_of(key)).modified()
    }

    pub closed spec fn shared_of(self, key: u64) -> nat {
        self.slot_gate(self.slot_of(key)).shared_count()
    }

    pub closed spec fn exclusive_of(self, key: u64) -> bool {
        self.slot_gate(self.slot_of(key)).exclusive_held()
    }
}

/// The entry under `key` (presence, handle, value, flag, and gate state) is
/// the same in `pre` and `post`.
pub open spec fn entry_unchanged<T>(pre: Registry<T>, post: Registry<T>, key: u64) -> bool {
    &&& post.has(key) == pre.has(key)
    &&& (pre.has(key) ==> {
        &&& post.handle_for(key) == pre.handle_for(key)
        &&& post.value_of(key) == pre.value_of(key)
        &&& post.modified_of(key) == pre.modified_of(key)
        &&& post.shared_of(key) == pre.shared_of(key)
        &&& post.exclusive_of(key) == pre.exclusive_of(key)
    })
}

/// With distinct live keys, a live slot holding `key` is the slot of `key`.
proof fn lemma_slot_determined<T>(r: Registry<T>, key: u64, i: int)
    requires
        r.wf(),
        0 <= i < r.n_slots(),
        r.slot_live(i),
        r.slot_key(i) == key,
    ensures
        r.has(key),
        r.slot_of(key) == i,
{
    assert(r.has(key));
    let j = r.slot_of(key);
    assert(0 <= j < r.n_slots() && r.slot_live(j) && r.slot_key(j) == key);
    if i < j {
        assert(r.slot_key(i) != r.slot_key(j));
    }
    if j < i {
        assert(r.slot_key(j) != r.slot_key(i));
    }
}

/// Entries other than the one in slot `m` are untouched by an update of
/// slot `m` alone.
proof fn lemma_frame<T>(pre: Registry<T>, post: Registry<T>, m: int)
    requires
        pre.wf(),
        post.wf(),
        post.n_slots() == pre.n_slots(),
        0 <= m < pre.n_slots(),
        forall|i: int| 0 <= i < pre.n_slots() ==> post.slot_key(i) == #[trigger] pre.slot_key(i),
        forall|i: int|
            0 <= i < pre.n_slots() && i != m ==> post.slot_live(i) == #[trigger] pre.slot_live(i)
                && post.slot_gate(i) == pre.slot_gate(i)
                && (pre.slot_live(i) ==> post.slot_storage(i) == pre.slot_storage(i)),
    ensures
        forall|k: u64| k != pre.slot_key(m) ==> entry_unchanged(pre, post, k),
{
    assert forall|k: u64| k != pre.slot_key(m) implies entry_unchanged(pre, post, k) by {
        if pre.has(k) {
            let i = pre.slot_of(k);
            assert(0 <= i < pre.n_slots() && pre.slot_live(i) && pre.slot_key(i) == k);
            assert(i != m);
            assert(post.slot_live(i));
            lemma_slot_determined(post, k, i);
        }
        if post.has(k) {
            let j = post.slot_of(k);
            assert(0 <= j < post.n_slots() && post.slot_live(j) && post.slot_key(j) == k);
            assert(j != m);
            assert(pre.slot_live(j));
            lemma_slot_determined(pre, k, j);
        }
    }
}

/// Entries other than a freshly pushed one are untouched by the push.
proof fn lemma_frame_push<T>(pre: Registry<T>, post: Registry<T>, key: u64)
    requires
        pre.wf(),
        post.wf(),
        post.n_slots() == pre.n_slots() + 1,
        post.slot_key(pre.n_slots()) == key,
        forall|i: int|
            0 <= i < pre.n_slots() ==> post.slot_key(i) == #[trigger] pre.slot_key(i)
                && post.slot_live(i) == pre.slot_live(i)
                && post.slot_gate(i) == pre.slot_gate(i)
                && (pre.slot_live(i) ==> post.slot_storage(i) == pre.slot_storage(i)),
    ensures
        forall|k: u64| k != key ==> entry_unchanged(pre, post, k),
{
    assert forall|k: u64| k != key implies entry_unchanged(pre, post, k) by {
        if pre.has(k) {
            let i = pre.slot_of(k);
            assert(0 <= i < pre.n_slots() && pre.slot_live(i) && pre.slot_key(i) == k);
            assert(post.slot_live(i));
            lemma_slot_determined(post, k, i);
        }
        if post.has(k) {
            let j = post.slot_of(k);
            assert(0 <= j < post.n_slots() && post.slot_live(j) && post.slot_key(j) == k);
            assert(j != pre.n_slots());
            assert(pre.slot_key(j) == post.slot_key(j));
            assert(pre.slot_live(j));
            lemma_slot_determined(pre, k, j);
        }
    }
}

/// Updating one slot's gate alone leaves every other entry untouched and
/// keeps the entry's identity, value and flag.
proof fn lemma_gate_update<T>(pre: Registry<T>, post: Registry<T>, key: u64, m: int, g: BorrowGate)
    requires
        pre.wf(),
        g.wf(),
        0 <= m < pre.n_slots(),
        pre.slot_live(m),
        pre.slot_key(m) == key,
        post.keys@ == pre.keys@,
        post.storages@ == pre.storages@,
        post.gates@ == pre.gates@.update(m, g),
    ensures
        post.wf(),
        post.has(key),
        post.slot_of(key) == m,
        pre.slot_of(key) == m,
        post.handle_for(key) == pre.handle_for(key),
        post.value_of(key) == pre.value_of(key),
        post.modified_of(key) == pre.modified_of(key),
        post.shared_of(key) == g.shared_count(),
        post.exclusive_of(key) == g.exclusive_held(),
        forall|k: u64| k != key ==> entry_unchanged(pre, post, k),
{
    lemma_slot_determined(pre, key, m);
    assert forall|i: int, j: int|
        0 <= i < j < post.n_slots() && #[trigger] post.slot_live(i) && #[trigger] post.slot_live(j)
            implies post.slot_key(i) != post.slot_key(j) by {
        assert(pre.slot_live(i) && pre.slot_live(j));
        assert(pre.slot_key(i) != pre.slot_key(j));
    }
    assert forall|i: int| 0 <= i < post.n_slots() implies (#[trigger] post.slot_gate(i)).wf() by {
        if i != m {
            assert(post.slot_gate(i) == pre.slot_gate(i));
            assert(pre.slot_gate(i).wf());
        }
    }
    assert(post.wf());
    lemma_slot_determined(post, key, m);
    lemma_frame(pre, post, m);
}

/// Replacing one slot's storage alone leaves every other entry untouched and
/// keeps the entry's identity and gate state.
proof fn lemma_storage_update<T>(
    pre: Registry<T>,
    post: Registry<T>,
    key: u64,
    m: int,
    u: Unique<T>,
)
    requires
        pre.wf(),
        0 <= m < pre.n_slots(),
        pre.slot_live(m),
        pre.slot_key(m) == key,
        post.keys@ == pre.keys@,
        post.gates@ == pre.gates@,
        post.storages@ == pre.storages@.update(m, Some(u)),
    ensures
        post.wf(),
        post.has(key),
        post.slot_of(key) == m,
        pre.slot_of(key) == m,
        post.handle_for(key) == pre.handle_for(key),
        post.value_of(key) == u.value_spec(),
        post.modified_of(key) == u.modified(),
        post.shared_of(key) == pre.shared_of(key),
        post.exclusive_of(key) == pre.exclusive_of(key),
        forall|k: u64| k != key ==> entry_unchanged(pre, post, k),
{
    lemma_slot_determined(pre, key, m);
    assert forall|i: int, j: int|
        0 <= i < j < post.n_slots() && #[trigger] post.slot_live(i) && #[trigger] post.slot_live(j)
            implies post.slot_key(i) != post.slot_key(j) by {
        assert(pre.slot_live(i) && pre.slot_live(j));
        assert(pre.slot_key(i) != pre.slot_key(j));
    }
    assert forall|i: int| 0 <= i < post.n_slots() implies (#[trigger] post.slot_gate(i)).wf() by {
        assert(post.slot_gate(i) == pre.slot_gate(i));
        assert(pre.slot_gate(i).wf());
    }
    assert(post.wf());
    lemma_slot_determined(post, key, m);
    lemma_frame(pre, post, m);
}

/// Emptying one slot alone removes exactly that entry and leaves every other
/// entry untouched.
proof fn lemma_storage_remove<T>(pre: Registry<T>, post: Registry<T>, key: u64, m: int)
    requires
        pre.wf(),
        0 <= m < pre.n_slots(),
        pre.slot_live(m),
        pre.slot_key(m) == key,
        post.keys@ == pre.keys@,
        post.gates@ == pre.gates@,
        post.storages@ == pre.storages@.update(m, None::<Unique<T>>),
    ensures
        post.wf(),
        !post.has(key),
        forall|k: u64| k != key ==> entry_unchanged(pre, post, k),
{
    lemma_slot_determined(pre, key, m);
    assert forall|i: int, j: int|
        0 <= i < j < post.n_slots() && #[trigger] post.slot_live(i) && #[trigger] post.slot_live(j)
            implies post.slot_key(i) != post.slot_key(j) by {
        assert(pre.slot_live(i) && pre.slot_live(j));
        assert(pre.slot_key(i) != pre.slot_key(j));
    }
    assert forall|i: int| 0 <= i < post.n_slots() implies (#[trigger] post.slot_gate(i)).wf() by {
        assert(post.slot_gate(i) == pre.slot_gate(i));
        assert(pre.slot_gate(i).wf());
    }
    assert(post.wf());
    if post.has(key) {
        let j = post.slot_of(key);
        assert(0 <= j < post.n_slots() && post.slot_live(j) && post.slot_key(j) == key);
        assert(j != m);
        assert(pre.slot_live(j));
        lemma_slot_determined(pre, key, j);
        assert(false);
    }
    lemma_frame(pre, post, m);
}

impl<T> Registry<T> {
    /// An empty registry: no storage is registered yet.
    pub fn new() -> (r: Registry<T>)
        ensures
            r.wf(),
            forall|k: u64| !r.has(k),
    {
        Registry { keys: Vec::new(), gates: Vec::new(), storages: Vec::new() }
    }

    /// Finds the slot registered under `key`, scanning the columns.
    fn find_slot(&self, key: u64) -> (r: Option<usize>)
        requires
            self.wf(),
        ensures
            match r {
                Some(i) => self.has(key) && i < self.keys@.len() && self.slot_of(key) == i as int,
                None => !self.has(key),
            },
    {
        let n = self.keys.len();
        let mut i: usize = 0;
        while i < n
            invariant
                self.wf(),
                n == self.keys@.len(),
                i <= n,
                forall|j: int| 0 <= j < i ==> !(#[trigger] self.slot_live(j) && self.slot_key(j) == key),
            decreases n - i,
        {
            if self.keys[i] == key {
                let live = match &self.storages[i] {
                    Some(_) => true,
                    None => false,
                };
                if live {
                    proof {
                        lemma_slot_determined(*self, key, i as int);
                    }
                    return Some(i);
                }
            }
            i += 1;
        }
        proof {
            if self.has(key) {
                let j = self.slot_of(key);
                assert(0 <= j < self.n_slots() && self.slot_live(j) && self.slot_key(j) == key);
            }
        }
        None
    }

    /// Whether a storage is registered under `key`.
    pub fn contains(&self, key: u64) -> (b: bool)
        requires
            self.wf(),
        ensures
            b == self.has(key),
    {
        match self.find_slot(key) {
            Some(_) => true,
            None => false,
        }
    }

    /// Returns the handle of `key`'s storage, lazily creating the storage
    /// with the caller-supplied default value on the first request.
    ///
    /// Identity stability: when the storage already exists, the registry is
    /// left untouched and the same handle as before is returned.
    pub fn get_or_create(&mut self, key: u64, default: T) -> (h: ErasedHandle)
        requires
            old(self).wf(),
        ensures
            final(self).wf(),
            final(self).has(key),
            h == final(self).handle_for(key),
            old(self).has(key) ==> *final(self) == *old(self) && h == old(self).handle_for(key),
            !old(self).has(key) ==> final(self).value_of(key) == default
                && !final(self).modified_of(key)
                && final(self).shared_of(key) == 0
                && !final(self).exclusive_of(key),
            forall|k: u64| k != key ==> entry_unchanged(*old(self), *final(self), k),
    {
        let n = self.keys.len();
        match self.find_slot(key) {
            Some(i) => ErasedHandle { index: i },
            None => {
                let u = Unique::new(default);
                self.keys.push(key);
                self.gates.push(BorrowGate::new());
                self.storages.push(Some(u));
                proof {
                    let pre = *old(self);
                    let ni = pre.n_slots();
                    assert forall|i: int| 0 <= i < ni implies self.slot_key(i) == pre.slot_key(i)
                        && self.slot_live(i) == pre.slot_live(i)
                        && self.slot_gate(i) == pre.slot_gate(i)
                        && (pre.slot_live(i) ==> self.slot_storage(i) == pre.slot_storage(
                        i,
                    )) by {
                        assert(self.keys@[i] == pre.keys@[i]);
                        assert(self.storages@[i] == pre.storages@[i]);
                        assert(self.gates@[i] == pre.gates@[i]);
                    }
                    assert(self.slot_live(ni));
                    assert(self.slot_key(ni) == key);
                    assert forall|i: int, j: int|
                        0 <= i < j < self.n_slots() && #[trigger] self.slot_live(i)
                            && #[trigger] self.slot_live(j) implies self.slot_key(i)
                        != self.slot_key(j) by {
                        if j < ni {
                            assert(pre.slot_live(i) && pre.slot_live(j));
                            assert(pre.slot_key(i) != pre.slot_key(j));
                        } else {
                            if self.slot_key(i) == key {
                                lemma_slot_determined(pre, key, i);
                                assert(false);
                            }
                        }
                    }
                    assert forall|i: int| 0 <= i < self.n_slots() implies (#[trigger] self.slot_gate(
                        i,
                    )).wf() by {
                        if i < ni {
                            assert(pre.slot_gate(i).wf());
                        }
                    }
                    assert(self.wf());
                    lemma_slot_determined(*self, key, ni);
                    lemma_frame_push(pre, *self, key);
                }
                ErasedHandle { index: n }
            }
        }
    }

    /// Hands out a mutable view of the storage in a live slot.
    fn storage_mut(&mut self, i: usize) -> (u: &mut Unique<T>)
        requires
            i < old(self).storages@.len(),
            old(self).storages@[i as int] is Some,
        ensures
            *u == old(self).storages@[i as int]->0,
            final(self).keys@ == old(self).keys@,
            final(self).gates@ == old(self).gates@,
            final(self).storages@ == old(self).storages@.update(i as int, Some(*final(u))),
    {
        match &mut self.storages[i] {
            Some(u) => u,
            None => vstd::pervasive::unreached(),
        }
    }

    /// Requests a shared borrow of `key`'s storage: granted exactly when the
    /// storage exists and no exclusive ticket is outstanding on it; any
    /// number of shared grants may be outstanding at once. Nothing else about
    /// the registry changes, and entries under other keys are untouched.
    pub fn borrow_shared(&mut self, key: u64) -> (r: Result<SharedGrant, RegistryError>)
        requires
            old(self).wf(),
            old(self).has(key) ==> old(self).shared_of(key) < usize::MAX,
        ensures
            final(self).wf(),
            final(self).has(key) == old(self).has(key),
            !old(self).has(key) ==> r == Err::<SharedGrant, RegistryError>(
                RegistryError::StorageAbsent,
            ) && *final(self) == *old(self),
            old(self).has(key) ==> {
                &&& (r is Ok <==> !old(self).exclusive_of(key))
                &&& (r is Ok ==> final(self).shared_of(key) == old(self).shared_of(key) + 1
                    && r->Ok_0.key_spec() == key)
                &&& (r is Err ==> r == Err::<SharedGrant, RegistryError>(
                    RegistryError::BorrowConflict,
                ) && *final(self) == *old(self))
                &&& final(self).value_of(key) == old(self).value_of(key)
                &&& final(self).modified_of(key) == old(self).modified_of(key)
                &&& final(self).exclusive_of(key) == old(self).exclusive_of(key)
                &&& final(self).handle_for(key) == old(self).handle_for(key)
            },
            forall|k: u64| k != key ==> entry_unchanged(*old(self), *final(self), k),
    {
        match self.find_slot(key) {
            None => Err(RegistryError::StorageAbsent),
            Some(i) => {
                proof {
                    assert(self.slot_live(i as int) && self.slot_key(i as int) == key);
                    assert(self.slot_gate(i as int).wf());
                }
                let mut g = self.gates[i];
                match g.acquire_shared() {
                    Ok(t) => {
                        self.gates[i] = g;
                        proof {
                            lemma_gate_update(*old(self), *self, key, i as int, g);
                        }
                        Ok(SharedGrant { key, ticket: t })
                    },
                    Err(_) => Err(RegistryError::BorrowConflict),
                }
            },
        }
    }

    /// Requests an exclusive borrow of `key`'s storage: granted exactly when
    /// the storage exists and no ticket of either kind is outstanding on it.
    /// Entries under other keys are untouched, so an exclusive grant on one
    /// storage never blocks borrows on another.
    pub fn borrow_exclusive(&mut self, key: u64) -> (r: Result<ExclusiveGrant, RegistryError>)
        requires
            old(self).wf(),
        ensures
            final(self).wf(),
            final(self).has(key) == old(self).has(key),
            !old(self).has(key) ==> r == Err::<ExclusiveGrant, RegistryError>(
                RegistryError::StorageAbsent,
            ) && *final(self) == *old(self),
            old(self).has(key) ==> {
                &&& (r is Ok <==> old(self).shared_of(key) == 0 && !old(self).exclusive_of(key))
                &&& (r is Ok ==> final(self).exclusive_of(key) && final(self).shared_of(key) == 0
                    && r->Ok_0.key_spec() == key)
                &&& (r is Err ==> r == Err::<ExclusiveGrant, RegistryError>(
                    RegistryError::BorrowConflict,
                ) && *final(self) == *old(self))
                &&& final(self).value_of(key) == old(self).value_of(key)
                &&& final(self).modified_of(key) == old(self).modified_of(key)
                &&& final(self).handle_for(key) == old(self).handle_for(key)
            },
            forall|k: u64| k != key ==> entry_unchanged(*old(self), *final(self), k),
    {
        match self.find_slot(key) {
            None => Err(RegistryError::StorageAbsent),
            Some(i) => {
                proof {
                    assert(self.slot_live(i as int) && self.slot_key(i as int) == key);
                    assert(self.slot_gate(i as int).wf());
                }
                let mut g = self.gates[i];
                match g.acquire_exclusive() {
                    Ok(t) => {
                        self.gates[i] = g;
                        proof {
                            lemma_gate_update(*old(self), *self, key, i as int, g);
                        }
                        Ok(ExclusiveGrant { key, ticket: t })
                    },
                    Err(_) => Err(RegistryError::BorrowConflict),
                }
            },
        }
    }

    /// Gives a shared grant back: one outstanding reader fewer on that
    /// storage; the value and the modification flag are untouched.
    pub fn release_shared(&mut self, grant: SharedGrant)
        requires
            old(self).wf(),
            old(self).has(grant.key_spec()),
            old(self).shared_of(grant.key_spec()) > 0,
        ensures
            final(self).wf(),
            final(self).has(grant.key_spec()),
            final(self).shared_of(grant.key_spec()) == old(self).shared_of(grant.key_spec()) - 1,
            final(self).exclusive_of(grant.key_spec()) == old(self).exclusive_of(grant.key_spec()),
            final(self).value_of(grant.key_spec()) == old(self).value_of(grant.key_spec()),
            final(self).modified_of(grant.key_spec()) == old(self).modified_of(grant.key_spec()),
            final(self).handle_for(grant.key_spec()) == old(self).handle_for(grant.key_spec()),
            forall|k: u64| k != grant.key_spec() ==> entry_unchanged(*old(self), *final(self), k),
    {
        let SharedGrant { key, ticket } = grant;
        match self.find_slot(key) {
            Some(i) => {
                proof {
                    assert(self.slot_live(i as int) && self.slot_key(i as int) == key);
                    assert(self.slot_gate(i as int).wf());
                }
                let mut g = self.gates[i];
                g.release_shared(ticket);
                self.gates[i] = g;
                proof {
                    lemma_gate_update(*old(self), *self, key, i as int, g);
                }
            },
            None => {
                proof {
                    assert(false);
                }
            },
        }
    }

    /// Gives an exclusive grant back: no ticket is outstanding on the storage
    /// afterwards, and the release records the mutation: the storage's modification flag reads
    /// `true` afterwards, until explicitly consumed.
    pub fn release_exclusive(&mut self, grant: ExclusiveGrant)
        requires
            old(self).wf(),
            old(self).has(grant.key_spec()),
            old(self).exclusive_of(grant.key_spec()),
        ensures
            final(self).wf(),
            final(self).has(grant.key_spec()),
            final(self).shared_of(grant.key_spec()) == 0,
            !final(self).exclusive_of(grant.key_spec()),
            final(self).modified_of(grant.key_spec()),
            final(self).value_of(grant.key_spec()) == old(self).value_of(grant.key_spec()),
            final(self).handle_for(grant.key_spec()) == old(self).handle_for(grant.key_spec()),
            forall|k: u64| k != grant.key_spec() ==> entry_unchanged(*old(self), *final(self), k),
    {
        let ExclusiveGrant { key, ticket } = grant;
        match self.find_slot(key) {
            Some(i) => {
                proof {
                    assert(self.slot_live(i as int) && self.slot_key(i as int) == key);
                    assert(self.slot_gate(i as int).wf());
                }
                let mut g = self.gates[i];
                g.release_exclusive(ticket);
                self.gates[i] = g;
                proof {
                    lemma_gate_update(*old(self), *self, key, i as int, g);
                }
                let ghost mid = *self;
                let u = self.storage_mut(i);
                u.mark_modified();
                proof {
                    let w = self.storages@[i as int]->0;
                    lemma_storage_update(mid, *self, key, i as int, w);
                    assert forall|k: u64| k != key implies entry_unchanged(
                        *old(self),
                        *self,
                        k,
                    ) by {
                        assert(entry_unchanged(*old(self), mid, k));
                        assert(entry_unchanged(mid, *self, k));
                    }
                }
            },
            None => {
                proof {
                    assert(false);
                }
            },
        }
    }

    /// Reads the value of the storage a shared grant is out on.
    pub fn read(&self, grant: &SharedGrant) -> (r: &T)
        requires
            self.wf(),
            self.has(grant.key_spec()),
        ensures
            *r == self.value_of(grant.key_spec()),
    {
        match self.find_slot(grant.key) {
            Some(i) => {
                proof {
                    assert(self.slot_live(i as int));
                }
                match &self.storages[i] {
                    Some(u) => u.get(),
                    None => vstd::pervasive::unreached(),
                }
            },
            None => vstd::pervasive::unreached(),
        }
    }

    /// Writes through an exclusive grant: replaces the stored value. The
    /// modification flag is recorded when the grant is released, not here.
    pub fn write(&mut self, grant: &ExclusiveGrant, value: T)
        requires
            old(self).wf(),
            old(self).has(grant.key_spec()),
            old(self).exclusive_of(grant.key_spec()),
        ensures
            final(self).wf(),
            final(self).has(grant.key_spec()),
            final(self).value_of(grant.key_spec()) == value,
            final(self).modified_of(grant.key_spec()) == old(self).modified_of(grant.key_spec()),
            final(self).shared_of(grant.key_spec()) == old(self).shared_of(grant.key_spec()),
            final(self).exclusive_of(grant.key_spec()) == old(self).exclusive_of(grant.key_spec()),
            final(self).handle_for(grant.key_spec()) == old(self).handle_for(grant.key_spec()),
            forall|k: u64| k != grant.key_spec() ==> entry_unchanged(*old(self), *final(self), k),
    {
        match self.find_slot(grant.key) {
            Some(i) => {
                proof {
                    assert(self.slot_live(i as int) && self.slot_key(i as int) == grant.key_spec());
                }
                let u = self.storage_mut(i);
                u.set(value);
                proof {
                    let w = self.storages@[i as int]->0;
                    lemma_storage_update(*old(self), *self, grant.key_spec(), i as int, w);
                }
            },
            None => {
                proof {
                    assert(false);
                }
            },
        }
    }

    /// Reads the modification flag of `key`'s storage without clearing it.
    pub fn is_modified(&self, key: u64) -> (b: bool)
        requires
            self.wf(),
            self.has(key),
        ensures
            b == self.modified_of(key),
    {
        match self.find_slot(key) {
            Some(i) => {
                proof {
                    assert(self.slot_live(i as int));
                }
                match &self.storages[i] {
                    Some(u) => u.is_modified(),
                    None => vstd::pervasive::unreached(),
                }
            },
            None => vstd::pervasive::unreached(),
        }
    }

    /// Reads and clears the modification flag of `key`'s storage, for
    /// change-reactive consumers.
    pub fn consume_modified(&mut self, key: u64) -> (b: bool)
        requires
            old(self).wf(),
            old(self).has(key),
        ensures
            final(self).wf(),
            final(self).has(key),
            b == old(self).modified_of(key),
            !final(self).modified_of(key),
            final(self).value_of(key) == old(self).value_of(key),
            final(self).shared_of(key) == old(self).shared_of(key),
            final(self).exclusive_of(key) == old(self).exclusive_of(key),
            final(self).handle_for(key) == old(self).handle_for(key),
            forall|k: u64| k != key ==> entry_unchanged(*old(self), *final(self), k),
    {
        match self.find_slot(key) {
            Some(i) => {
                proof {
                    assert(self.slot_live(i as int) && self.slot_key(i as int) == key);
                }
                let u = self.storage_mut(i);
                let b = u.consume_modified();
                proof {
                    let w = self.storages@[i as int]->0;
                    lemma_storage_update(*old(self), *self, key, i as int, w);
                }
                b
            },
            None => vstd::pervasive::unreached(),
        }
    }

    /// Drops the storage registered under `key`. Absence is a no-op reported
    /// as `Ok(false)`; removal needs exclusive access to the slot, so any
    /// outstanding ticket turns the request into a `BorrowConflict`.
    pub fn remove(&mut self, key: u64) -> (r: Result<bool, RegistryError>)
        requires
            old(self).wf(),
        ensures
            final(self).wf(),
            !old(self).has(key) ==> r == Ok::<bool, RegistryError>(false) && *final(self) == *old(
                self,
            ),
            old(self).has(key) && (old(self).shared_of(key) > 0 || old(self).exclusive_of(key))
                ==> r == Err::<bool, RegistryError>(RegistryError::BorrowConflict) && *final(self)
                == *old(self),
            old(self).has(key) && old(self).shared_of(key) == 0 && !old(self).exclusive_of(key)
                ==> r == Ok::<bool, RegistryError>(true) && !final(self).has(key),
            forall|k: u64| k != key ==> entry_unchanged(*old(self), *final(self), k),
    {
        match self.find_slot(key) {
            None => Ok(false),
            Some(i) => {
                proof {
                    assert(self.slot_live(i as int) && self.slot_key(i as int) == key);
                }
                let g = self.gates[i];
                if g.is_idle() {
                    self.storages[i] = None;
                    proof {
                        lemma_storage_remove(*old(self), *self, key, i as int);
                    }
                    Ok(true)
                } else {
                    Err(RegistryError::BorrowConflict)
                }
            },
        }
    }
}

/// Identity stability law: once a storage exists under a key, any later
/// `get_or_create` for that key returns the handle the registry holds for it;
/// as long as the entry is untouched (every operation on other keys keeps
/// `entry_unchanged`), that handle is the one returned before.
pub proof fn lemma_identity_stability<T>(
    r0: Registry<T>,
    r1: Registry<T>,
    key: u64,
    h0: ErasedHandle,
    h1: ErasedHandle,
)
    requires
        r0.has(key),
        h0 == r0.handle_for(key),
        entry_unchanged(r0, r1, key),
        h1 == r1.handle_for(key),
    ensures
        r1.has(key),
        h0 == h1,
{
}

/// Independence law: storages under distinct keys have independent gates. An
/// operation on one key leaves another key's entry unchanged (that is what
/// every operation's `entry_unchanged` frame clause states), and then the
/// other storage's gate state — hence whether a shared or exclusive borrow on
/// it would be granted — is exactly what it was before.
pub proof fn lemma_cross_key_independence<T>(
    pre: Registry<T>,
    post: Registry<T>,
    key: u64,
    other: u64,
)
    requires
        other != key,
        pre.has(other),
        entry_unchanged(pre, post, other),
    ensures
        post.has(other),
        post.shared_of(other) == pre.shared_of(other),
        post.exclusive_of(other) == pre.exclusive_of(other),
        post.value_of(other) == pre.value_of(other),
        post.modified_of(other) == pre.modified_of(other),
        post.handle_for(other) == pre.handle_for(other),
{
}

} // verus!
