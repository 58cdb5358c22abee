use vstd::prelude::*;

verus! {

/// Error returned when a requested access mode is incompatible with the
/// tickets currently outstanding on the same storage. Recoverable: the caller
/// decides whether to retry, skip, or escalate.
#[derive(Clone, Copy, Debug, PartialEq, Eq, Structural)]
pub struct BorrowConflict;

/// A scoped grant of shared access to one storage. It can only be obtained
/// from a gate and must be given back by a release call; consuming it twice is
/// structurally impossible.
pub struct ReadTicket {
    #[allow(dead_code)]
    token: (),
}

/// A scoped grant of exclusive access to one storage, matched by exactly one
/// release.
pub struct WriteTicket {
    #[allow(dead_code)]
    token: (),
}

/// Per-storage runtime arbiter enforcing "many readers xor one writer".
///
/// Acquisition is immediate success or failure: it never blocks and never
/// silently succeeds on a conflicting request.
#[derive(Clone, Copy)]
pub struct BorrowGate {
    shared: usize,
    exclusive: bool,
}

impl BorrowGate {
    /// How many shared tickets are outstanding.
    pub closed spec fn shared_count(self) -> nat {
        self.shared as nat
    }

    /// Whether an exclusive ticket is outstanding.
    pub closed spec fn exclusive_held(self) -> bool {
        self.exclusive
    }

    /// A gate never holds readers and a writer at the same time.
    pub open spec fn wf(self) -> bool {
        self.exclusive_held() ==> self.shared_count() == 0
    }

    /// No ticket of either kind is outstanding.
    pub open spec fn idle(self) -> bool {
        self.shared_count() == 0 && !self.exclusive_held()
    }

    /// Admission rule for shared access: any number of readers may coexist,
    /// only a writer excludes them.
    pub open spec fn can_acquire_shared(self) -> bool {
        !self.exclusive_held()
    }

    /// Admission rule for exclusive access: no reader and no writer may be
    /// outstanding.
    pub open spec fn can_acquire_exclusive(self) -> bool {
        self.shared_count() == 0 && !self.exclusive_held()
    }

    pub fn new() -> (g: BorrowGate)
        ensures
            g.idle(),
            g.wf(),
    {
        BorrowGate { shared: 0, exclusive: false }
    }

    /// Reports whether no ticket is outstanding.
    pub fn is_idle(&self) -> (b: bool)
        ensures
            b == self.idle(),
    {
        self.shared == 0 && !self.exclusive
    }

    /// Grants a shared ticket exactly when no exclusive ticket is out.
    pub fn acquire_shared(&mut self) -> (r: Result<ReadTicket, BorrowConflict>)
        requires
            old(self).wf(),
            old(self).shared_count() < usize::MAX,
        ensures
            final(self).wf(),
            r is Ok <==> old(self).can_acquire_shared(),
            r is Ok ==> final(self).shared_count() == old(self).shared_count() + 1,
            r is Err ==> *final(self) == *old(self),
            final(self).exclusive_held() == old(self).exclusive_held(),
    {
        if self.exclusive {
            Err(BorrowConflict)
        } else {
            self.shared = self.shared + 1;
            Ok(ReadTicket { token: () })
        }
    }

    /// Grants the exclusive ticket exactly when no ticket of either kind is
    /// outstanding.
    pub fn acquire_exclusive(&mut self) -> (r: Result<WriteTicket, BorrowConflict>)
        requires
            old(self).wf(),
        ensures
            final(self).wf(),
            r is Ok <==> old(self).can_acquire_exclusive(),
            r is Ok ==> final(self).exclusive_held() && final(self).shared_count() == 0,
            r is Err ==> *final(self) == *old(self),
    {
        if self.exclusive || self.shared > 0 {
            Err(BorrowConflict)
        } else {
            self.exclusive = true;
            Ok(WriteTicket { token: () })
        }
    }

    /// Gives a shared ticket back; one outstanding reader fewer.
    pub fn release_shared(&mut self, _ticket: ReadTicket)
        requires
            old(self).wf(),
            old(self).shared_count() > 0,
        ensures
            final(self).wf(),
            final(self).shared_count() == old(self).shared_count() - 1,
            final(self).exclusive_held() == old(self).exclusive_held(),
    {
        self.shared = self.shared - 1;
    }

    /// Gives the exclusive ticket back; no ticket is outstanding afterwards.
    pub fn release_exclusive(&mut self, _ticket: WriteTicket)
        requires
            old(self).wf(),
            old(self).exclusive_held(),
        ensures
            final(self).wf(),
            final(self).idle(),
    {
        self.exclusive = false;
    }
}

/// Mutual exclusion law: while the exclusive ticket is out, no further ticket
/// of either kind can be granted, and while any shared ticket is out, the
/// exclusive ticket cannot be granted.
pub proof fn lemma_mutual_exclusion(g: BorrowGate)
    requires
        g.wf(),
    ensures
        g.exclusive_held() ==> !g.can_acquire_shared() && !g.can_acquire_exclusive(),
        g.shared_count() > 0 ==> !g.can_acquire_exclusive(),
{
}

/// Shared access is unbounded: admission of one more reader never depends on
/// how many readers are already outstanding, only on the absence of a writer.
pub proof fn lemma_shared_unbounded(g: BorrowGate)
    requires
        g.wf(),
    ensures
        g.can_acquire_shared() == !g.exclusive_held(),
{
}

/// Releasing the last shared ticket re-enables the exclusive acquisition that
/// it blocked: `pre` holds exactly one reader (so an exclusive request was
/// refused), `post` is the state `release_shared` leaves, and in `post` the
/// retried exclusive request is granted, provided no other ticket was taken
/// in between.
pub proof fn lemma_release_shared_enables_exclusive(pre: BorrowGate, post: BorrowGate)
    requires
        pre.wf(),
        pre.shared_count() == 1,
        post.shared_count() == pre.shared_count() - 1,
        post.exclusive_held() == pre.exclusive_held(),
    ensures
        !pre.can_acquire_exclusive(),
        post.can_acquire_exclusive(),
        post.can_acquire_shared(),
{
}

/// Releasing the exclusive ticket re-enables the complementary acquisitions
/// that it blocked: `pre` holds the writer (so both kinds of request were
/// refused), `post` is the idle state `release_exclusive` leaves, and in
/// `post` both kinds of request are granted.
pub proof fn lemma_release_exclusive_enables_all(pre: BorrowGate, post: BorrowGate)
    requires
        pre.wf(),
        pre.exclusive_held(),
        post.idle(),
    ensures
        !pre.can_acquire_shared(),
        !pre.can_acquire_exclusive(),
        post.can_acquire_shared(),
        post.can_acquire_exclusive(),
{
}

} // verus!
