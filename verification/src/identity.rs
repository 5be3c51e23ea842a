use vstd::prelude::*;

verus! {

/// Identity of one sub-channel: a strictly increasing integer, unique within
/// one session's lifetime and never recycled, so a stale reference held by
/// the peer can never collide with a newer stream.
#[derive(Clone, Copy, Debug, PartialEq, Eq, Structural)]
pub struct BiStream(pub u64);

/// The identity token the two peers exchange to agree on which sub-channel
/// carries an alternate connection.
#[derive(Clone, Copy, Debug, PartialEq, Eq, Structural)]
pub struct TarpcBiStream(pub BiStream);

impl TarpcBiStream {
    /// The raw identity this token names.
    pub open spec fn id(self) -> u64 {
        self.0.0
    }

    pub fn new(id: u64) -> (r: Self)
        ensures
            r.id() == id,
    {
        TarpcBiStream(BiStream(id))
    }

    pub fn id_value(&self) -> (r: u64)
        ensures
            r == self.id(),
    {
        self.0.0
    }
}

/// `web_transport::Session` is the secure multiplexed connection whose
/// streams this layer bridges. It is held opaquely; only unverified callers
/// drive its stream operations.
#[verifier::external_type_specification]
#[verifier::external_body]
pub struct ExSession(web_transport::Session);

/// Allocator of sub-channel identities: a deterministic counter with a
/// single-owner, sequential-call contract.
pub struct IdentityAllocator {
    pub next_id: u64,
    pub allocated: Ghost<Seq<u64>>,
}

impl IdentityAllocator {
    /// Every identity handed out so far, oldest first.
    pub open spec fn allocated_ids(self) -> Seq<u64> {
        self.allocated@
    }

    /// Allocator invariant: everything handed out lies below the counter, and
    /// allocation order is strictly increasing.
    pub open spec fn wf(self) -> bool {
        &&& forall|i: int|
            0 <= i < self.allocated@.len() ==> #[trigger] self.allocated@[i] < self.next_id
        &&& forall|i: int, j: int|
            0 <= i < j < self.allocated@.len() ==> #[trigger] self.allocated@[i]
                < #[trigger] self.allocated@[j]
    }

    pub fn new() -> (r: Self)
        ensures
            r.next_id == 0,
            r.allocated_ids() == Seq::<u64>::empty(),
            r.wf(),
    {
        IdentityAllocator { next_id: 0, allocated: Ghost(Seq::empty()) }
    }

    /// Hand out the next identity and advance the counter.
    pub fn next(&mut self) -> (r: u64)
        requires
            old(self).next_id < u64::MAX,
            old(self).wf(),
        ensures
            r == old(self).next_id,
            final(self).next_id == old(self).next_id + 1,
            final(self).allocated_ids() == old(self).allocated_ids().push(r),
            final(self).wf(),
    {
        let next = self.next_id + 1;
        let r = self.next_id;
        self.next_id = next;
        self.allocated = Ghost(self.allocated@.push(r));
        r
    }
}

/// Owns the network session and drives the identity allocator.
pub struct Framework {
    pub sess: web_transport::Session,
    pub ids: IdentityAllocator,
}

impl Framework {
    pub fn new(sess: web_transport::Session) -> (r: Self)
        ensures
            r.sess == sess,
            r.ids.next_id == 0,
            r.ids.allocated_ids() == Seq::<u64>::empty(),
            r.ids.wf(),
    {
        Framework { sess, ids: IdentityAllocator::new() }
    }

    /// Hand out the next sub-channel identity for this session.
    pub fn get_next_id(&mut self) -> (r: u64)
        requires
            old(self).ids.next_id < u64::MAX,
            old(self).ids.wf(),
        ensures
            final(self).sess == old(self).sess,
            r == old(self).ids.next_id,
            final(self).ids.next_id == old(self).ids.next_id + 1,
            final(self).ids.allocated_ids() == old(self).ids.allocated_ids().push(r),
            final(self).ids.wf(),
    {
        self.ids.next()
    }
}

/// Law: identities from one allocator are pairwise distinct and strictly
/// increasing in allocation order.
pub proof fn lemma_identity_uniqueness(a: IdentityAllocator)
    requires
        a.wf(),
    ensures
        forall|i: int, j: int|
            0 <= i < j < a.allocated_ids().len() ==> #[trigger] a.allocated_ids()[i]
                < #[trigger] a.allocated_ids()[j],
        forall|i: int, j: int|
            0 <= i < j < a.allocated_ids().len() ==> a.allocated_ids()[i] != a.allocated_ids()[j],
{
}

} // verus!
