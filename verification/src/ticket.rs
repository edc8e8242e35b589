use vstd::prelude::*;

verus! {

/// Each enqueued job yields a ticket which can be used to check whether the
/// job is done. Tickets are opaque: only a [`TicketGenerator`] can construct
/// one, and no operation ever reuses an identity.
#[derive(Debug, PartialEq, Eq, Structural, Hash)]
pub struct Ticket(usize);

impl Ticket {
    /// The identity this ticket carries.
    pub closed spec fn id(self) -> int {
        self.0 as int
    }

    pub(crate) fn raw(&self) -> (r: usize)
        ensures
            r as int == self.id(),
    {
        self.0
    }
}

/// A monotonically increasing counter issuing fresh ticket identities.
/// It is owned by exactly one pool and never shared, so the identities it
/// hands out are unique within that pool.
pub struct TicketGenerator(usize);

/// The identity of the `n`-th ticket issued by a generator whose counter
/// stands at `start`.
pub open spec fn ticket_id_at(start: int, n: nat) -> int {
    start + n
}

impl TicketGenerator {
    /// The counter value: the identity the next issued ticket will carry.
    pub closed spec fn counter(self) -> int {
        self.0 as int
    }

    /// A fresh generator, starting at identity zero.
    pub fn new() -> (g: TicketGenerator)
        ensures
            g.counter() == 0,
    {
        TicketGenerator(0)
    }

    /// Issues a fresh identity as two tickets that carry it: one for the
    /// caller, one for the scheduler's own bookkeeping of the same job.
    /// The counter only ever grows, so no identity is ever issued twice.
    pub fn next(&mut self) -> (r: (Ticket, Ticket))
        requires
            old(self).counter() < usize::MAX,
        ensures
            r.0.id() == old(self).counter(),
            r.1 == r.0,
            r.0.id() == ticket_id_at(old(self).counter(), 0),
            final(self).counter() == old(self).counter() + 1,
    {
        let i = self.0;
        self.0 = self.0 + 1;
        (Ticket(i), Ticket(i))
    }

    /// How many tickets this generator has issued so far.
    pub fn issued(&self) -> (n: usize)
        ensures
            n as int == self.counter(),
    {
        self.0
    }
}

impl Default for TicketGenerator {
    fn default() -> (g: Self)
        ensures
            g.counter() == 0,
    {
        TicketGenerator::new()
    }
}

/// Law (ticket identity): a ticket's identity is the counter at its issue,
/// and each issue advances the counter by one, so the identity of the `n`-th
/// ticket issued from any starting counter is `ticket_id_at(start, n)`.
/// Distinct issues therefore never produce equal tickets.
pub proof fn lemma_ticket_identity(start: int, n: nat, m: nat)
    requires
        n != m,
    ensures
        ticket_id_at(start, n) != ticket_id_at(start, m),
{
}

} // verus!
