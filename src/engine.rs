use vstd::prelude::*;
use crate::balances::Balances;
use crate::crypto::{entry_id, signed_by_sender, verify_transfer};
use crate::ledger::{chain_linked, prev_id, since, Ledger};
use crate::types::{bytes32_eq, Digest, Entry, Event, Identity, RejectReason};

verus! {

/// The accounting engine: verifies transfers, orders them against the chain
/// head, applies them to the balance table and records them in the chain.
///
/// Callers that share one engine must serialize `process` behind a single
/// exclusive lock; `&mut self` makes each call one indivisible step.
pub struct Accountant {
    ledger: Ledger,
    balances: Balances,
    supply: Ghost<nat>,
}

impl Accountant {
    pub closed spec fn chain(&self) -> Ledger {
        self.ledger
    }

    pub closed spec fn table(&self) -> Balances {
        self.balances
    }

    /// The tokens that genesis created; no transfer changes it.
    pub closed spec fn supply(&self) -> nat {
        self.supply@
    }

    pub open spec fn wf(&self) -> bool {
        &&& self.chain().wf()
        &&& self.table().wf()
        &&& self.table().total() == self.supply()
    }

    pub open spec fn genesis(&self) -> Seq<u8> {
        self.chain().genesis()
    }

    pub open spec fn head(&self) -> Seq<u8> {
        self.chain().head()
    }

    pub open spec fn entries(&self) -> Seq<Entry> {
        self.chain().entries()
    }

    pub open spec fn balance(&self, k: Seq<u8>) -> u64 {
        self.table().balance(k)
    }

    /// The verdict on `e` in this state, given whether its signature verified:
    /// the signature is judged first, then the reference against the head,
    /// then the sender's funds.
    pub open spec fn outcome(&self, e: Event, signature_valid: bool) -> Result<(), RejectReason> {
        let t = e.transfer();
        if !signature_valid {
            Err(RejectReason::BadSignature)
        } else if t.reference@ != self.head() {
            Err(RejectReason::StaleOrConflictingReference)
        } else if self.balance(t.from@) < t.amount {
            Err(RejectReason::InsufficientFunds)
        } else {
            Ok(())
        }
    }

    /// This state is `before` with `e` applied: one entry appended whose id
    /// hashes the old head with `e`, and the amount moved between the two
    /// accounts.
    pub open spec fn applied(&self, before: Accountant, e: Event) -> bool {
        let t = e.transfer();
        &&& self.genesis() == before.genesis()
        &&& self.entries().len() == before.entries().len() + 1
        &&& self.entries().drop_last() == before.entries()
        &&& self.entries().last().event == e
        &&& self.head() == entry_id(before.head(), e)
        &&& self.supply() == before.supply()
        &&& forall|k: Seq<u8>| #[trigger] self.balance(k) == before.table().after_transfer(t.from@, t.to@, t.amount, k)
    }

    /// A ledger anchored at `first_id` in which `mint` holds `tokens`.
    pub fn new(first_id: Digest, mint: Identity, tokens: u64) -> (r: Accountant)
        ensures
            r.wf(),
            r.genesis() == first_id@,
            r.head() == first_id@,
            r.entries() == Seq::<Entry>::empty(),
            r.supply() == tokens,
            forall|k: Seq<u8>| #[trigger] r.balance(k) == if k == mint@ { tokens } else { 0 },
    {
        Accountant {
            ledger: Ledger::new(first_id),
            balances: Balances::with_mint(mint, tokens),
            supply: Ghost(tokens as nat),
        }
    }

    /// Judges and applies `event`, where `signature_valid` is whether its
    /// sender's signature verified (`verify_transfer`). On success the event is
    /// recorded and the amount moved; on failure nothing changes.
    pub fn process_verified(&mut self, event: Event, signature_valid: bool) -> (r: Result<(), RejectReason>)
        requires
            old(self).wf(),
        ensures
            final(self).wf(),
            r == old(self).outcome(event, signature_valid),
            r.is_ok() ==> final(self).applied(*old(self), event),
            r.is_err() ==> *final(self) == *old(self),
    {
        let t = match event {
            Event::Transfer(t) => t,
        };
        if !signature_valid {
            return Err(RejectReason::BadSignature);
        }
        let head = self.ledger.head_id();
        if !bytes32_eq(&t.reference, &head) {
            return Err(RejectReason::StaleOrConflictingReference);
        }
        let ghost before = *self;
        match self.balances.apply_transfer(&t.from, &t.to, t.amount) {
            Ok(()) => {},
            Err(_) => {
                return Err(RejectReason::InsufficientFunds);
            },
        }
        self.ledger.append(event);
        proof {
            assert(self.entries().drop_last() =~= before.entries());
        }
        Ok(())
    }

    /// Verifies the sender's signature on `event`, then judges and applies it
    /// as `process_verified` does.
    pub fn process(&mut self, event: Event) -> (r: Result<(), RejectReason>)
        requires
            old(self).wf(),
        ensures
            final(self).wf(),
            r == old(self).outcome(event, signed_by_sender(event.transfer())),
            r.is_ok() ==> final(self).applied(*old(self), event),
            r.is_err() ==> *final(self) == *old(self),
    {
        let ok = match event {
            Event::Transfer(t) => verify_transfer(&t),
        };
        self.process_verified(event, ok)
    }

    /// Balance of `id`; 0 for an identity never credited. Reads change
    /// nothing, so repeated reads agree until the next successful `process`.
    pub fn balance_of(&self, id: &Identity) -> (r: u64)
        requires
            self.wf(),
        ensures
            r == self.balance(id@),
    {
        self.balances.get(id)
    }

    /// The fixed digest that precedes the first entry.
    pub fn genesis_id(&self) -> (r: Digest)
        ensures
            r@ == self.genesis(),
    {
        self.ledger.genesis_id()
    }

    /// The digest of the most recent entry, or the genesis digest.
    pub fn current_id(&self) -> (r: Digest)
        requires
            self.wf(),
        ensures
            r@ == self.head(),
            r@ == crate::ledger::head_of(self.genesis(), self.entries()),
    {
        self.ledger.head_id()
    }

    /// Barrier before a fresh read of the head. Holding the engine borrowed
    /// means no `process` call is in flight, so it returns at once.
    pub fn finalize(&self) {
    }

    /// The entries recorded after the point identified by `d`.
    pub fn entries_since(&self, d: &Digest) -> (r: Vec<Entry>)
        ensures
            r@ == since(self.genesis(), self.entries(), d@),
    {
        self.ledger.entries_since(d)
    }
}

/// Chain integrity: in a well-formed ledger every entry's id is the hash of
/// the previous entry's id (the genesis digest for the first) and its event,
/// and the head is the id of the last entry.
pub proof fn law_chain_integrity(a: Accountant)
    requires
        a.wf(),
    ensures
        forall|i: int| 0 < i < a.entries().len() ==>
            (#[trigger] a.entries()[i]).id@ == entry_id(a.entries()[i - 1].id@, a.entries()[i].event),
        a.entries().len() > 0 ==> a.entries()[0].id@ == entry_id(a.genesis(), a.entries()[0].event),
        a.entries().len() > 0 ==> a.head() == a.entries().last().id@,
        a.entries().len() == 0 ==> a.head() == a.genesis(),
{
    assert(chain_linked(a.genesis(), a.entries()));
    assert forall|i: int| 0 < i < a.entries().len() implies
        (#[trigger] a.entries()[i]).id@ == entry_id(a.entries()[i - 1].id@, a.entries()[i].event) by {
        assert(prev_id(a.genesis(), a.entries(), i) == a.entries()[i - 1].id@);
    }
    if a.entries().len() > 0 {
        assert(a.entries()[0].id@ == entry_id(prev_id(a.genesis(), a.entries(), 0), a.entries()[0].event));
    }
}

/// Conservation: along any run of successfully applied transfers, the sum of
/// all balances stays equal to the sum at the start of the run.
pub proof fn law_conservation(states: Seq<Accountant>, events: Seq<Event>)
    requires
        states.len() == events.len() + 1,
        forall|i: int| 0 <= i < states.len() ==> (#[trigger] states[i]).wf(),
        forall|i: int| 0 <= i < events.len() ==> #[trigger] states[i + 1].applied(states[i], events[i]),
    ensures
        states.last().table().total() == states[0].table().total(),
    decreases events.len(),
{
    if events.len() > 0 {
        let n = events.len() - 1;
        assert(states[n + 1].applied(states[n], events[n]));
        law_conservation(states.drop_last(), events.drop_last());
        assert(states.drop_last()[0] == states[0]);
        assert(states.drop_last().last() == states[n]);
        assert(states[n].wf() && states[n + 1].wf());
    }
}

/// No overdraft: a transfer that was applied never took more from its sender
/// than the sender held, so no balance passes below zero on the way.
pub proof fn law_no_overdraft(before: Accountant, after: Accountant, e: Event)
    requires
        before.wf(),
        after.applied(before, e),
    ensures
        e.transfer().from@ != e.transfer().to@ ==> e.transfer().amount <= before.balance(e.transfer().from@),
        forall|k: Seq<u8>|
            0 <= #[trigger] before.table().after_transfer(e.transfer().from@, e.transfer().to@, e.transfer().amount, k),
{
    let t = e.transfer();
    assert(after.balance(t.from@) == before.table().after_transfer(t.from@, t.to@, t.amount, t.from@));
    assert forall|k: Seq<u8>| 0 <= #[trigger] before.table().after_transfer(t.from@, t.to@, t.amount, k) by {
        assert(after.balance(k) == before.table().after_transfer(t.from@, t.to@, t.amount, k));
    }
}

/// Atomicity: of two transfers from the same sender that both reference the
/// current head, carry valid signatures and each could be paid alone but not
/// both, the first one processed succeeds and the second is rejected as stale
/// or for want of funds.
pub proof fn law_one_of_two_spends(a: Accountant, b: Accountant, e1: Event, e2: Event)
    requires
        a.wf(),
        e1.transfer().reference@ == a.head(),
        e2.transfer().reference@ == a.head(),
        e1.transfer().from == e2.transfer().from,
        e1.transfer().from@ != e1.transfer().to@,
        e1.transfer().amount <= a.balance(e1.transfer().from@),
        e2.transfer().amount <= a.balance(e1.transfer().from@),
        e1.transfer().amount + e2.transfer().amount > a.balance(e1.transfer().from@),
        b.applied(a, e1),
    ensures
        a.outcome(e1, true) == Ok::<(), RejectReason>(()),
        b.outcome(e2, true) == Err::<(), RejectReason>(RejectReason::StaleOrConflictingReference)
            || b.outcome(e2, true) == Err::<(), RejectReason>(RejectReason::InsufficientFunds),
{
    let from = e1.transfer().from@;
    assert(b.balance(from) == a.table().after_transfer(from, e1.transfer().to@, e1.transfer().amount, from));
}

} // verus!
