use vstd::prelude::*;
use crate::crypto::{entry_id, next_id};
use crate::types::{bytes32_eq, Digest, Entry, Event};

verus! {

/// Digest that precedes entry `i`: the genesis digest for the first entry,
/// else the id of the entry before it.
pub open spec fn prev_id(first: Seq<u8>, es: Seq<Entry>, i: int) -> Seq<u8> {
    if i == 0 {
        first
    } else {
        es[i - 1].id@
    }
}

/// Every entry's id is the hash of its predecessor's digest and its event.
pub open spec fn chain_linked(first: Seq<u8>, es: Seq<Entry>) -> bool {
    forall|i: int| 0 <= i < es.len() ==> (#[trigger] es[i]).id@ == entry_id(prev_id(first, es, i), es[i].event)
}

/// Digest of the last entry, or the genesis digest when there is none.
pub open spec fn head_of(first: Seq<u8>, es: Seq<Entry>) -> Seq<u8> {
    if es.len() == 0 {
        first
    } else {
        es.last().id@
    }
}

/// The entries recorded after the point identified by `d`: all of them when
/// `d` is the genesis digest, those after the first entry with id `d`, or
/// none when no entry has that id.
pub open spec fn since(first: Seq<u8>, es: Seq<Entry>, d: Seq<u8>) -> Seq<Entry> {
    if d == first {
        es
    } else if exists|i: int| 0 <= i < es.len() && (#[trigger] es[i]).id@ == d {
        let i = choose|i: int| 0 <= i < es.len() && (#[trigger] es[i]).id@ == d
            && forall|j: int| 0 <= j < i ==> (#[trigger] es[j]).id@ != d;
        es.skip(i + 1)
    } else {
        Seq::empty()
    }
}

/// Append-only hash chain of accepted events.
pub struct Ledger {
    first_id: Digest,
    last_id: Digest,
    entries: Vec<Entry>,
}

impl Ledger {
    /// The fixed digest that precedes the first entry.
    pub closed spec fn genesis(&self) -> Seq<u8> {
        self.first_id@
    }

    /// The digest of the most recently appended entry.
    pub closed spec fn head(&self) -> Seq<u8> {
        self.last_id@
    }

    /// The entries, oldest first.
    pub closed spec fn entries(&self) -> Seq<Entry> {
        self.entries@
    }

    pub open spec fn wf(&self) -> bool {
        chain_linked(self.genesis(), self.entries()) && self.head() == head_of(self.genesis(), self.entries())
    }

    /// An empty chain anchored at `first_id`.
    pub fn new(first_id: Digest) -> (r: Ledger)
        ensures
            r.wf(),
            r.genesis() == first_id@,
            r.head() == first_id@,
            r.entries() == Seq::<Entry>::empty(),
    {
        let r = Ledger { first_id, last_id: first_id, entries: Vec::new() };
        assert(r.entries() =~= Seq::<Entry>::empty());
        r
    }

    pub fn genesis_id(&self) -> (r: Digest)
        ensures
            r@ == self.genesis(),
    {
        self.first_id
    }

    pub fn head_id(&self) -> (r: Digest)
        ensures
            r@ == self.head(),
    {
        self.last_id
    }

    /// Records `event` as a new entry whose id hashes the current head with
    /// the event, and makes that id the head. The chain does not judge the
    /// event.
    pub fn append(&mut self, event: Event) -> (r: Digest)
        requires
            old(self).wf(),
        ensures
            final(self).wf(),
            r@ == entry_id(old(self).head(), event),
            final(self).genesis() == old(self).genesis(),
            final(self).head() == r@,
            final(self).entries() == old(self).entries().push(Entry { id: r, event }),
    {
        let id = next_id(&self.last_id, &event);
        let ghost es0 = self.entries@;
        self.entries.push(Entry { id, event });
        self.last_id = id;
        proof {
            let es = self.entries@;
            assert forall|i: int| 0 <= i < es.len() implies (#[trigger] es[i]).id@ == entry_id(prev_id(self.genesis(), es, i), es[i].event) by {
                if i < es0.len() {
                    assert(es[i] == es0[i]);
                    assert(chain_linked(self.genesis(), es0));
                    assert(es0[i].id@ == entry_id(prev_id(self.genesis(), es0, i), es0[i].event));
                    if i > 0 {
                        assert(es[i - 1] == es0[i - 1]);
                    }
                } else {
                    if i > 0 {
                        assert(es[i - 1] == es0[i - 1]);
                    }
                }
            }
        }
        id
    }

    /// The entries after the point identified by `d` (see `since`).
    pub fn entries_since(&self, d: &Digest) -> (r: Vec<Entry>)
        ensures
            r@ == since(self.genesis(), self.entries(), d@),
    {
        let mut start: usize = 0;
        if !bytes32_eq(d, &self.first_id) {
            let mut i: usize = 0;
            let mut found = false;
            while !found && i < self.entries.len()
                invariant
                    0 <= i <= self.entries@.len(),
                    found ==> i < self.entries@.len() && self.entries@[i as int].id@ == d@,
                    forall|j: int| 0 <= j < i ==> (#[trigger] self.entries@[j]).id@ != d@,
                decreases self.entries@.len() - i + (if found { 0int } else { 1int }),
            {
                if bytes32_eq(&self.entries[i].id, d) {
                    found = true;
                } else {
                    i = i + 1;
                }
            }
            if !found {
                assert(!exists|k: int| 0 <= k < self.entries@.len() && (#[trigger] self.entries@[k]).id@ == d@);
                return Vec::new();
            }
            proof {
                let es = self.entries@;
                assert(0 <= i < es.len() && es[i as int].id@ == d@);
                let c = choose|c: int| 0 <= c < es.len() && (#[trigger] es[c]).id@ == d@
                    && forall|j: int| 0 <= j < c ==> (#[trigger] es[j]).id@ != d@;
                if c < i {
                } else if c > i {
                    assert(es[i as int].id@ != d@);
                }
            }
            let n = self.entries.len();
            assert(i < n);
            start = i + 1;
        }
        let mut out: Vec<Entry> = Vec::new();
        let mut k: usize = start;
        while k < self.entries.len()
            invariant
                start <= k <= self.entries@.len(),
                out@ == self.entries@.subrange(start as int, k as int),
            decreases self.entries@.len() - k,
        {
            out.push(self.entries[k]);
            assert(self.entries@.subrange(start as int, k + 1) =~= self.entries@.subrange(start as int, k as int).push(self.entries@[k as int]));
            k = k + 1;
        }
        assert(out@ =~= self.entries@.skip(start as int));
        out
    }
}

} // verus!
