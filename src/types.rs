use vstd::prelude::*;

verus! {

/// Public key of an account: the key of the balance table and the claimed
/// signer of a transfer.
pub type Identity = [u8; 32];

/// A 256-bit hash: identifies an entry and links it to its predecessor.
pub type Digest = [u8; 32];

/// An ed25519 signature.
pub type SigBytes = [u8; 64];

/// A signed request to move `amount` from `from` to `to`, authorised against
/// the chain head `reference`.
#[derive(Clone, Copy, Debug)]
pub struct Transfer {
    pub from: Identity,
    pub to: Identity,
    pub amount: u64,
    pub reference: Digest,
    pub sig: SigBytes,
}

/// An event submitted to the ledger.
#[derive(Clone, Copy, Debug)]
pub enum Event {
    Transfer(Transfer),
}

/// One link of the chain: an accepted event and the digest that binds it to
/// its predecessor.
#[derive(Clone, Copy, Debug)]
pub struct Entry {
    pub id: Digest,
    pub event: Event,
}

/// Why an event was not applied.
#[derive(Clone, Copy, Debug, PartialEq, Eq, Structural)]
pub enum RejectReason {
    BadSignature,
    StaleOrConflictingReference,
    InsufficientFunds,
}

impl Event {
    pub open spec fn transfer(self) -> Transfer {
        match self {
            Event::Transfer(t) => t,
        }
    }
}

/// Compares two 32-byte values (identities or digests) byte by byte.
pub fn bytes32_eq(a: &[u8; 32], b: &[u8; 32]) -> (r: bool)
    ensures
        r == (a@ == b@),
{
    let mut i: usize = 0;
    while i < 32
        invariant
            0 <= i <= 32,
            a@.len() == 32,
            b@.len() == 32,
            forall|j: int| 0 <= j < i ==> a@[j] == b@[j],
        decreases 32 - i,
    {
        if a[i] != b[i] {
            return false;
        }
        i = i + 1;
    }
    assert(a@ =~= b@);
    true
}

} // verus!
