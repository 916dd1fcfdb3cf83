use vstd::prelude::*;
use crate::types::{Digest, Event, Identity, SigBytes, Transfer};

verus! {

/// What SHA-256 yields on a byte sequence.
pub uninterp spec fn sha256_of(data: Seq<u8>) -> Seq<u8>;

/// Whether ed25519 strict verification accepts `sig` over `msg` for `key`.
pub uninterp spec fn ed25519_accepts(key: Seq<u8>, msg: Seq<u8>, sig: Seq<u8>) -> bool;

/// Relies on sha2's `Sha256::digest`: the 32-byte SHA-256 digest of `data`,
/// which depends on the bytes alone.
#[verifier::external_body]
fn sha256(data: &Vec<u8>) -> (r: Digest)
    ensures
        r@ == sha256_of(data@),
{
    <sha2::Sha256 as sha2::Digest>::digest(data.as_slice()).into()
}

/// Relies on ed25519-dalek's `VerifyingKey::verify_strict`: true exactly when
/// `key` decodes to a curve point and `sig` is a valid strict signature of
/// `msg` under it; the answer depends on the three byte strings alone.
#[verifier::external_body]
fn ed25519_verify(key: &Identity, msg: &Vec<u8>, sig: &SigBytes) -> (r: bool)
    ensures
        r == ed25519_accepts(key@, msg@, sig@),
{
    match ed25519_dalek::VerifyingKey::from_bytes(key) {
        Ok(k) => k.verify_strict(msg.as_slice(), &ed25519_dalek::Signature::from_bytes(sig)).is_ok(),
        Err(_) => false,
    }
}

/// The `n` low-order bytes of `v`, least significant first.
pub open spec fn le_bytes(v: nat, n: nat) -> Seq<u8>
    decreases n,
{
    if n == 0 {
        seq![]
    } else {
        seq![(v % 256) as u8] + le_bytes(v / 256, (n - 1) as nat)
    }
}

/// The bytes a transfer's signature covers: `from`, `to`, the amount as eight
/// little-endian bytes, then `reference`.
pub open spec fn transfer_message(t: Transfer) -> Seq<u8> {
    t.from@ + t.to@ + le_bytes(t.amount as nat, 8) + t.reference@
}

/// Canonical encoding of an event: the signed message followed by the signature.
pub open spec fn event_bytes(e: Event) -> Seq<u8> {
    transfer_message(e.transfer()) + e.transfer().sig@
}

/// The id of the entry that records `e` after the entry with id `prev`.
pub open spec fn entry_id(prev: Seq<u8>, e: Event) -> Seq<u8> {
    sha256_of(prev + event_bytes(e))
}

/// Whether the transfer carries a valid signature of its sender.
pub open spec fn signed_by_sender(t: Transfer) -> bool {
    ed25519_accepts(t.from@, transfer_message(t), t.sig@)
}

fn push_bytes<const N: usize>(out: &mut Vec<u8>, b: &[u8; N])
    ensures
        final(out)@ == old(out)@ + b@,
{
    let mut i: usize = 0;
    while i < N
        invariant
            0 <= i <= N,
            b@.len() == N,
            out@ == old(out)@ + b@.subrange(0, i as int),
        decreases N - i,
    {
        out.push(b[i]);
        assert(b@.subrange(0, i + 1) =~= b@.subrange(0, i as int).push(b@[i as int]));
        i = i + 1;
    }
    assert(b@.subrange(0, N as int) =~= b@);
}

fn push_u64_le(out: &mut Vec<u8>, v: u64)
    ensures
        final(out)@ == old(out)@ + le_bytes(v as nat, 8),
{
    let mut x: u64 = v;
    let mut i: usize = 0;
    while i < 8
        invariant
            0 <= i <= 8,
            out@ + le_bytes(x as nat, (8 - i) as nat) == old(out)@ + le_bytes(v as nat, 8),
        decreases 8 - i,
    {
        let byte: u8 = (x % 256) as u8;
        let ghost rest = le_bytes((x / 256) as nat, (8 - i - 1) as nat);
        assert(le_bytes(x as nat, (8 - i) as nat) == seq![byte] + rest);
        assert(out@.push(byte) + rest =~= out@ + (seq![byte] + rest));
        out.push(byte);
        x = x / 256;
        i = i + 1;
    }
    assert(le_bytes(x as nat, 0) =~= Seq::<u8>::empty());
    assert(out@ + Seq::<u8>::empty() =~= out@);
}

/// The bytes that the sender of `t` signs.
pub fn transfer_message_bytes(t: &Transfer) -> (r: Vec<u8>)
    ensures
        r@ == transfer_message(*t),
{
    let mut out: Vec<u8> = Vec::new();
    push_bytes(&mut out, &t.from);
    push_bytes(&mut out, &t.to);
    push_u64_le(&mut out, t.amount);
    push_bytes(&mut out, &t.reference);
    assert(out@ =~= transfer_message(*t));
    out
}

/// Checks that the transfer was signed by its sender over its message.
pub fn verify_transfer(t: &Transfer) -> (r: bool)
    ensures
        r == signed_by_sender(*t),
{
    let msg = transfer_message_bytes(t);
    ed25519_verify(&t.from, &msg, &t.sig)
}

/// The id of the entry that records `e` after the entry with id `prev`.
pub fn next_id(prev: &Digest, e: &Event) -> (r: Digest)
    ensures
        r@ == entry_id(prev@, *e),
{
    let t = match e {
        Event::Transfer(t) => t,
    };
    let mut data: Vec<u8> = Vec::new();
    push_bytes(&mut data, prev);
    let msg = transfer_message_bytes(t);
    let mut k: usize = 0;
    while k < msg.len()
        invariant
            0 <= k <= msg@.len(),
            data@ == prev@ + msg@.subrange(0, k as int),
        decreases msg@.len() - k,
    {
        data.push(msg[k]);
        assert(msg@.subrange(0, k + 1) =~= msg@.subrange(0, k as int).push(msg@[k as int]));
        k = k + 1;
    }
    assert(msg@.subrange(0, msg@.len() as int) =~= msg@);
    push_bytes(&mut data, &t.sig);
    assert(data@ =~= prev@ + event_bytes(*e));
    sha256(&data)
}

} // verus!
