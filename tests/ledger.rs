use accountant::crypto::{next_id, transfer_message_bytes, verify_transfer};
use accountant::engine::Accountant;
use accountant::skel::{AccountantSkel, Request, Response};
use accountant::types::{Digest, Entry, Event, Identity, RejectReason, Transfer};
use ed25519_dalek::{Signer, SigningKey};
use sha2::Digest as _;

const GENESIS: Digest = [7u8; 32];

fn key(seed: u8) -> SigningKey {
    SigningKey::from_bytes(&[seed; 32])
}

fn id_of(k: &SigningKey) -> Identity {
    k.verifying_key().to_bytes()
}

fn signed(signer: &SigningKey, from: Identity, to: Identity, amount: u64, reference: Digest) -> Event {
    let mut t = Transfer { from, to, amount, reference, sig: [0u8; 64] };
    let msg = transfer_message_bytes(&t);
    t.sig = signer.sign(&msg).to_bytes();
    Event::Transfer(t)
}

fn transfer(signer: &SigningKey, to: Identity, amount: u64, reference: Digest) -> Event {
    signed(signer, id_of(signer), to, amount, reference)
}

fn setup() -> (Accountant, SigningKey, SigningKey) {
    let a = key(1);
    let b = key(2);
    let acc = Accountant::new(GENESIS, id_of(&a), 100);
    (acc, a, b)
}

fn event_bytes(e: &Event) -> Vec<u8> {
    let Event::Transfer(t) = e;
    let mut v = transfer_message_bytes(t);
    v.extend_from_slice(&t.sig);
    v
}

fn sha(prev: &Digest, e: &Event) -> Digest {
    let mut data = prev.to_vec();
    data.extend_from_slice(&event_bytes(e));
    sha2::Sha256::digest(&data).into()
}

#[test]
fn transfer_against_head_moves_funds() {
    let (mut acc, a, b) = setup();
    assert_eq!(acc.current_id(), GENESIS);
    let e = transfer(&a, id_of(&b), 50, GENESIS);
    assert_eq!(acc.process(e), Ok(()));
    assert_eq!(acc.balance_of(&id_of(&a)), 50);
    assert_eq!(acc.balance_of(&id_of(&b)), 50);
    acc.finalize();
    assert_ne!(acc.current_id(), GENESIS);
}

#[test]
fn resubmitted_transfer_is_stale() {
    let (mut acc, a, b) = setup();
    let e = transfer(&a, id_of(&b), 50, GENESIS);
    assert_eq!(acc.process(e), Ok(()));
    assert_eq!(acc.process(e), Err(RejectReason::StaleOrConflictingReference));
    assert_eq!(acc.balance_of(&id_of(&a)), 50);
    assert_eq!(acc.balance_of(&id_of(&b)), 50);
    assert_eq!(acc.entries_since(&GENESIS).len(), 1);
}

#[test]
fn overdraft_is_rejected_without_change() {
    let (mut acc, a, b) = setup();
    assert_eq!(acc.process(transfer(&a, id_of(&b), 50, GENESIS)), Ok(()));
    let head = acc.current_id();
    let e = transfer(&a, id_of(&b), 1000, head);
    assert_eq!(acc.process(e), Err(RejectReason::InsufficientFunds));
    assert_eq!(acc.balance_of(&id_of(&a)), 50);
    assert_eq!(acc.balance_of(&id_of(&b)), 50);
    assert_eq!(acc.current_id(), head);
}

#[test]
fn foreign_signature_is_rejected() {
    let (mut acc, a, b) = setup();
    let c = key(3);
    let e = signed(&c, id_of(&a), id_of(&b), 10, GENESIS);
    assert_eq!(acc.process(e), Err(RejectReason::BadSignature));
    assert_eq!(acc.balance_of(&id_of(&a)), 100);
    assert_eq!(acc.balance_of(&id_of(&b)), 0);
    assert_eq!(acc.current_id(), GENESIS);
    assert!(acc.entries_since(&GENESIS).is_empty());
}

#[test]
fn signature_checked_before_reference_and_funds() {
    let (mut acc, a, b) = setup();
    let c = key(3);
    let e = signed(&c, id_of(&a), id_of(&b), 1000, [9u8; 32]);
    assert_eq!(acc.process(e), Err(RejectReason::BadSignature));
    let e = transfer(&a, id_of(&b), 1000, [9u8; 32]);
    assert_eq!(acc.process(e), Err(RejectReason::StaleOrConflictingReference));
}

#[test]
fn tampered_amount_fails_verification() {
    let (_, a, b) = setup();
    let Event::Transfer(mut t) = transfer(&a, id_of(&b), 5, GENESIS);
    assert!(verify_transfer(&t));
    t.amount = 6;
    assert!(!verify_transfer(&t));
}

#[test]
fn process_verified_follows_the_given_verdict() {
    let (mut acc, a, b) = setup();
    let unsigned = Event::Transfer(Transfer { from: id_of(&a), to: id_of(&b), amount: 30, reference: GENESIS, sig: [0u8; 64] });
    assert_eq!(acc.process_verified(unsigned, false), Err(RejectReason::BadSignature));
    assert_eq!(acc.balance_of(&id_of(&a)), 100);
    assert_eq!(acc.process_verified(unsigned, true), Ok(()));
    assert_eq!(acc.balance_of(&id_of(&a)), 70);
    assert_eq!(acc.balance_of(&id_of(&b)), 30);
}

#[test]
fn two_spends_of_one_balance_one_wins() {
    let (mut acc, a, b) = setup();
    let c = key(3);
    let e1 = transfer(&a, id_of(&b), 60, GENESIS);
    let e2 = transfer(&a, id_of(&c), 60, GENESIS);
    assert_eq!(acc.process(e1), Ok(()));
    let r2 = acc.process(e2);
    assert!(r2 == Err(RejectReason::StaleOrConflictingReference) || r2 == Err(RejectReason::InsufficientFunds));
    assert_eq!(acc.balance_of(&id_of(&a)), 40);
    assert_eq!(acc.balance_of(&id_of(&b)), 60);
    assert_eq!(acc.balance_of(&id_of(&c)), 0);
}

#[test]
fn balances_sum_to_supply_after_transfers() {
    let (mut acc, a, b) = setup();
    let c = key(3);
    assert_eq!(acc.process(transfer(&a, id_of(&b), 40, acc.current_id())), Ok(()));
    assert_eq!(acc.process(transfer(&b, id_of(&c), 15, acc.current_id())), Ok(()));
    assert_eq!(acc.process(transfer(&a, id_of(&c), 60, acc.current_id())), Ok(()));
    assert_eq!(acc.process(transfer(&c, id_of(&a), 100, acc.current_id())), Err(RejectReason::InsufficientFunds));
    let total = acc.balance_of(&id_of(&a)) + acc.balance_of(&id_of(&b)) + acc.balance_of(&id_of(&c));
    assert_eq!(total, 100);
    assert_eq!(acc.balance_of(&id_of(&a)), 0);
    assert_eq!(acc.balance_of(&id_of(&b)), 25);
    assert_eq!(acc.balance_of(&id_of(&c)), 75);
}

#[test]
fn entries_link_by_sha256() {
    let (mut acc, a, b) = setup();
    let e1 = transfer(&a, id_of(&b), 10, GENESIS);
    assert_eq!(acc.process(e1), Ok(()));
    let e2 = transfer(&b, id_of(&a), 4, acc.current_id());
    assert_eq!(acc.process(e2), Ok(()));
    let es: Vec<Entry> = acc.entries_since(&acc.genesis_id());
    assert_eq!(es.len(), 2);
    assert_eq!(es[0].id, sha(&GENESIS, &e1));
    assert_eq!(es[1].id, sha(&es[0].id, &e2));
    assert_eq!(acc.current_id(), es[1].id);
    assert_eq!(next_id(&GENESIS, &e1), es[0].id);
    assert_ne!(es[0].id, GENESIS);
}

#[test]
fn entries_since_a_point() {
    let (mut acc, a, b) = setup();
    assert_eq!(acc.process(transfer(&a, id_of(&b), 10, GENESIS)), Ok(()));
    let first = acc.current_id();
    assert_eq!(acc.process(transfer(&a, id_of(&b), 10, first)), Ok(()));
    let later = acc.entries_since(&first);
    assert_eq!(later.len(), 1);
    assert_eq!(later[0].id, acc.current_id());
    assert!(acc.entries_since(&acc.current_id()).is_empty());
    assert!(acc.entries_since(&[0u8; 32]).is_empty());
}

#[test]
fn repeated_reads_agree() {
    let (acc, a, b) = setup();
    assert_eq!(acc.balance_of(&id_of(&a)), acc.balance_of(&id_of(&a)));
    assert_eq!(acc.balance_of(&id_of(&b)), 0);
    assert_eq!(acc.balance_of(&[42u8; 32]), 0);
    assert_eq!(acc.genesis_id(), GENESIS);
}

#[test]
fn self_and_zero_transfers_keep_balances() {
    let (mut acc, a, b) = setup();
    assert_eq!(acc.process(transfer(&a, id_of(&a), 100, GENESIS)), Ok(()));
    assert_eq!(acc.balance_of(&id_of(&a)), 100);
    assert_eq!(acc.process(transfer(&b, id_of(&a), 0, acc.current_id())), Ok(()));
    assert_eq!(acc.balance_of(&id_of(&a)), 100);
    assert_eq!(acc.balance_of(&id_of(&b)), 0);
    assert_eq!(acc.entries_since(&GENESIS).len(), 2);
}

#[test]
fn whole_balance_can_be_spent() {
    let (mut acc, a, b) = setup();
    assert_eq!(acc.process(transfer(&a, id_of(&b), 100, GENESIS)), Ok(()));
    assert_eq!(acc.balance_of(&id_of(&a)), 0);
    assert_eq!(acc.balance_of(&id_of(&b)), 100);
    assert_eq!(acc.process(transfer(&a, id_of(&b), 1, acc.current_id())), Err(RejectReason::InsufficientFunds));
}

#[test]
fn largest_supply_moves_without_overflow() {
    let a = key(1);
    let b = key(2);
    let mut acc = Accountant::new(GENESIS, id_of(&a), u64::MAX);
    assert_eq!(acc.process(transfer(&a, id_of(&b), u64::MAX - 1, GENESIS)), Ok(()));
    assert_eq!(acc.process(transfer(&a, id_of(&b), 1, acc.current_id())), Ok(()));
    assert_eq!(acc.balance_of(&id_of(&b)), u64::MAX);
    assert_eq!(acc.balance_of(&id_of(&a)), 0);
}

#[test]
fn message_layout() {
    let t = Transfer { from: [1u8; 32], to: [2u8; 32], amount: 0x0102030405060708, reference: [3u8; 32], sig: [4u8; 64] };
    let m = transfer_message_bytes(&t);
    assert_eq!(m.len(), 104);
    assert_eq!(&m[0..32], &[1u8; 32]);
    assert_eq!(&m[32..64], &[2u8; 32]);
    assert_eq!(&m[64..72], &[8u8, 7, 6, 5, 4, 3, 2, 1]);
    assert_eq!(&m[72..104], &[3u8; 32]);
}

#[test]
fn requests_are_served() {
    let (acc, a, b) = setup();
    let mut skel = AccountantSkel::new(acc);
    let Event::Transfer(t) = transfer(&a, id_of(&b), 25, GENESIS);
    let req = Request::Transfer { from: t.from, to: t.to, val: t.amount, last_id: t.reference, sig: t.sig };
    assert!(skel.process_request(req).is_none());
    match skel.process_request(req) {
        Some(Response::Rejected { reason }) => assert_eq!(reason, RejectReason::StaleOrConflictingReference),
        other => panic!("unexpected {:?}", other),
    }
    match skel.process_request(Request::GetBalance { key: id_of(&b) }) {
        Some(Response::Balance { key, val }) => {
            assert_eq!(key, id_of(&b));
            assert_eq!(val, 25);
        }
        other => panic!("unexpected {:?}", other),
    }
    match skel.process_request(Request::GetBalance { key: [5u8; 32] }) {
        Some(Response::Balance { val, .. }) => assert_eq!(val, 0),
        other => panic!("unexpected {:?}", other),
    }
    let head = skel.acc.current_id();
    match skel.process_request(Request::GetId { is_last: true }) {
        Some(Response::Id { id, is_last }) => {
            assert!(is_last);
            assert_eq!(id, head);
            assert_ne!(id, GENESIS);
        }
        other => panic!("unexpected {:?}", other),
    }
    match skel.process_request(Request::GetId { is_last: false }) {
        Some(Response::Id { id, is_last }) => {
            assert!(!is_last);
            assert_eq!(id, GENESIS);
        }
        other => panic!("unexpected {:?}", other),
    }
    match skel.process_request(Request::GetEntries { last_id: GENESIS }) {
        Some(Response::Entries { entries }) => {
            assert_eq!(entries.len(), 1);
            assert_eq!(entries[0].id, head);
        }
        other => panic!("unexpected {:?}", other),
    }
    match skel.process_request(Request::GetEntries { last_id: head }) {
        Some(Response::Entries { entries }) => assert!(entries.is_empty()),
        other => panic!("unexpected {:?}", other),
    }
}
