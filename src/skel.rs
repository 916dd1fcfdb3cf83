use vstd::prelude::*;
use crate::crypto::signed_by_sender;
use crate::engine::Accountant;
use crate::ledger::since;
use crate::types::{Digest, Entry, Event, Identity, RejectReason, SigBytes, Transfer};

verus! {

/// A decoded client request.
#[derive(Clone, Copy, Debug)]
pub enum Request {
    Transfer { from: Identity, to: Identity, val: u64, last_id: Digest, sig: SigBytes },
    GetBalance { key: Identity },
    GetEntries { last_id: Digest },
    GetId { is_last: bool },
}

/// The answer to a request, to be encoded and sent back to the client.
#[derive(Clone, Debug)]
pub enum Response {
    Balance { key: Identity, val: u64 },
    Entries { entries: Vec<Entry> },
    Id { id: Digest, is_last: bool },
    Rejected { reason: RejectReason },
}

/// The event that a transfer request asks for.
pub open spec fn requested_event(msg: Request) -> Event {
    match msg {
        Request::Transfer { from, to, val, last_id, sig } => Event::Transfer(
            Transfer { from, to, amount: val, reference: last_id, sig },
        ),
        _ => arbitrary(),
    }
}

/// `r` answers `msg`, and the engine went from `before` to `after`: a transfer
/// is processed (silence on success, the reason on rejection); queries change
/// nothing and answer from the engine's state.
pub open spec fn served(before: Accountant, after: Accountant, msg: Request, r: Option<Response>) -> bool {
    match msg {
        Request::Transfer { .. } => {
            let e = requested_event(msg);
            match before.outcome(e, signed_by_sender(e.transfer())) {
                Ok(()) => r is None && after.applied(before, e),
                Err(reason) => r == Some(Response::Rejected { reason }) && after == before,
            }
        },
        Request::GetBalance { key } => after == before && r == Some(
            Response::Balance { key, val: before.balance(key@) },
        ),
        Request::GetEntries { last_id } => after == before && match r {
            Some(Response::Entries { entries }) => entries@ == since(before.genesis(), before.entries(), last_id@),
            _ => false,
        },
        Request::GetId { is_last } => after == before && match r {
            Some(Response::Id { id, is_last: l }) => l == is_last && id@ == if is_last {
                before.head()
            } else {
                before.genesis()
            },
            _ => false,
        },
    }
}

/// Front of the engine for a request/response service.
pub struct AccountantSkel {
    pub acc: Accountant,
}

impl AccountantSkel {
    pub fn new(acc: Accountant) -> (r: AccountantSkel)
        ensures
            r.acc == acc,
    {
        AccountantSkel { acc }
    }

    /// Carries out one request against the engine.
    pub fn process_request(&mut self, msg: Request) -> (r: Option<Response>)
        requires
            old(self).acc.wf(),
        ensures
            final(self).acc.wf(),
            served(old(self).acc, final(self).acc, msg, r),
    {
        match msg {
            Request::Transfer { from, to, val, last_id, sig } => {
                let event = Event::Transfer(Transfer { from, to, amount: val, reference: last_id, sig });
                match self.acc.process(event) {
                    Ok(()) => None,
                    Err(reason) => Some(Response::Rejected { reason }),
                }
            },
            Request::GetBalance { key } => {
                let val = self.acc.balance_of(&key);
                Some(Response::Balance { key, val })
            },
            Request::GetEntries { last_id } => Some(Response::Entries { entries: self.acc.entries_since(&last_id) }),
            Request::GetId { is_last } => {
                let id = if is_last {
                    self.acc.finalize();
                    self.acc.current_id()
                } else {
                    self.acc.genesis_id()
                };
                Some(Response::Id { id, is_last })
            },
        }
    }
}

} // verus!
