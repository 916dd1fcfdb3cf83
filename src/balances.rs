use vstd::prelude::*;
use crate::types::{bytes32_eq, Identity};

verus! {

/// The rows of a balance table: an identity (as bytes) and its balance.
pub type Rows = Seq<(Seq<u8>, u64)>;

/// No identity has two rows.
pub open spec fn keys_unique(rows: Rows) -> bool {
    forall|i: int, j: int|
        0 <= i < rows.len() && 0 <= j < rows.len() && i != j ==> #[trigger] rows[i].0 != #[trigger] rows[j].0
}

/// Balance of `k` in `rows`: that of its row, 0 where it has none.
pub open spec fn rows_balance(rows: Rows, k: Seq<u8>) -> u64
    decreases rows.len(),
{
    if rows.len() == 0 {
        0
    } else if rows.last().0 == k {
        rows.last().1
    } else {
        rows_balance(rows.drop_last(), k)
    }
}

/// Sum of all balances in `rows`.
pub open spec fn rows_total(rows: Rows) -> nat
    decreases rows.len(),
{
    if rows.len() == 0 {
        0
    } else {
        (rows_total(rows.drop_last()) + rows.last().1) as nat
    }
}

proof fn lemma_balance_at(rows: Rows, i: int)
    requires
        keys_unique(rows),
        0 <= i < rows.len(),
    ensures
        rows_balance(rows, rows[i].0) == rows[i].1,
    decreases rows.len(),
{
    let last = rows.len() - 1;
    if i != last {
        assert(rows[last].0 != rows[i].0);
        let d = rows.drop_last();
        assert(d[i] == rows[i]);
        assert(keys_unique(d)) by {
            assert forall|a: int, b: int| 0 <= a < d.len() && 0 <= b < d.len() && a != b implies #[trigger] d[a].0 != #[trigger] d[b].0 by {
                assert(d[a] == rows[a] && d[b] == rows[b]);
            }
        }
        lemma_balance_at(d, i);
    }
}

proof fn lemma_balance_absent(rows: Rows, k: Seq<u8>)
    requires
        forall|i: int| 0 <= i < rows.len() ==> #[trigger] rows[i].0 != k,
    ensures
        rows_balance(rows, k) == 0,
    decreases rows.len(),
{
    if rows.len() > 0 {
        let d = rows.drop_last();
        assert(rows[rows.len() - 1].0 != k);
        assert forall|i: int| 0 <= i < d.len() implies #[trigger] d[i].0 != k by {
            assert(d[i] == rows[i]);
        }
        lemma_balance_absent(d, k);
    }
}

proof fn lemma_update(rows: Rows, i: int, v: u64, k: Seq<u8>)
    requires
        0 <= i < rows.len(),
        keys_unique(rows),
    ensures
        rows_balance(rows.update(i, (rows[i].0, v)), k) == if k == rows[i].0 { v } else { rows_balance(rows, k) },
        rows_total(rows.update(i, (rows[i].0, v))) == rows_total(rows) - rows[i].1 + v,
        keys_unique(rows.update(i, (rows[i].0, v))),
    decreases rows.len(),
{
    let u = rows.update(i, (rows[i].0, v));
    let last = rows.len() - 1;
    assert forall|a: int, b: int| 0 <= a < u.len() && 0 <= b < u.len() && a != b implies #[trigger] u[a].0 != #[trigger] u[b].0 by {
        assert(u[a].0 == rows[a].0 && u[b].0 == rows[b].0);
    }
    let d = rows.drop_last();
    assert(keys_unique(d)) by {
        assert forall|a: int, b: int| 0 <= a < d.len() && 0 <= b < d.len() && a != b implies #[trigger] d[a].0 != #[trigger] d[b].0 by {
            assert(d[a] == rows[a] && d[b] == rows[b]);
        }
    }
    if i == last {
        assert(u.drop_last() =~= d);
        if k != rows[i].0 {
        }
    } else {
        assert(u.drop_last() =~= d.update(i, (d[i].0, v)));
        lemma_update(d, i, v, k);
        if k == rows[i].0 {
            assert(rows[last].0 != rows[i].0);
        }
    }
}

proof fn lemma_pair_le_total(rows: Rows, i: int, j: int)
    requires
        0 <= i < rows.len(),
        0 <= j < rows.len(),
        i != j,
    ensures
        rows[i].1 + rows[j].1 <= rows_total(rows),
    decreases rows.len(),
{
    let last = rows.len() - 1;
    let d = rows.drop_last();
    if i == last {
        assert(d[j] == rows[j]);
        lemma_le_total(d, j);
    } else if j == last {
        assert(d[i] == rows[i]);
        lemma_le_total(d, i);
    } else {
        assert(d[i] == rows[i] && d[j] == rows[j]);
        lemma_pair_le_total(d, i, j);
    }
}

proof fn lemma_le_total(rows: Rows, i: int)
    requires
        0 <= i < rows.len(),
    ensures
        rows[i].1 <= rows_total(rows),
    decreases rows.len(),
{
    let d = rows.drop_last();
    if i != rows.len() - 1 {
        assert(d[i] == rows[i]);
        lemma_le_total(d, i);
    }
}

/// Balance store: one row per identity that was ever credited. Identities
/// without a row hold 0.
pub struct Balances {
    accounts: Vec<(Identity, u64)>,
}

impl Balances {
    /// The rows, with each identity as its bytes.
    pub closed spec fn rows(&self) -> Rows {
        self.accounts@.map_values(|p: (Identity, u64)| (p.0@, p.1))
    }

    pub open spec fn wf(&self) -> bool {
        keys_unique(self.rows()) && self.total() <= u64::MAX
    }

    /// Balance of identity `k` (0 for one never credited).
    pub open spec fn balance(&self, k: Seq<u8>) -> u64 {
        rows_balance(self.rows(), k)
    }

    /// Sum of all balances.
    pub open spec fn total(&self) -> nat {
        rows_total(self.rows())
    }

    /// Balance of `k` once `amount` has moved from `from` to `to`.
    pub open spec fn after_transfer(&self, from: Seq<u8>, to: Seq<u8>, amount: u64, k: Seq<u8>) -> int {
        if from == to {
            self.balance(k) as int
        } else if k == from {
            self.balance(k) - amount
        } else if k == to {
            self.balance(k) + amount
        } else {
            self.balance(k) as int
        }
    }

    /// A table in which `mint` holds `tokens` and everyone else 0.
    pub fn with_mint(mint: Identity, tokens: u64) -> (r: Balances)
        ensures
            r.wf(),
            r.total() == tokens,
            forall|k: Seq<u8>| #[trigger] r.balance(k) == if k == mint@ { tokens } else { 0 },
    {
        let mut accounts: Vec<(Identity, u64)> = Vec::new();
        accounts.push((mint, tokens));
        let r = Balances { accounts };
        assert(r.rows().drop_last() =~= Seq::<(Seq<u8>, u64)>::empty());
        assert(rows_total(r.rows().drop_last()) == 0);
        assert forall|k: Seq<u8>| #[trigger] r.balance(k) == if k == mint@ { tokens } else { 0 } by {
            assert(rows_balance(r.rows().drop_last(), k) == 0);
        }
        r
    }

    fn find(&self, k: &Identity) -> (r: Option<usize>)
        ensures
            match r {
                Some(i) => i < self.rows().len() && self.rows()[i as int].0 == k@,
                None => forall|i: int| 0 <= i < self.rows().len() ==> #[trigger] self.rows()[i].0 != k@,
            },
    {
        let mut i: usize = 0;
        while i < self.accounts.len()
            invariant
                0 <= i <= self.accounts@.len(),
                self.rows().len() == self.accounts@.len(),
                forall|j: int| 0 <= j < i ==> #[trigger] self.rows()[j].0 != k@,
            decreases self.accounts@.len() - i,
        {
            if bytes32_eq(&self.accounts[i].0, k) {
                return Some(i);
            }
            i = i + 1;
        }
        None
    }

    /// Balance of `k`; 0 for an identity never credited.
    pub fn get(&self, k: &Identity) -> (r: u64)
        requires
            self.wf(),
        ensures
            r == self.balance(k@),
    {
        match self.find(k) {
            Some(i) => {
                proof {
                    lemma_balance_at(self.rows(), i as int);
                }
                self.accounts[i].1
            },
            None => {
                proof {
                    lemma_balance_absent(self.rows(), k@);
                }
                0
            },
        }
    }

    /// Moves `amount` from `from` to `to` when `from` holds at least `amount`;
    /// otherwise changes nothing and fails.
    pub fn apply_transfer(&mut self, from: &Identity, to: &Identity, amount: u64) -> (r: Result<(), InsufficientFunds>)
        requires
            old(self).wf(),
        ensures
            final(self).wf(),
            r.is_ok() == (amount <= old(self).balance(from@)),
            r.is_ok() ==> final(self).total() == old(self).total(),
            r.is_ok() ==> forall|k: Seq<u8>|
                #[trigger] final(self).balance(k) == old(self).after_transfer(from@, to@, amount, k),
            r.is_err() ==> *final(self) == *old(self),
    {
        let fb = self.get(from);
        if fb < amount {
            return Err(InsufficientFunds);
        }
        if amount == 0 || bytes32_eq(from, to) {
            return Ok(());
        }
        let ghost b0 = *self;
        let ghost rows0 = self.rows();
        let fi = match self.find(from) {
            Some(i) => i,
            None => {
                proof {
                    lemma_balance_absent(rows0, from@);
                }
                return Ok(());
            },
        };
        proof {
            lemma_balance_at(rows0, fi as int);
        }
        let ti = self.find(to);
        match ti {
            Some(j) => {
                proof {
                    lemma_balance_at(rows0, j as int);
                    lemma_pair_le_total(rows0, fi as int, j as int);
                }
                let tb = self.accounts[j].1;
                self.accounts.set(fi, (*from, fb - amount));
                let ghost rows1 = self.rows();
                proof {
                    assert(rows1 =~= rows0.update(fi as int, (rows0[fi as int].0, (fb - amount) as u64)));
                    assert forall|k: Seq<u8>| rows_balance(rows1, k) == if k == from@ { (fb - amount) as u64 } else { rows_balance(rows0, k) } by {
                        lemma_update(rows0, fi as int, (fb - amount) as u64, k);
                    }
                    lemma_update(rows0, fi as int, (fb - amount) as u64, to@);
                }
                self.accounts.set(j, (*to, tb + amount));
                proof {
                    assert(self.rows() =~= rows1.update(j as int, (rows1[j as int].0, (tb + amount) as u64)));
                    lemma_update(rows1, j as int, (tb + amount) as u64, to@);
                    assert forall|k: Seq<u8>|
                        #[trigger] self.balance(k) == b0.after_transfer(from@, to@, amount, k) by {
                        lemma_update(rows1, j as int, (tb + amount) as u64, k);
                    }
                }
            },
            None => {
                proof {
                    lemma_balance_absent(rows0, to@);
                    lemma_le_total(rows0, fi as int);
                }
                self.accounts.set(fi, (*from, fb - amount));
                let ghost rows1 = self.rows();
                proof {
                    assert(rows1 =~= rows0.update(fi as int, (rows0[fi as int].0, (fb - amount) as u64)));
                    assert forall|k: Seq<u8>| rows_balance(rows1, k) == if k == from@ { (fb - amount) as u64 } else { rows_balance(rows0, k) } by {
                        lemma_update(rows0, fi as int, (fb - amount) as u64, k);
                    }
                    lemma_update(rows0, fi as int, (fb - amount) as u64, to@);
                }
                self.accounts.push((*to, amount));
                proof {
                    let rows2 = self.rows();
                    assert(rows2 =~= rows1.push((to@, amount)));
                    assert(rows2.drop_last() =~= rows1);
                    assert forall|a: int, b: int| 0 <= a < rows2.len() && 0 <= b < rows2.len() && a != b implies #[trigger] rows2[a].0 != #[trigger] rows2[b].0 by {
                        if a < rows1.len() && b < rows1.len() {
                            assert(rows2[a] == rows1[a] && rows2[b] == rows1[b]);
                        } else if a < rows1.len() {
                            assert(rows2[a] == rows1[a]);
                            assert(rows1[a].0 == rows0[a].0);
                        } else {
                            assert(rows2[b] == rows1[b]);
                            assert(rows1[b].0 == rows0[b].0);
                        }
                    }
                    assert forall|k: Seq<u8>|
                        #[trigger] self.balance(k) == b0.after_transfer(from@, to@, amount, k) by {
                        assert(rows_balance(rows2, k) == if k == to@ { amount } else { rows_balance(rows1, k) });
                    }
                }
            },
        }
        Ok(())
    }
}

/// The failure of a debit larger than the sender's balance.
#[derive(Clone, Copy, Debug, PartialEq, Eq, Structural)]
pub struct InsufficientFunds;

} // verus!
