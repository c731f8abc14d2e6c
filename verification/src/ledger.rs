//! An in-memory value ledger: balances of fungible assets held by owners,
//! with a `transfer` operation that moves value between owners and fails,
//! changing nothing, when the source balance is insufficient or the
//! destination balance would overflow.
//!
//! The ledger stands in for the platform's token service: the escrow engine
//! moves locked value through it, and every operation provably conserves the
//! total balance of every asset.

use vstd::prelude::*;

verus! {

/// One balance entry: what `owner` holds of `asset`.
#[derive(Clone, Copy, Debug)]
pub struct Account {
    pub asset: u64,
    pub owner: u64,
    pub balance: i128,
}

/// The identity of an account: the pair of asset and owner.
pub open spec fn acct_key(a: Account) -> (u64, u64) {
    (a.asset, a.owner)
}

/// No two entries describe the same asset/owner pair.
pub open spec fn accts_distinct(s: Seq<Account>) -> bool {
    forall|i: int, j: int|
        0 <= i < j < s.len() ==> acct_key(s[i]) != acct_key(s[j])
}

/// Every entry carries a non-negative balance.
pub open spec fn accts_nonneg(s: Seq<Account>) -> bool {
    forall|i: int| 0 <= i < s.len() ==> #[trigger] s[i].balance >= 0
}

/// Some entry of `s` has the given asset/owner pair.
pub open spec fn seq_has_acct(s: Seq<Account>, asset: u64, owner: u64) -> bool {
    exists|i: int| 0 <= i < s.len() && acct_key(#[trigger] s[i]) == (asset, owner)
}

/// The index of the entry with the given asset/owner pair.
pub open spec fn acct_index(s: Seq<Account>, asset: u64, owner: u64) -> int {
    choose|i: int| 0 <= i < s.len() && acct_key(#[trigger] s[i]) == (asset, owner)
}

/// The balance recorded for the pair, zero when no entry exists.
pub open spec fn seq_bal(s: Seq<Account>, asset: u64, owner: u64) -> int {
    if seq_has_acct(s, asset, owner) {
        s[acct_index(s, asset, owner)].balance as int
    } else {
        0
    }
}

/// What one entry contributes to the total balance of `asset`.
pub open spec fn acct_contrib(a: Account, asset: u64) -> int {
    if a.asset == asset {
        a.balance as int
    } else {
        0
    }
}

/// The total balance of `asset` over all entries.
pub open spec fn seq_total(s: Seq<Account>, asset: u64) -> int
    decreases s.len(),
{
    if s.len() == 0 {
        0
    } else {
        seq_total(s.drop_last(), asset) + acct_contrib(s.last(), asset)
    }
}

/// How a transfer of `amount` of `asset` from `from` to `to` changes the
/// balance of the queried pair `(qa, qo)`. A transfer to oneself changes
/// nothing; the deltas over all owners sum to zero.
pub open spec fn transfer_delta(
    asset: u64,
    from: u64,
    to: u64,
    amount: int,
    qa: u64,
    qo: u64,
) -> int {
    if qa != asset {
        0
    } else {
        (if qo == to {
            amount
        } else {
            0
        }) - (if qo == from {
            amount
        } else {
            0
        })
    }
}

/// When a transfer succeeds: the source holds at least `amount`, and the
/// destination balance does not overflow.
pub open spec fn can_transfer(l: ValueLedger, asset: u64, from: u64, to: u64, amount: int) -> bool {
    &&& 0 <= amount
    &&& l.bal(asset, from) >= amount
    &&& (from == to || l.bal(asset, to) + amount <= i128::MAX)
}

/// How a two-leg disbursement — `amt_a` to `dest_a`, then `amt_b` to
/// `dest_b`, both from `source` — changes the balance of the queried pair.
pub open spec fn disburse_delta(
    asset: u64,
    source: u64,
    dest_a: u64,
    amt_a: int,
    dest_b: u64,
    amt_b: int,
    qa: u64,
    qo: u64,
) -> int {
    transfer_delta(asset, source, dest_a, amt_a, qa, qo) + transfer_delta(
        asset,
        source,
        dest_b,
        amt_b,
        qa,
        qo,
    )
}

/// When a two-leg disbursement succeeds: the first leg can be transferred,
/// and the second can be transferred from the balances the first leaves.
pub open spec fn can_disburse(
    l: ValueLedger,
    asset: u64,
    source: u64,
    dest_a: u64,
    amt_a: int,
    dest_b: u64,
    amt_b: int,
) -> bool {
    &&& 0 <= amt_a
    &&& 0 <= amt_b
    &&& l.bal(asset, source) >= amt_a
    &&& (source == dest_a || l.bal(asset, dest_a) + amt_a <= i128::MAX)
    &&& l.bal(asset, source) + transfer_delta(asset, source, dest_a, amt_a, asset, source) >= amt_b
    &&& (source == dest_b || l.bal(asset, dest_b) + transfer_delta(
        asset,
        source,
        dest_a,
        amt_a,
        asset,
        dest_b,
    ) + amt_b <= i128::MAX)
}

/// Conservation of value on a terminal settlement: with the holding account
/// and the two parties distinct, the settlement credits each destination
/// exactly its non-negative share, debits the source by exactly the sum of
/// the shares — so what leaves the source equals what the parties receive —
/// and touches no other balance of any asset.
pub proof fn lemma_disburse_conserves(
    asset: u64,
    source: u64,
    dest_a: u64,
    amt_a: int,
    dest_b: u64,
    amt_b: int,
)
    requires
        source != dest_a,
        source != dest_b,
        dest_a != dest_b,
        0 <= amt_a,
        0 <= amt_b,
    ensures
        disburse_delta(asset, source, dest_a, amt_a, dest_b, amt_b, asset, dest_a) == amt_a,
        disburse_delta(asset, source, dest_a, amt_a, dest_b, amt_b, asset, dest_b) == amt_b,
        disburse_delta(asset, source, dest_a, amt_a, dest_b, amt_b, asset, source) == -(amt_a
            + amt_b),
        forall|qo: u64|
            qo != source && qo != dest_a && qo != dest_b ==> #[trigger] disburse_delta(
                asset,
                source,
                dest_a,
                amt_a,
                dest_b,
                amt_b,
                asset,
                qo,
            ) == 0,
        forall|qa: u64, qo: u64|
            qa != asset ==> #[trigger] disburse_delta(
                asset,
                source,
                dest_a,
                amt_a,
                dest_b,
                amt_b,
                qa,
                qo,
            ) == 0,
{
}

pub struct ValueLedger {
    accounts: Vec<Account>,
}

impl ValueLedger {
    /// The entries of the ledger, in storage order.
    pub closed spec fn accts(self) -> Seq<Account> {
        self.accounts@
    }

    /// Well-formedness: one entry per asset/owner pair, balances non-negative.
    pub open spec fn wf(self) -> bool {
        accts_distinct(self.accts()) && accts_nonneg(self.accts())
    }

    /// The balance `owner` holds of `asset`; zero when never touched.
    pub open spec fn bal(self, asset: u64, owner: u64) -> int {
        seq_bal(self.accts(), asset, owner)
    }

    /// The total balance of `asset` over all owners.
    pub open spec fn total(self, asset: u64) -> int {
        seq_total(self.accts(), asset)
    }
}

/// The entry at a valid index is the one its own key looks up.
pub proof fn lemma_bal_at(s: Seq<Account>, i: int)
    requires
        accts_distinct(s),
        0 <= i < s.len(),
    ensures
        seq_has_acct(s, s[i].asset, s[i].owner),
        acct_index(s, s[i].asset, s[i].owner) == i,
        seq_bal(s, s[i].asset, s[i].owner) == s[i].balance as int,
{
    assert(acct_key(s[i]) == (s[i].asset, s[i].owner));
    assert(seq_has_acct(s, s[i].asset, s[i].owner));
    let j = acct_index(s, s[i].asset, s[i].owner);
    assert(0 <= j < s.len() && acct_key(s[j]) == (s[i].asset, s[i].owner));
    if i != j {
        assert(acct_key(s[i]) != acct_key(s[j]));
    }
}

/// Every balance a well-formed ledger reports lies in the machine range.
pub proof fn lemma_bal_bounds(l: ValueLedger, asset: u64, owner: u64)
    requires
        l.wf(),
    ensures
        0 <= l.bal(asset, owner) <= i128::MAX,
{
    let s = l.accts();
    if seq_has_acct(s, asset, owner) {
        let i = acct_index(s, asset, owner);
        assert(0 <= i < s.len() && acct_key(s[i]) == (asset, owner));
        assert(s[i].balance >= 0);
    }
}

/// Replacing the entry at `i` by one with the same key changes exactly the
/// balance of that key.
pub proof fn lemma_bal_update(s: Seq<Account>, i: int, a: Account)
    requires
        accts_distinct(s),
        0 <= i < s.len(),
        acct_key(a) == acct_key(s[i]),
    ensures
        accts_distinct(s.update(i, a)),
        forall|qa: u64, qo: u64| #[trigger]
            seq_bal(s.update(i, a), qa, qo) == if (qa, qo) == acct_key(a) {
                a.balance as int
            } else {
                seq_bal(s, qa, qo)
            },
{
    let t = s.update(i, a);
    assert forall|p: int, q: int| 0 <= p < q < t.len() implies acct_key(t[p]) != acct_key(
        t[q],
    ) by {
        assert(acct_key(s[p]) != acct_key(s[q]));
    }
    assert forall|qa: u64, qo: u64| #[trigger] seq_bal(t, qa, qo) == (if (qa, qo) == acct_key(a) {
        a.balance as int
    } else {
        seq_bal(s, qa, qo)
    }) by {
        if (qa, qo) == acct_key(a) {
            lemma_bal_at(t, i);
        } else {
            if seq_has_acct(t, qa, qo) {
                let j = acct_index(t, qa, qo);
                assert(0 <= j < t.len() && acct_key(t[j]) == (qa, qo));
                assert(j != i);
                assert(t[j] == s[j]);
                lemma_bal_at(s, j);
            }
            if seq_has_acct(s, qa, qo) {
                let j = acct_index(s, qa, qo);
                assert(0 <= j < s.len() && acct_key(s[j]) == (qa, qo));
                assert(j != i);
                assert(t[j] == s[j]);
                lemma_bal_at(t, j);
            }
        }
    }
}

/// Appending an entry with a fresh key adds that balance and keeps the rest.
pub proof fn lemma_bal_push(s: Seq<Account>, a: Account)
    requires
        accts_distinct(s),
        !seq_has_acct(s, a.asset, a.owner),
    ensures
        accts_distinct(s.push(a)),
        forall|qa: u64, qo: u64| #[trigger]
            seq_bal(s.push(a), qa, qo) == if (qa, qo) == acct_key(a) {
                a.balance as int
            } else {
                seq_bal(s, qa, qo)
            },
{
    let t = s.push(a);
    assert forall|p: int, q: int| 0 <= p < q < t.len() implies acct_key(t[p]) != acct_key(
        t[q],
    ) by {
        if q == s.len() {
            assert(t[p] == s[p]);
            if acct_key(s[p]) == (a.asset, a.owner) {
                assert(seq_has_acct(s, a.asset, a.owner));
            }
        } else {
            assert(acct_key(s[p]) != acct_key(s[q]));
        }
    }
    assert forall|qa: u64, qo: u64| #[trigger] seq_bal(t, qa, qo) == (if (qa, qo) == acct_key(a) {
        a.balance as int
    } else {
        seq_bal(s, qa, qo)
    }) by {
        if (qa, qo) == acct_key(a) {
            lemma_bal_at(t, s.len() as int);
        } else {
            if seq_has_acct(t, qa, qo) {
                let j = acct_index(t, qa, qo);
                assert(0 <= j < t.len() && acct_key(t[j]) == (qa, qo));
                assert(j != s.len());
                assert(t[j] == s[j]);
                lemma_bal_at(s, j);
            }
            if seq_has_acct(s, qa, qo) {
                let j = acct_index(s, qa, qo);
                assert(0 <= j < s.len() && acct_key(s[j]) == (qa, qo));
                assert(t[j] == s[j]);
                lemma_bal_at(t, j);
            }
        }
    }
}

/// Replacing the entry at `i` shifts each asset total by the difference of
/// the two entries' contributions.
pub proof fn lemma_total_update(s: Seq<Account>, i: int, a: Account)
    requires
        0 <= i < s.len(),
    ensures
        forall|qa: u64| #[trigger]
            seq_total(s.update(i, a), qa) == seq_total(s, qa) - acct_contrib(s[i], qa)
                + acct_contrib(a, qa),
    decreases s.len(),
{
    let t = s.update(i, a);
    if i == s.len() - 1 {
        assert(t.drop_last() =~= s.drop_last());
        assert(t.last() == a);
        assert(s.last() == s[i]);
        assert forall|qa: u64| #[trigger] seq_total(t, qa) == seq_total(s, qa) - acct_contrib(
            s[i],
            qa,
        ) + acct_contrib(a, qa) by {
            assert(seq_total(t, qa) == seq_total(t.drop_last(), qa) + acct_contrib(t.last(), qa));
            assert(seq_total(s, qa) == seq_total(s.drop_last(), qa) + acct_contrib(s.last(), qa));
        }
    } else {
        lemma_total_update(s.drop_last(), i, a);
        assert(t.drop_last() =~= s.drop_last().update(i, a));
        assert(t.last() == s.last());
        assert(s.drop_last()[i] == s[i]);
        assert forall|qa: u64| #[trigger] seq_total(t, qa) == seq_total(s, qa) - acct_contrib(
            s[i],
            qa,
        ) + acct_contrib(a, qa) by {
            assert(seq_total(t, qa) == seq_total(t.drop_last(), qa) + acct_contrib(t.last(), qa));
            assert(seq_total(s, qa) == seq_total(s.drop_last(), qa) + acct_contrib(s.last(), qa));
            assert(seq_total(s.drop_last().update(i, a), qa) == seq_total(s.drop_last(), qa)
                - acct_contrib(s.drop_last()[i], qa) + acct_contrib(a, qa));
        }
    }
}

/// Appending an entry adds its contribution to each asset total.
pub proof fn lemma_total_push(s: Seq<Account>, a: Account)
    ensures
        forall|qa: u64| #[trigger]
            seq_total(s.push(a), qa) == seq_total(s, qa) + acct_contrib(a, qa),
{
    assert(s.push(a).drop_last() =~= s);
    assert(s.push(a).last() == a);
}

impl ValueLedger {
    /// A ledger holding nothing.
    pub fn new() -> (l: ValueLedger)
        ensures
            l.wf(),
            forall|qa: u64, qo: u64| #[trigger] l.bal(qa, qo) == 0,
            forall|qa: u64| #[trigger] l.total(qa) == 0,
    {
        ValueLedger { accounts: Vec::new() }
    }

    /// The index of the entry for the pair, if one exists.
    fn find_account(&self, asset: u64, owner: u64) -> (r: Option<usize>)
        ensures
            match r {
                Some(i) => i < self.accts().len() && acct_key(self.accts()[i as int]) == (
                    asset,
                    owner,
                ),
                None => !seq_has_acct(self.accts(), asset, owner),
            },
    {
        let mut i: usize = 0;
        while i < self.accounts.len()
            invariant
                i <= self.accounts.len(),
                forall|j: int| 0 <= j < i ==> acct_key(#[trigger] self.accounts@[j]) != (
                    asset,
                    owner,
                ),
            decreases self.accounts.len() - i,
        {
            if self.accounts[i].asset == asset && self.accounts[i].owner == owner {
                return Some(i);
            }
            i = i + 1;
        }
        None
    }

    /// Replaces the entry at `i`.
    fn set_account(&mut self, i: usize, a: Account)
        requires
            i < old(self).accts().len(),
        ensures
            final(self).accts() == old(self).accts().update(i as int, a),
    {
        self.accounts.remove(i);
        self.accounts.insert(i, a);
        proof {
            assert(self.accounts@ =~= old(self).accts().update(i as int, a));
        }
    }

    /// What `owner` currently holds of `asset`.
    pub fn balance_of(&self, asset: u64, owner: u64) -> (r: i128)
        requires
            self.wf(),
        ensures
            r as int == self.bal(asset, owner),
    {
        match self.find_account(asset, owner) {
            Some(i) => {
                proof {
                    lemma_bal_at(self.accts(), i as int);
                }
                self.accounts[i].balance
            },
            None => 0,
        }
    }

    /// Creates `amount` of `asset` in `owner`'s account: the way value
    /// enters the ledger before any escrow work begins.
    pub fn mint(&mut self, asset: u64, owner: u64, amount: i128)
        requires
            old(self).wf(),
            0 <= amount,
            old(self).bal(asset, owner) + amount <= i128::MAX,
        ensures
            final(self).wf(),
            forall|qa: u64, qo: u64| #[trigger]
                final(self).bal(qa, qo) == old(self).bal(qa, qo) + if qa == asset && qo == owner {
                    amount as int
                } else {
                    0
                },
            forall|qa: u64| #[trigger]
                final(self).total(qa) == old(self).total(qa) + if qa == asset {
                    amount as int
                } else {
                    0
                },
    {
        match self.find_account(asset, owner) {
            Some(i) => {
                proof {
                    lemma_bal_at(self.accts(), i as int);
                }
                let a = self.accounts[i];
                let updated = Account { asset: a.asset, owner: a.owner, balance: a.balance + amount };
                proof {
                    lemma_bal_update(self.accts(), i as int, updated);
                    lemma_total_update(self.accts(), i as int, updated);
                }
                self.set_account(i, updated);
            },
            None => {
                let fresh = Account { asset, owner, balance: amount };
                proof {
                    lemma_bal_push(self.accts(), fresh);
                    lemma_total_push(self.accts(), fresh);
                }
                self.accounts.push(fresh);
            },
        }
    }

    /// Moves `amount` of `asset` from `from` to `to`. Returns whether the
    /// transfer took place; on failure the ledger is unchanged. No call
    /// creates or destroys value: every asset total is preserved.
    pub fn transfer(&mut self, asset: u64, from: u64, to: u64, amount: i128) -> (ok: bool)
        requires
            old(self).wf(),
            0 <= amount,
        ensures
            final(self).wf(),
            ok == can_transfer(*old(self), asset, from, to, amount as int),
            ok ==> forall|qa: u64, qo: u64| #[trigger]
                final(self).bal(qa, qo) == old(self).bal(qa, qo) + transfer_delta(
                    asset,
                    from,
                    to,
                    amount as int,
                    qa,
                    qo,
                ),
            !ok ==> *final(self) == *old(self),
            forall|qa: u64| #[trigger] final(self).total(qa) == old(self).total(qa),
    {
        proof {
            lemma_bal_bounds(*self, asset, from);
            lemma_bal_bounds(*self, asset, to);
        }
        if amount == 0 {
            return true;
        }
        let i = match self.find_account(asset, from) {
            Some(i) => i,
            None => {
                return false;
            },
        };
        proof {
            lemma_bal_at(self.accts(), i as int);
        }
        let a_from = self.accounts[i];
        if a_from.balance < amount {
            return false;
        }
        if from == to {
            return true;
        }
        let to_bal = self.balance_of(asset, to);
        if to_bal > i128::MAX - amount {
            return false;
        }
        let ghost s0 = self.accts();
        let debited = Account {
            asset: a_from.asset,
            owner: a_from.owner,
            balance: a_from.balance - amount,
        };
        proof {
            lemma_bal_update(s0, i as int, debited);
            lemma_total_update(s0, i as int, debited);
        }
        self.set_account(i, debited);
        let ghost s1 = self.accts();
        match self.find_account(asset, to) {
            Some(j) => {
                proof {
                    lemma_bal_at(s1, j as int);
                }
                let a_to = self.accounts[j];
                let credited = Account {
                    asset: a_to.asset,
                    owner: a_to.owner,
                    balance: a_to.balance + amount,
                };
                proof {
                    lemma_bal_update(s1, j as int, credited);
                    lemma_total_update(s1, j as int, credited);
                }
                self.set_account(j, credited);
            },
            None => {
                let fresh = Account { asset, owner: to, balance: amount };
                proof {
                    lemma_bal_push(s1, fresh);
                    lemma_total_push(s1, fresh);
                }
                self.accounts.push(fresh);
            },
        }
        proof {
            let s2 = self.accts();
            assert forall|qa: u64, qo: u64| #[trigger] seq_bal(s2, qa, qo) == seq_bal(s0, qa, qo)
                + transfer_delta(asset, from, to, amount as int, qa, qo) by {
                assert(seq_bal(s1, qa, qo) == if (qa, qo) == (asset, from) {
                    debited.balance as int
                } else {
                    seq_bal(s0, qa, qo)
                });
            }
        }
        true
    }

    /// Pays `amt_a` to `dest_a` and then `amt_b` to `dest_b`, both out of
    /// `source`, as one all-or-nothing settlement: both legs are checked
    /// against the balances each would find before either is performed, so
    /// a failure changes nothing. A zero leg is skipped.
    pub fn disburse(
        &mut self,
        asset: u64,
        source: u64,
        dest_a: u64,
        amt_a: i128,
        dest_b: u64,
        amt_b: i128,
    ) -> (ok: bool)
        requires
            old(self).wf(),
            0 <= amt_a,
            0 <= amt_b,
        ensures
            final(self).wf(),
            ok == can_disburse(*old(self), asset, source, dest_a, amt_a as int, dest_b, amt_b as int),
            ok ==> forall|qa: u64, qo: u64| #[trigger]
                final(self).bal(qa, qo) == old(self).bal(qa, qo) + disburse_delta(
                    asset,
                    source,
                    dest_a,
                    amt_a as int,
                    dest_b,
                    amt_b as int,
                    qa,
                    qo,
                ),
            !ok ==> *final(self) == *old(self),
            forall|qa: u64| #[trigger] final(self).total(qa) == old(self).total(qa),
    {
        proof {
            lemma_bal_bounds(*self, asset, source);
            lemma_bal_bounds(*self, asset, dest_a);
            lemma_bal_bounds(*self, asset, dest_b);
        }
        let bs = self.balance_of(asset, source);
        let ba = self.balance_of(asset, dest_a);
        let bb = self.balance_of(asset, dest_b);
        if bs < amt_a {
            return false;
        }
        if source != dest_a && ba > i128::MAX - amt_a {
            return false;
        }
        let s1: i128 = if source == dest_a {
            bs
        } else {
            bs - amt_a
        };
        let b1: i128 = if dest_b == dest_a && dest_b == source {
            bb
        } else if dest_b == dest_a {
            bb + amt_a
        } else if dest_b == source {
            bb - amt_a
        } else {
            bb
        };
        if s1 < amt_b {
            return false;
        }
        if source != dest_b && b1 > i128::MAX - amt_b {
            return false;
        }
        let ghost l0 = *self;
        if amt_a > 0 {
            let ok_a = self.transfer(asset, source, dest_a, amt_a);
            proof {
                assert(ok_a);
            }
        }
        let ghost l1 = *self;
        proof {
            assert forall|qa: u64, qo: u64| #[trigger] l1.bal(qa, qo) == l0.bal(qa, qo)
                + transfer_delta(asset, source, dest_a, amt_a as int, qa, qo) by {}
        }
        if amt_b > 0 {
            let ok_b = self.transfer(asset, source, dest_b, amt_b);
            proof {
                assert(ok_b);
            }
        }
        proof {
            assert forall|qa: u64, qo: u64| #[trigger] self.bal(qa, qo) == l0.bal(qa, qo)
                + disburse_delta(asset, source, dest_a, amt_a as int, dest_b, amt_b as int, qa, qo)
            by {
                assert(self.bal(qa, qo) == l1.bal(qa, qo) + transfer_delta(
                    asset,
                    source,
                    dest_b,
                    amt_b as int,
                    qa,
                    qo,
                ));
            }
        }
        true
    }
}

} // verus!
