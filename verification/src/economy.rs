//! Money. One ledger holds every purse plus the treasury; all transfers go
//! through it, so the sum of all accounts never changes except by the
//! operations that set balances up. If the total ever drifts, there is a bug.

use vstd::prelude::*;

use crate::text::{lemma_lt_total, lemma_lt_transitive, seq_lt, str_eq, str_lt};

verus! {

/// Sum of the balances in an account list.
pub open spec fn sum_balances(s: Seq<(String, i64)>) -> int
    decreases s.len(),
{
    if s.len() == 0 {
        0
    } else {
        sum_balances(s.drop_last()) + s.last().1
    }
}

/// No two accounts carry the same name.
pub open spec fn names_unique(s: Seq<(String, i64)>) -> bool {
    forall|i: int, j: int| 0 <= i < s.len() && 0 <= j < s.len() && i != j ==> #[trigger] s[i].0@ != #[trigger] s[j].0@
}

pub proof fn lemma_sum_push(s: Seq<(String, i64)>, e: (String, i64))
    ensures
        sum_balances(s.push(e)) == sum_balances(s) + e.1,
{
    assert(s.push(e).drop_last() =~= s);
}

pub proof fn lemma_sum_update(s: Seq<(String, i64)>, i: int, e: (String, i64))
    requires
        0 <= i < s.len(),
    ensures
        sum_balances(s.update(i, e)) == sum_balances(s) - s[i].1 + e.1,
    decreases s.len(),
{
    let u = s.update(i, e);
    if i == s.len() - 1 {
        assert(u.drop_last() =~= s.drop_last());
    } else {
        lemma_sum_update(s.drop_last(), i, e);
        assert(u.drop_last() =~= s.drop_last().update(i, e));
    }
}

pub proof fn lemma_sum_remove(s: Seq<(String, i64)>, i: int)
    requires
        0 <= i < s.len(),
    ensures
        sum_balances(s.remove(i)) == sum_balances(s) - s[i].1,
    decreases s.len(),
{
    let u = s.remove(i);
    if i == s.len() - 1 {
        assert(u =~= s.drop_last());
    } else {
        lemma_sum_remove(s.drop_last(), i);
        assert(u.drop_last() =~= s.drop_last().remove(i));
        assert(u.last() == s.last());
    }
}

/// All money in the village: one purse per villager plus the treasury.
#[derive(Debug)]
pub struct Ledger {
    accounts: Vec<(String, i64)>,
    treasury: i64,
    /// Expected total, captured on the first conservation check.
    baseline: Option<i64>,
    violated: bool,
}

impl Ledger {
    pub closed spec fn accounts_seq(&self) -> Seq<(String, i64)> {
        self.accounts@
    }

    /// Account names are unique.
    pub closed spec fn wf(&self) -> bool {
        names_unique(self.accounts@)
    }

    /// The ledger has a purse named `name`.
    pub closed spec fn has(&self, name: Seq<char>) -> bool {
        exists|i: int| 0 <= i < self.accounts@.len() && #[trigger] self.accounts@[i].0@ == name
    }

    /// Balance of `name` (0 for a name without a purse).
    pub closed spec fn bal(&self, name: Seq<char>) -> int {
        if self.has(name) {
            self.accounts@[choose|i: int| 0 <= i < self.accounts@.len() && #[trigger] self.accounts@[i].0@ == name].1 as int
        } else {
            0
        }
    }

    /// Every coin in the village: purses plus treasury.
    pub closed spec fn total_spec(&self) -> int {
        sum_balances(self.accounts@) + self.treasury
    }

    /// The conservation baseline, once captured.
    /// Coins held by the village treasury.
    pub closed spec fn treasury_spec(&self) -> int {
        self.treasury as int
    }

    pub closed spec fn baseline_spec(&self) -> Option<i64> {
        self.baseline
    }

    /// A conservation violation has already been reported.
    pub closed spec fn violated_spec(&self) -> bool {
        self.violated
    }

    /// Two ledgers agree on every purse except possibly `name`'s.
    pub open spec fn same_except(&self, other: &Ledger, name: Seq<char>) -> bool {
        forall|k: Seq<char>| k != name ==> (#[trigger] self.has(k) == other.has(k) && self.bal(k) == other.bal(k))
    }

    proof fn lemma_bal_at(&self, i: int)
        requires
            self.wf(),
            0 <= i < self.accounts@.len(),
        ensures
            self.has(self.accounts@[i].0@),
            self.bal(self.accounts@[i].0@) == self.accounts@[i].1,
    {
        let name = self.accounts@[i].0@;
        assert(self.accounts@[i].0@ == name);
        let j = choose|j: int| 0 <= j < self.accounts@.len() && #[trigger] self.accounts@[j].0@ == name;
        if j != i {
            assert(self.accounts@[j].0@ != self.accounts@[i].0@);
        }
    }

    /// No purse and no treasury is in debt, and all money together stays
    /// below `ledger_cap()` (so no single amount can overflow).
    pub closed spec fn solvent(&self) -> bool {
        &&& forall|i: int| 0 <= i < self.accounts@.len() ==> #[trigger] self.accounts@[i].1 >= 0
        &&& self.treasury >= 0
        &&& self.total_spec() <= ledger_cap()
    }

    /// In a solvent ledger every purse and the treasury lie between 0 and the cap.
    pub proof fn lemma_solvent_bounds(&self)
        requires
            self.wf(),
            self.solvent(),
        ensures
            forall|k: Seq<char>| 0 <= #[trigger] self.bal(k) <= ledger_cap(),
            0 <= self.treasury_spec() <= ledger_cap(),
            0 <= self.total_spec() <= ledger_cap(),
    {
        lemma_sum_nonneg(self.accounts@);
        assert forall|k: Seq<char>| 0 <= #[trigger] self.bal(k) <= ledger_cap() by {
            if self.has(k) {
                let i = choose|i: int| 0 <= i < self.accounts@.len() && #[trigger] self.accounts@[i].0@ == k;
                self.lemma_bal_at(i);
                lemma_entry_le_sum(self.accounts@, i);
            }
        }
    }

    /// In a solvent ledger two purses together, with the treasury, hold no
    /// more than all the money.
    pub proof fn lemma_pair_within_total(&self, a: Seq<char>, b: Seq<char>)
        requires
            self.wf(),
            self.solvent(),
        ensures
            self.bal(a) + self.treasury_spec() <= self.total_spec(),
            a != b ==> self.bal(a) + self.bal(b) + self.treasury_spec() <= self.total_spec(),
    {
        lemma_sum_nonneg(self.accounts@);
        if self.has(a) {
            let i = choose|i: int| 0 <= i < self.accounts@.len() && #[trigger] self.accounts@[i].0@ == a;
            self.lemma_bal_at(i);
            lemma_entry_le_sum(self.accounts@, i);
            if a != b && self.has(b) {
                let j = choose|j: int| 0 <= j < self.accounts@.len() && #[trigger] self.accounts@[j].0@ == b;
                self.lemma_bal_at(j);
                lemma_two_entries_le_sum(self.accounts@, i, j);
            }
        }
        if a != b && self.has(b) && !self.has(a) {
            let j = choose|j: int| 0 <= j < self.accounts@.len() && #[trigger] self.accounts@[j].0@ == b;
            self.lemma_bal_at(j);
            lemma_entry_le_sum(self.accounts@, j);
        }
    }

    /// Purse entries are non-negative when every named balance is.
    proof fn lemma_entries_nonneg(&self)
        requires
            self.wf(),
            forall|k: Seq<char>| #[trigger] self.has(k) ==> self.bal(k) >= 0,
        ensures
            forall|i: int| 0 <= i < self.accounts@.len() ==> #[trigger] self.accounts@[i].1 >= 0,
    {
        assert forall|i: int| 0 <= i < self.accounts@.len() implies #[trigger] self.accounts@[i].1 >= 0 by {
            self.lemma_bal_at(i);
        }
    }

    /// Non-negative named balances and treasury, within the cap, make a solvent ledger.
    pub proof fn lemma_solvent_intro(&self)
        requires
            self.wf(),
            forall|k: Seq<char>| #[trigger] self.has(k) ==> self.bal(k) >= 0,
            self.treasury_spec() >= 0,
            self.total_spec() <= ledger_cap(),
        ensures
            self.solvent(),
    {
        self.lemma_entries_nonneg();
    }

    /// An empty ledger with an empty treasury.
    pub fn new() -> (r: Self)
        ensures
            r.wf(),
            r.total_spec() == 0,
            r.treasury_spec() == 0,
            forall|k: Seq<char>| !#[trigger] r.has(k),
            r.baseline_spec() is None,
            !r.violated_spec(),
    {
        Ledger { accounts: Vec::new(), treasury: 0, baseline: None, violated: false }
    }

    /// Position of `name`'s purse.
    fn find(&self, name: &str) -> (r: Option<usize>)
        requires
            self.wf(),
        ensures
            r matches Some(i) ==> i < self.accounts@.len() && self.accounts@[i as int].0@ == name@,
            r is None ==> !self.has(name@),
    {
        let n = self.accounts.len();
        let mut i: usize = 0;
        while i < n
            invariant
                n == self.accounts@.len(),
                i <= n,
                forall|j: int| 0 <= j < i ==> self.accounts@[j].0@ != name@,
            decreases n - i,
        {
            if str_eq(self.accounts[i].0.as_str(), name) {
                return Some(i);
            }
            i = i + 1;
        }
        None
    }

    /// Current balance of `name` (0 if the name has no purse).
    pub fn balance(&self, name: &str) -> (r: i64)
        requires
            self.wf(),
        ensures
            r == self.bal(name@),
    {
        match self.find(name) {
            Some(i) => {
                proof {
                    self.lemma_bal_at(i as int);
                }
                self.accounts[i].1
            },
            None => 0,
        }
    }

    /// Coins held by the village treasury.
    pub fn treasury(&self) -> (r: i64)
        ensures
            r == self.treasury_spec(),
    {
        self.treasury
    }

    /// Fund the treasury at village setup.
    pub fn set_treasury(&mut self, amount: i64)
        requires
            old(self).wf(),
        ensures
            final(self).wf(),
            final(self).treasury_spec() == amount,
            final(self).accounts_seq() == old(self).accounts_seq(),
            forall|k: Seq<char>| #[trigger] final(self).has(k) == old(self).has(k) && final(self).bal(k) == old(self).bal(k),
            final(self).total_spec() == old(self).total_spec() - old(self).treasury_spec() + amount,
            final(self).baseline_spec() == old(self).baseline_spec(),
            final(self).violated_spec() == old(self).violated_spec(),
    {
        self.treasury = amount;
    }

    /// Number of purses.
    pub fn len(&self) -> (r: usize)
        ensures
            r == self.accounts_seq().len(),
    {
        self.accounts.len()
    }

    /// Set `name`'s purse to `amount`, opening it if needed (village setup).
    pub fn set_balance(&mut self, name: &str, amount: i64)
        requires
            old(self).wf(),
        ensures
            final(self).wf(),
            final(self).has(name@),
            final(self).bal(name@) == amount,
            final(self).same_except(old(self), name@),
            final(self).treasury_spec() == old(self).treasury_spec(),
            final(self).total_spec() == old(self).total_spec() - old(self).bal(name@) + amount,
            final(self).accounts_seq().len() <= old(self).accounts_seq().len() + 1,
            final(self).baseline_spec() == old(self).baseline_spec(),
            final(self).violated_spec() == old(self).violated_spec(),
    {
        let ghost pre = *self;
        match self.find(name) {
            Some(i) => {
                proof {
                    pre.lemma_bal_at(i as int);
                    lemma_sum_update(pre.accounts@, i as int, (self.accounts@[i as int].0, amount));
                }
                let key = self.accounts[i].0.clone();
                self.accounts.set(i, (key, amount));
                proof {
                    assert(names_unique(self.accounts@)) by {
                        assert forall|a: int, b: int| 0 <= a < self.accounts@.len() && 0 <= b < self.accounts@.len() && a != b
                            implies #[trigger] self.accounts@[a].0@ != #[trigger] self.accounts@[b].0@ by {
                            assert(pre.accounts@[a].0@ != pre.accounts@[b].0@);
                        }
                    }
                    self.lemma_bal_at(i as int);
                    self.lemma_frame_update(&pre, i as int);
                }
            },
            None => {
                let key = name.to_owned();
                self.accounts.push((key, amount));
                proof {
                    lemma_sum_push(pre.accounts@, (key, amount));
                    assert(names_unique(self.accounts@)) by {
                        assert forall|a: int, b: int| 0 <= a < self.accounts@.len() && 0 <= b < self.accounts@.len() && a != b
                            implies #[trigger] self.accounts@[a].0@ != #[trigger] self.accounts@[b].0@ by {
                            if a < pre.accounts@.len() && b < pre.accounts@.len() {
                                assert(pre.accounts@[a].0@ != pre.accounts@[b].0@);
                            } else if a < pre.accounts@.len() {
                                assert(pre.accounts@[a] == self.accounts@[a]);
                            } else {
                                assert(pre.accounts@[b] == self.accounts@[b]);
                            }
                        }
                    }
                    self.lemma_bal_at(pre.accounts@.len() as int);
                    self.lemma_frame_push(&pre);
                }
            },
        }
    }

    /// Ledgers with the same purses agree on every name.
    proof fn lemma_same_accounts(&self, other: &Ledger)
        requires
            self.accounts@ == other.accounts@,
        ensures
            forall|k: Seq<char>| #[trigger] self.has(k) == other.has(k) && self.bal(k) == other.bal(k),
    {
    }

    /// After overwriting purse `i`, every other name keeps its purse.
    proof fn lemma_frame_update(&self, pre: &Ledger, i: int)
        requires
            pre.wf(),
            self.wf(),
            0 <= i < pre.accounts@.len(),
            self.accounts@.len() == pre.accounts@.len(),
            forall|j: int| 0 <= j < pre.accounts@.len() && j != i ==> self.accounts@[j] == pre.accounts@[j],
            self.accounts@[i].0@ == pre.accounts@[i].0@,
        ensures
            self.same_except(pre, pre.accounts@[i].0@),
    {
        assert forall|k: Seq<char>| k != pre.accounts@[i].0@ implies (#[trigger] self.has(k) == pre.has(k) && self.bal(k)
            == pre.bal(k)) by {
            if self.has(k) {
                let j = choose|j: int| 0 <= j < self.accounts@.len() && #[trigger] self.accounts@[j].0@ == k;
                assert(pre.accounts@[j].0@ == k);
                self.lemma_bal_at(j);
                pre.lemma_bal_at(j);
            }
            if pre.has(k) {
                let j = choose|j: int| 0 <= j < pre.accounts@.len() && #[trigger] pre.accounts@[j].0@ == k;
                assert(self.accounts@[j].0@ == k);
            }
        }
    }

    /// After opening a purse at the end, every other name keeps its purse.
    proof fn lemma_frame_push(&self, pre: &Ledger)
        requires
            pre.wf(),
            self.wf(),
            self.accounts@.len() == pre.accounts@.len() + 1,
            forall|j: int| 0 <= j < pre.accounts@.len() ==> self.accounts@[j] == pre.accounts@[j],
        ensures
            self.same_except(pre, self.accounts@.last().0@),
    {
        let name = self.accounts@.last().0@;
        assert forall|k: Seq<char>| k != name implies (#[trigger] self.has(k) == pre.has(k) && self.bal(k) == pre.bal(k)) by {
            if self.has(k) {
                let j = choose|j: int| 0 <= j < self.accounts@.len() && #[trigger] self.accounts@[j].0@ == k;
                assert(j < pre.accounts@.len());
                assert(pre.accounts@[j].0@ == k);
                self.lemma_bal_at(j);
                pre.lemma_bal_at(j);
            }
            if pre.has(k) {
                let j = choose|j: int| 0 <= j < pre.accounts@.len() && #[trigger] pre.accounts@[j].0@ == k;
                assert(self.accounts@[j].0@ == k);
            }
        }
    }

    /// Add `delta` to `name`'s purse, opening it at 0 first if needed.
    fn adjust(&mut self, name: &str, delta: i64)
        requires
            old(self).wf(),
            i64::MIN <= old(self).bal(name@) + delta <= i64::MAX,
        ensures
            final(self).wf(),
            final(self).has(name@),
            final(self).bal(name@) == old(self).bal(name@) + delta,
            final(self).same_except(old(self), name@),
            final(self).treasury_spec() == old(self).treasury_spec(),
            final(self).total_spec() == old(self).total_spec() + delta,
            final(self).accounts_seq().len() <= old(self).accounts_seq().len() + 1,
            final(self).baseline_spec() == old(self).baseline_spec(),
            final(self).violated_spec() == old(self).violated_spec(),
    {
        let cur = self.balance(name);
        self.set_balance(name, cur + delta);
    }

    /// Person-to-person payment. Fails (no change) if the payer can't afford it.
    pub fn transfer(&mut self, from: &str, to: &str, amount: i64) -> (r: bool)
        requires
            old(self).wf(),
            old(self).solvent() && amount >= 0 || (old(self).bal(from@) >= amount ==> old(self).bal(from@) - amount <= i64::MAX),
            old(self).solvent() && amount >= 0 || (old(self).bal(from@) >= amount && from@ != to@ ==> i64::MIN <= old(self).bal(to@) + amount <= i64::MAX),
        ensures
            final(self).wf(),
            r == (old(self).bal(from@) >= amount),
            final(self).total_spec() == old(self).total_spec(),
            final(self).treasury_spec() == old(self).treasury_spec(),
            !r ==> *final(self) == *old(self),
            r && from@ != to@ ==> final(self).bal(from@) == old(self).bal(from@) - amount && final(self).bal(to@)
                == old(self).bal(to@) + amount && final(self).has(from@) && final(self).has(to@),
            r && from@ == to@ ==> final(self).bal(from@) == old(self).bal(from@) && final(self).has(from@),
            old(self).solvent() && amount >= 0 ==> final(self).solvent(),
            final(self).accounts_seq().len() <= old(self).accounts_seq().len() + 2,
            r ==> forall|k: Seq<char>| k != from@ && k != to@ ==> (#[trigger] final(self).has(k) == old(self).has(k)
                && final(self).bal(k) == old(self).bal(k)),
            final(self).baseline_spec() == old(self).baseline_spec(),
            final(self).violated_spec() == old(self).violated_spec(),
    {
        if self.balance(from) < amount {
            return false;
        }
        proof {
            if self.solvent() && amount >= 0 {
                self.lemma_solvent_bounds();
                self.lemma_pair_within_total(from@, to@);
            }
        }
        let ghost s0 = *self;
        let cur = self.balance(from);
        self.set_balance(from, cur - amount);
        let ghost s1 = *self;
        self.adjust(to, amount);
        proof {
            if from@ != to@ {
                assert(s1.bal(to@) == s0.bal(to@));
            }
            if s0.solvent() && amount >= 0 {
                s0.lemma_solvent_bounds();
                assert forall|k: Seq<char>| #[trigger] self.has(k) implies self.bal(k) >= 0 by {
                    assert(s0.bal(k) >= 0);
                    if k != from@ && k != to@ {
                        assert(s1.bal(k) == s0.bal(k));
                    } else if k == to@ && from@ != to@ {
                        assert(s1.bal(to@) == s0.bal(to@));
                    }
                }
                self.lemma_solvent_intro();
            }
        }
        true
    }

    /// Tax payment: collects at most what the payer has (never below zero).
    /// Returns the amount paid.
    pub fn collect_tax(&mut self, from: &str, amount: i64) -> (paid: i64)
        requires
            old(self).wf(),
            old(self).solvent() || old(self).treasury_spec() + spec_tax_paid(amount as int, old(self).bal(from@)) <= i64::MAX,
        ensures
            final(self).wf(),
            paid as int == spec_tax_paid(amount as int, old(self).bal(from@)),
            final(self).has(from@),
            final(self).bal(from@) == old(self).bal(from@) - paid,
            final(self).treasury_spec() == old(self).treasury_spec() + paid,
            final(self).same_except(old(self), from@),
            final(self).total_spec() == old(self).total_spec(),
            old(self).solvent() ==> final(self).solvent(),
            final(self).accounts_seq().len() <= old(self).accounts_seq().len() + 1,
            final(self).baseline_spec() == old(self).baseline_spec(),
            final(self).violated_spec() == old(self).violated_spec(),
    {
        proof {
            if self.solvent() {
                self.lemma_solvent_bounds();
                self.lemma_pair_within_total(from@, from@);
            }
        }
        let bal = self.balance(from);
        let capped = if amount < bal { amount } else { bal };
        let paid = if capped > 0 { capped } else { 0 };
        let ghost pre = *self;
        self.set_balance(from, bal - paid);
        let ghost mid = *self;
        self.treasury = self.treasury + paid;
        proof {
            self.lemma_same_accounts(&mid);
            if pre.solvent() {
                pre.lemma_solvent_bounds();
                assert forall|k: Seq<char>| #[trigger] self.has(k) implies self.bal(k) >= 0 by {
                    assert(pre.bal(k) >= 0);
                    assert(mid.has(k) == self.has(k));
                }
                self.lemma_solvent_intro();
            }
        }
        paid
    }

    /// Treasury payment. Fails (no change) if the treasury can't afford it.
    pub fn pay_from_treasury(&mut self, to: &str, amount: i64) -> (r: bool)
        requires
            old(self).wf(),
            old(self).solvent() && amount >= 0 || i64::MIN <= old(self).bal(to@) + amount <= i64::MAX,
            old(self).solvent() && amount >= 0 || i64::MIN <= old(self).treasury_spec() - amount <= i64::MAX,
        ensures
            final(self).wf(),
            r == (old(self).treasury_spec() >= amount),
            !r ==> *final(self) == *old(self),
            r ==> final(self).treasury_spec() == old(self).treasury_spec() - amount && final(self).has(to@) && final(self).bal(to@)
                == old(self).bal(to@) + amount && final(self).same_except(old(self), to@),
            final(self).total_spec() == old(self).total_spec(),
            old(self).solvent() && amount >= 0 ==> final(self).solvent(),
            final(self).accounts_seq().len() <= old(self).accounts_seq().len() + 1,
            final(self).baseline_spec() == old(self).baseline_spec(),
            final(self).violated_spec() == old(self).violated_spec(),
    {
        if self.treasury < amount {
            return false;
        }
        proof {
            if self.solvent() && amount >= 0 {
                self.lemma_solvent_bounds();
                self.lemma_pair_within_total(to@, to@);
            }
        }
        let ghost pre = *self;
        self.treasury = self.treasury - amount;
        proof {
            self.lemma_same_accounts(&pre);
        }
        let ghost mid = *self;
        self.adjust(to, amount);
        proof {
            if pre.solvent() && amount >= 0 {
                pre.lemma_solvent_bounds();
                assert forall|k: Seq<char>| #[trigger] self.has(k) implies self.bal(k) >= 0 by {
                    assert(pre.bal(k) >= 0);
                    assert(mid.bal(k) == pre.bal(k));
                }
                self.lemma_solvent_intro();
            }
        }
        true
    }

    /// Death: the estate goes to the treasury (money must not evaporate).
    pub fn inherit(&mut self, name: &str) -> (estate: i64)
        requires
            old(self).wf(),
            old(self).treasury_spec() + old(self).bal(name@) <= i64::MAX,
            old(self).treasury_spec() + old(self).bal(name@) >= i64::MIN,
        ensures
            final(self).wf(),
            estate == old(self).bal(name@),
            !final(self).has(name@),
            final(self).treasury_spec() == old(self).treasury_spec() + estate,
            final(self).same_except(old(self), name@),
            final(self).total_spec() == old(self).total_spec(),
            old(self).solvent() ==> final(self).solvent(),
            final(self).accounts_seq().len() <= old(self).accounts_seq().len(),
            final(self).baseline_spec() == old(self).baseline_spec(),
            final(self).violated_spec() == old(self).violated_spec(),
    {
        let ghost pre = *self;
        match self.find(name) {
            Some(i) => {
                proof {
                    pre.lemma_bal_at(i as int);
                    lemma_sum_remove(pre.accounts@, i as int);
                }
                let (_, estate) = self.accounts.remove(i);
                self.treasury = self.treasury + estate;
                proof {
                    assert(names_unique(self.accounts@)) by {
                        assert forall|a: int, b: int| 0 <= a < self.accounts@.len() && 0 <= b < self.accounts@.len() && a != b
                            implies #[trigger] self.accounts@[a].0@ != #[trigger] self.accounts@[b].0@ by {
                            let a0 = if a < i { a } else { a + 1 };
                            let b0 = if b < i { b } else { b + 1 };
                            assert(self.accounts@[a] == pre.accounts@[a0]);
                            assert(self.accounts@[b] == pre.accounts@[b0]);
                        }
                    }
                    assert(!self.has(name@)) by {
                        if self.has(name@) {
                            let j = choose|j: int| 0 <= j < self.accounts@.len() && #[trigger] self.accounts@[j].0@ == name@;
                            let j0 = if j < i { j } else { j + 1 };
                            assert(self.accounts@[j] == pre.accounts@[j0]);
                            assert(pre.accounts@[j0].0@ != pre.accounts@[i as int].0@);
                        }
                    }
                    assert forall|k: Seq<char>| k != name@ implies (#[trigger] self.has(k) == pre.has(k) && self.bal(k)
                        == pre.bal(k)) by {
                        if self.has(k) {
                            let j = choose|j: int| 0 <= j < self.accounts@.len() && #[trigger] self.accounts@[j].0@ == k;
                            let j0 = if j < i { j } else { j + 1 };
                            assert(self.accounts@[j] == pre.accounts@[j0]);
                            self.lemma_bal_at(j);
                            pre.lemma_bal_at(j0);
                        }
                        if pre.has(k) {
                            let j = choose|j: int| 0 <= j < pre.accounts@.len() && #[trigger] pre.accounts@[j].0@ == k;
                            assert(j != i);
                            let j1 = if j < i { j } else { j - 1 };
                            assert(self.accounts@[j1] == pre.accounts@[j]);
                        }
                    }
                    if pre.solvent() {
                        pre.lemma_solvent_bounds();
                        assert forall|k: Seq<char>| #[trigger] self.has(k) implies self.bal(k) >= 0 by {
                            assert(pre.bal(k) >= 0);
                        }
                        self.lemma_solvent_intro();
                    }
                }
                estate
            },
            None => 0,
        }
    }

    /// Sum of every purse plus the treasury.
    pub fn total(&self) -> (r: i64)
        requires
            self.wf(),
            i64::MIN <= self.total_spec() <= i64::MAX,
        ensures
            r == self.total_spec(),
    {
        let n = self.accounts.len();
        let mut acc: i128 = 0;
        let mut i: usize = 0;
        while i < n
            invariant
                n == self.accounts@.len(),
                n <= 18446744073709551615,
                i <= n,
                acc == sum_balances(self.accounts@.subrange(0, i as int)),
                -9223372036854775808 * i <= acc <= 9223372036854775807 * i,
            decreases n - i,
        {
            proof {
                assert(self.accounts@.subrange(0, i + 1).drop_last() =~= self.accounts@.subrange(0, i as int));
                assert(9223372036854775807 * i <= 9223372036854775807 * 18446744073709551614) by (nonlinear_arith)
                    requires
                        i <= 18446744073709551614,
                ;
                assert(-9223372036854775808 * i >= -9223372036854775808 * 18446744073709551614) by (nonlinear_arith)
                    requires
                        i <= 18446744073709551614,
                ;
            }
            acc = acc + self.accounts[i].1 as i128;
            i = i + 1;
        }
        proof {
            assert(self.accounts@.subrange(0, n as int) =~= self.accounts@);
        }
        (acc + self.treasury as i128) as i64
    }

    /// Every tick: the total must equal the baseline captured by the first
    /// check. Returns `(expected, actual)` on the first violation only.
    pub fn conservation_check(&mut self) -> (r: Option<(i64, i64)>)
        requires
            old(self).wf(),
            i64::MIN <= old(self).total_spec() <= i64::MAX,
        ensures
            final(self).wf(),
            final(self).total_spec() == old(self).total_spec(),
            final(self).solvent() == old(self).solvent(),
            forall|k: Seq<char>| #[trigger] final(self).has(k) == old(self).has(k) && final(self).bal(k) == old(self).bal(k),
            final(self).accounts_seq() == old(self).accounts_seq(),
            final(self).treasury_spec() == old(self).treasury_spec(),
            old(self).baseline_spec() is None ==> final(self).baseline_spec() == Some(old(self).total_spec() as i64)
                && r is None && final(self).violated_spec() == old(self).violated_spec(),
            old(self).baseline_spec() matches Some(e) ==> final(self).baseline_spec() == Some(e) && (if e
                != old(self).total_spec() && !old(self).violated_spec() {
                r == Some((e, old(self).total_spec() as i64)) && final(self).violated_spec()
            } else {
                r is None && final(self).violated_spec() == old(self).violated_spec()
            }),
    {
        let total = self.total();
        match self.baseline {
            None => {
                self.baseline = Some(total);
                None
            },
            Some(expected) => {
                if total != expected && !self.violated {
                    self.violated = true;
                    Some((expected, total))
                } else {
                    None
                }
            },
        }
    }

    /// No purse or treasury is in debt and all money stays within the cap.
    pub fn is_solvent(&self) -> (r: bool)
        requires
            self.wf(),
        ensures
            r == self.solvent(),
    {
        if self.treasury < 0 {
            return false;
        }
        if self.treasury > 9223372036854775807 {
            proof {
                if self.solvent() {
                    lemma_sum_nonneg(self.accounts@);
                }
            }
            return false;
        }
        let n = self.accounts.len();
        let mut acc: i128 = self.treasury as i128;
        let mut i: usize = 0;
        while i < n
            invariant
                n == self.accounts@.len(),
                i <= n,
                self.treasury >= 0,
                forall|k: int| 0 <= k < i ==> #[trigger] self.accounts@[k].1 >= 0,
                acc == sum_balances(self.accounts@.subrange(0, i as int)) + self.treasury,
                0 <= acc <= 9223372036854775807,
            decreases n - i,
        {
            let b = self.accounts[i].1;
            if b < 0 {
                return false;
            }
            proof {
                assert(self.accounts@.subrange(0, i + 1).drop_last() =~= self.accounts@.subrange(0, i as int));
            }
            acc = acc + b as i128;
            if acc > 9223372036854775807 {
                proof {
                    if self.solvent() {
                        lemma_prefix_le_total(self.accounts@, i + 1);
                    }
                }
                return false;
            }
            i = i + 1;
        }
        proof {
            assert(self.accounts@.subrange(0, n as int) =~= self.accounts@);
        }
        true
    }

    /// Every purse, in name order (names compared character by character).
    pub fn purses(&self) -> (r: Vec<(String, i64)>)
        requires
            self.wf(),
        ensures
            r@.len() == self.accounts_seq().len(),
            forall|x: (String, i64)| #[trigger] r@.contains(x) <==> self.accounts_seq().contains(x),
            forall|a: int, b: int| 0 <= a < b < r@.len() ==> seq_lt(#[trigger] r@[a].0@, #[trigger] r@[b].0@),
    {
        let n = self.accounts.len();
        let mut out: Vec<(String, i64)> = Vec::new();
        let mut i: usize = 0;
        while i < n
            invariant
                n == self.accounts@.len(),
                names_unique(self.accounts@),
                i <= n,
                out@.len() == i,
                forall|x: (String, i64)| #[trigger] out@.contains(x) <==> self.accounts@.take(i as int).contains(x),
                forall|a: int, b: int| 0 <= a < b < out@.len() ==> seq_lt(#[trigger] out@[a].0@, #[trigger] out@[b].0@),
            decreases n - i,
        {
            let name = self.accounts[i].0.clone();
            let item = (name, self.accounts[i].1);
            assert(item == self.accounts@[i as int]);
            let mut p: usize = 0;
            while p < out.len() && str_lt(out[p].0.as_str(), item.0.as_str())
                invariant
                    p <= out@.len(),
                    forall|a: int| 0 <= a < p ==> seq_lt(#[trigger] out@[a].0@, item.0@),
                decreases out@.len() - p,
            {
                p = p + 1;
            }
            let ghost o0 = out@;
            proof {
                if p < o0.len() {
                    assert(o0.contains(o0[p as int]));
                    assert(self.accounts@.take(i as int).contains(o0[p as int]));
                    let k = choose|k: int| 0 <= k < i && self.accounts@.take(i as int)[k] == o0[p as int];
                    assert(self.accounts@[k] == o0[p as int]);
                    assert(self.accounts@[k].0@ != self.accounts@[i as int].0@);
                    lemma_lt_total(o0[p as int].0@, item.0@);
                }
            }
            out.insert(p, item);
            proof {
                let t0 = self.accounts@.take(i as int);
                let t1 = self.accounts@.take(i as int + 1);
                assert(t1 =~= t0.push(item));
                assert forall|x: (String, i64)| #[trigger] out@.contains(x) <==> t1.contains(x) by {
                    if out@.contains(x) {
                        let q = choose|q: int| 0 <= q < out@.len() && out@[q] == x;
                        if q < p {
                            assert(o0[q] == x);
                            assert(o0.contains(x));
                        } else if q > p {
                            assert(o0[q - 1] == x);
                            assert(o0.contains(x));
                        }
                        if x != item {
                            assert(t0.contains(x));
                            let k = choose|k: int| 0 <= k < t0.len() && t0[k] == x;
                            assert(t1[k] == x);
                        } else {
                            assert(t1[i as int] == x);
                        }
                    }
                    if t1.contains(x) {
                        let k = choose|k: int| 0 <= k < t1.len() && t1[k] == x;
                        if k < i {
                            assert(t0[k] == x);
                            assert(t0.contains(x));
                            assert(o0.contains(x));
                            let q = choose|q: int| 0 <= q < o0.len() && o0[q] == x;
                            if q < p {
                                assert(out@[q] == x);
                            } else {
                                assert(out@[q + 1] == x);
                            }
                        } else {
                            assert(out@[p as int] == x);
                        }
                    }
                }
                assert forall|a: int, b: int| 0 <= a < b < out@.len() implies seq_lt(#[trigger] out@[a].0@, #[trigger] out@[b].0@) by {
                    if b < p {
                        assert(out@[a] == o0[a] && out@[b] == o0[b]);
                    } else if b == p {
                        assert(out@[a] == o0[a]);
                    } else if a < p {
                        assert(out@[a] == o0[a] && out@[b] == o0[b - 1]);
                        if p < o0.len() {
                            if b - 1 > p {
                                lemma_lt_transitive(item.0@, o0[p as int].0@, o0[b - 1].0@);
                            }
                            lemma_lt_transitive(o0[a].0@, item.0@, o0[b - 1].0@);
                        }
                    } else if a == p {
                        assert(out@[b] == o0[b - 1]);
                        if b - 1 > p {
                            lemma_lt_transitive(item.0@, o0[p as int].0@, o0[b - 1].0@);
                        }
                    } else {
                        assert(out@[a] == o0[a - 1] && out@[b] == o0[b - 1]);
                    }
                }
            }
            i = i + 1;
        }
        proof {
            assert(self.accounts@.take(n as int) =~= self.accounts@);
        }
        out
    }
}

/// Ceiling on all the money of a solvent ledger: what an `i64` holds.
pub open spec fn ledger_cap() -> int {
    9223372036854775807
}

proof fn lemma_sum_nonneg(s: Seq<(String, i64)>)
    requires
        forall|i: int| 0 <= i < s.len() ==> #[trigger] s[i].1 >= 0,
    ensures
        sum_balances(s) >= 0,
    decreases s.len(),
{
    if s.len() > 0 {
        lemma_sum_nonneg(s.drop_last());
    }
}

proof fn lemma_entry_le_sum(s: Seq<(String, i64)>, i: int)
    requires
        0 <= i < s.len(),
        forall|j: int| 0 <= j < s.len() ==> #[trigger] s[j].1 >= 0,
    ensures
        s[i].1 <= sum_balances(s),
    decreases s.len(),
{
    lemma_sum_nonneg(s.drop_last());
    if i < s.len() - 1 {
        lemma_entry_le_sum(s.drop_last(), i);
    }
}

proof fn lemma_two_entries_le_sum(s: Seq<(String, i64)>, i: int, j: int)
    requires
        0 <= i < s.len(),
        0 <= j < s.len(),
        i != j,
        forall|k: int| 0 <= k < s.len() ==> #[trigger] s[k].1 >= 0,
    ensures
        s[i].1 + s[j].1 <= sum_balances(s),
    decreases s.len(),
{
    lemma_sum_nonneg(s.drop_last());
    let n = s.len() - 1;
    if i < n && j < n {
        lemma_two_entries_le_sum(s.drop_last(), i, j);
    } else if i == n {
        lemma_entry_le_sum(s.drop_last(), j);
    } else {
        lemma_entry_le_sum(s.drop_last(), i);
    }
}

/// What a tax demand of `amount` collects from a purse holding `bal`:
/// the demand, capped by the purse, never negative.
pub open spec fn spec_tax_paid(amount: int, bal: int) -> int {
    let capped = if amount < bal { amount } else { bal };
    if capped > 0 { capped } else { 0 }
}


/// A tax collects what is owed when the purse covers it, else the whole
/// purse, and never a negative amount or more than either.
pub proof fn law_tax_paid(amount: int, bal: int)
    ensures
        0 <= spec_tax_paid(amount, bal),
        spec_tax_paid(amount, bal) <= amount || amount < 0,
        spec_tax_paid(amount, bal) <= bal || bal < 0,
        0 <= amount <= bal ==> spec_tax_paid(amount, bal) == amount,
        0 <= bal < amount ==> spec_tax_paid(amount, bal) == bal,
{
}

/// A prefix of non-negative purses never sums to more than all of them.
proof fn lemma_prefix_le_total(s: Seq<(String, i64)>, k: int)
    requires
        0 <= k <= s.len(),
        forall|j: int| 0 <= j < s.len() ==> #[trigger] s[j].1 >= 0,
    ensures
        sum_balances(s.subrange(0, k)) <= sum_balances(s),
    decreases s.len(),
{
    if k == s.len() {
        assert(s.subrange(0, k) =~= s);
    } else {
        lemma_prefix_le_total(s.drop_last(), k);
        assert(s.drop_last().subrange(0, k) =~= s.subrange(0, k));
    }
}

} // verus!
