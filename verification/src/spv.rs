//! One SPV: who holds how many of its fractions, and how the proceeds of an
//! exit are shared out.

use candid::Principal;
use vstd::prelude::*;

verus! {

/// A holder of fractions. As a payout, `fractions` is the amount paid.
#[derive(Clone, Copy, Debug)]
pub struct Investor {
    pub investor_principal: Principal,
    pub fractions: u64,
}

/// Whether `holders` has an entry for `p`.
pub open spec fn holds(holders: Seq<Investor>, p: Principal) -> bool {
    exists|i: int| 0 <= i < holders.len() && #[trigger] holders[i].investor_principal == p
}

/// Where the entry of `p` stands in `holders`.
pub open spec fn holder_index(holders: Seq<Investor>, p: Principal) -> int {
    choose|i: int| 0 <= i < holders.len() && #[trigger] holders[i].investor_principal == p
}

/// The fractions that `p` holds; zero for a principal without an entry.
pub open spec fn balance(holders: Seq<Investor>, p: Principal) -> u64 {
    if holds(holders, p) {
        holders[holder_index(holders, p)].fractions
    } else {
        0
    }
}

/// No principal has two entries.
pub open spec fn distinct_holders(holders: Seq<Investor>) -> bool {
    forall|i: int, j: int|
        0 <= i < holders.len() && 0 <= j < holders.len() && i != j
            ==> #[trigger] holders[i].investor_principal
            != #[trigger] holders[j].investor_principal
}

/// The holders after `p` got `fractions` more.
pub open spec fn with_fractions(holders: Seq<Investor>, p: Principal, fractions: u64) -> Seq<
    Investor,
> {
    if holds(holders, p) {
        let i = holder_index(holders, p);
        holders.update(
            i,
            Investor {
                investor_principal: p,
                fractions: (holders[i].fractions + fractions) as u64,
            },
        )
    } else {
        holders.push(Investor { investor_principal: p, fractions })
    }
}

/// The share of `total_exit_value` that falls to `fractions` out of
/// `total_supply`, rounded down.
pub open spec fn payout(fractions: u64, total_exit_value: u64, total_supply: u64) -> int {
    (fractions * total_exit_value) / (total_supply as int)
}

/// The state of an SPV.
pub struct SpvView {
    pub holders: Seq<Investor>,
    pub total_supply: u64,
    pub fraction_price: u64,
}

impl SpvView {
    /// Every holder's share of `total_exit_value` can be worked out in 64
    /// bits.
    pub open spec fn exit_fits(self, total_exit_value: u64) -> bool {
        forall|i: int|
            0 <= i < self.holders.len() ==> (#[trigger] self.holders[i]).fractions
                * total_exit_value <= u64::MAX
    }
}

pub struct Spv {
    holders: Vec<Investor>,
    total_supply: u64,
    fraction_price: u64,
}

impl View for Spv {
    type V = SpvView;

    closed spec fn view(&self) -> SpvView {
        SpvView {
            holders: self.holders@,
            total_supply: self.total_supply,
            fraction_price: self.fraction_price,
        }
    }
}

/// In a list without duplicates, a position that holds `p` is the position
/// of `p`.
pub proof fn lemma_holder_index(holders: Seq<Investor>, p: Principal, i: int)
    requires
        distinct_holders(holders),
        0 <= i < holders.len(),
        holders[i].investor_principal == p,
    ensures
        holds(holders, p),
        holder_index(holders, p) == i,
{
}

impl Spv {
    /// No principal has two entries.
    pub open spec fn wf(&self) -> bool {
        distinct_holders(self@.holders)
    }

    /// An SPV of `total_supply` fractions at `fraction_price` each, without
    /// holders.
    pub fn init_spv(total_supply: u64, fraction_price: u64) -> (s: Self)
        ensures
            s.wf(),
            s@ == (SpvView { holders: Seq::empty(), total_supply, fraction_price }),
    {
        Spv { holders: Vec::new(), total_supply, fraction_price }
    }

    /// Where the entry of `p` stands, if it has one.
    fn find(&self, p: Principal) -> (r: Option<usize>)
        ensures
            match r {
                Some(i) => i < self@.holders.len() && self@.holders[i as int].investor_principal
                    == p && holds(self@.holders, p),
                None => !holds(self@.holders, p),
            },
    {
        let mut i: usize = 0;
        while i < self.holders.len()
            invariant
                i <= self.holders@.len(),
                forall|j: int| 0 <= j < i ==> self.holders@[j].investor_principal != p,
            decreases self.holders@.len() - i,
        {
            if self.holders[i].investor_principal == p {
                return Some(i);
            }
            i += 1;
        }
        None
    }

    /// Whether `amount_in_egp` can be credited to `investor`: the fraction
    /// price is not zero and the new balance fits.
    pub fn can_add(&self, investor: Principal, amount_in_egp: u64) -> (r: bool)
        requires
            self.wf(),
        ensures
            r == (self@.fraction_price > 0 && balance(self@.holders, investor) + amount_in_egp
                / self@.fraction_price <= u64::MAX),
    {
        if self.fraction_price == 0 {
            return false;
        }
        let fractions = amount_in_egp / self.fraction_price;
        let held = self.investor_balance(investor);
        fractions <= u64::MAX - held
    }

    /// Credits `investor` with the fractions that `amount_in_egp` buys at
    /// the fraction price, rounded down.
    pub fn add_investor(&mut self, investor: Principal, amount_in_egp: u64) -> (r: Result<
        (),
        String,
    >)
        requires
            old(self).wf(),
            old(self)@.fraction_price > 0,
            balance(old(self)@.holders, investor) + amount_in_egp / old(self)@.fraction_price
                <= u64::MAX,
        ensures
            final(self).wf(),
            r is Ok,
            final(self)@ == (SpvView {
                holders: with_fractions(
                    old(self)@.holders,
                    investor,
                    amount_in_egp / old(self)@.fraction_price,
                ),
                ..old(self)@
            }),
    {
        let fractions = amount_in_egp / self.fraction_price;
        let ghost before = self@.holders;
        match self.find(investor) {
            Some(i) => {
                proof {
                    lemma_holder_index(before, investor, i as int);
                }
                let held = self.holders[i].fractions;
                self.holders[i].fractions = held + fractions;
                assert(self@.holders =~= with_fractions(before, investor, fractions));
            },
            None => {
                self.holders.push(Investor { investor_principal: investor, fractions });
                assert(self@.holders =~= with_fractions(before, investor, fractions));
                assert forall|i: int, j: int|
                    0 <= i < self@.holders.len() && 0 <= j < self@.holders.len() && i
                        != j implies #[trigger] self@.holders[i].investor_principal
                    != #[trigger] self@.holders[j].investor_principal by {
                    if i < before.len() {
                        assert(before[i].investor_principal != investor);
                    }
                    if j < before.len() {
                        assert(before[j].investor_principal != investor);
                    }
                }
            },
        }
        Ok(())
    }

    /// The fractions that `owner` holds.
    pub fn investor_balance(&self, owner: Principal) -> (r: u64)
        requires
            self.wf(),
        ensures
            r == balance(self@.holders, owner),
    {
        match self.find(owner) {
            Some(i) => {
                proof {
                    lemma_holder_index(self@.holders, owner, i as int);
                }
                self.holders[i].fractions
            },
            None => 0,
        }
    }

    /// Whether the proceeds `total_exit_value` can be shared out: there is
    /// a supply to divide by and every product fits.
    pub fn can_distribute(&self, total_exit_value: u64) -> (r: bool)
        ensures
            r == (self@.total_supply > 0 && self@.exit_fits(total_exit_value)),
    {
        if self.total_supply == 0 {
            return false;
        }
        let mut i: usize = 0;
        while i < self.holders.len()
            invariant
                i <= self.holders@.len(),
                forall|j: int|
                    0 <= j < i ==> (#[trigger] self@.holders[j]).fractions * total_exit_value
                        <= u64::MAX,
            decreases self.holders@.len() - i,
        {
            if self.holders[i].fractions.checked_mul(total_exit_value).is_none() {
                assert(self@.holders[i as int].fractions * total_exit_value > u64::MAX);
                return false;
            }
            i += 1;
        }
        true
    }

    /// What each holder gets of `total_exit_value`: its share by fractions
    /// out of the total supply, rounded down. The holders come in the order
    /// in which they first invested.
    pub fn distribute_exit(&self, total_exit_value: u64) -> (r: Vec<Investor>)
        requires
            self@.total_supply > 0,
            self@.exit_fits(total_exit_value),
        ensures
            r@.len() == self@.holders.len(),
            forall|i: int|
                0 <= i < r@.len() ==> (#[trigger] r@[i]).investor_principal
                    == self@.holders[i].investor_principal && r@[i].fractions == payout(
                    self@.holders[i].fractions,
                    total_exit_value,
                    self@.total_supply,
                ),
    {
        let mut out: Vec<Investor> = Vec::new();
        let mut i: usize = 0;
        while i < self.holders.len()
            invariant
                i <= self.holders@.len(),
                self@.total_supply > 0,
                self@.exit_fits(total_exit_value),
                out@.len() == i,
                forall|j: int|
                    0 <= j < i ==> (#[trigger] out@[j]).investor_principal
                        == self@.holders[j].investor_principal && out@[j].fractions == payout(
                        self@.holders[j].fractions,
                        total_exit_value,
                        self@.total_supply,
                    ),
            decreases self.holders@.len() - i,
        {
            let holder = self.holders[i];
            assert(self@.holders[i as int].fractions * total_exit_value <= u64::MAX);
            let amount = (holder.fractions * total_exit_value) / self.total_supply;
            out.push(Investor { investor_principal: holder.investor_principal, fractions: amount });
            i += 1;
        }
        out
    }
}

} // verus!
