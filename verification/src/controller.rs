//! The deal controller: the terms of SPV deals and the first steps of an
//! investment.

use crate::table::{by_key, lemma_values_below_gap, lemma_values_below_step, values_below};
use candid::Principal;
use std::collections::HashMap;
use vstd::prelude::*;
use vstd::std_specs::hash::group_hash_axioms;

verus! {

#[derive(Debug)]
pub struct DealTerms {
    pub startup_id: String,
    pub equity_percent: u8,
    pub total_raise: u64,
    pub fraction_price: u64,
    pub spv_canister: Option<Principal>,
    pub spv_token_canister: Option<Principal>,
    pub payment_gateway_canister: Option<Principal>,
}

pub struct DealTermsView {
    pub startup_id: Seq<char>,
    pub equity_percent: u8,
    pub total_raise: u64,
    pub fraction_price: u64,
    pub spv_canister: Option<Principal>,
    pub spv_token_canister: Option<Principal>,
    pub payment_gateway_canister: Option<Principal>,
}

impl View for DealTerms {
    type V = DealTermsView;

    open spec fn view(&self) -> DealTermsView {
        DealTermsView {
            startup_id: self.startup_id@,
            equity_percent: self.equity_percent,
            total_raise: self.total_raise,
            fraction_price: self.fraction_price,
            spv_canister: self.spv_canister,
            spv_token_canister: self.spv_token_canister,
            payment_gateway_canister: self.payment_gateway_canister,
        }
    }
}

impl Clone for DealTerms {
    fn clone(&self) -> (r: Self)
        ensures
            r == *self,
    {
        DealTerms {
            startup_id: self.startup_id.clone(),
            equity_percent: self.equity_percent,
            total_raise: self.total_raise,
            fraction_price: self.fraction_price,
            spv_canister: self.spv_canister,
            spv_token_canister: self.spv_token_canister,
            payment_gateway_canister: self.payment_gateway_canister,
        }
    }
}

#[derive(Clone, Copy, Debug, PartialEq, Eq, Structural)]
pub enum ControllerError {
    DealNotFound,
    /// The deal was created before a payment gateway was named.
    GatewayNotConfigured,
    /// The amount buys no whole fraction.
    AmountTooSmall,
}

impl ControllerError {
    /// The error in words.
    pub open spec fn text(self) -> Seq<char> {
        match self {
            ControllerError::DealNotFound => "Deal not found"@,
            ControllerError::GatewayNotConfigured => "Payment gateway not configured"@,
            ControllerError::AmountTooSmall => "Investment amount too small"@,
        }
    }

    /// The error in words.
    pub fn message(&self) -> (r: String)
        ensures
            r@ == self.text(),
    {
        match self {
            ControllerError::DealNotFound => "Deal not found".to_owned(),
            ControllerError::GatewayNotConfigured => "Payment gateway not configured".to_owned(),
            ControllerError::AmountTooSmall => "Investment amount too small".to_owned(),
        }
    }
}

/// What is added to a deal id to give the id of an investment's payment.
pub const PAYMENT_ID_BASE: u64 = 1000;

/// The deals of a list with their ids, each as its view.
pub open spec fn deal_views(s: Seq<(u64, DealTerms)>) -> Seq<(u64, DealTermsView)> {
    s.map_values(|d: (u64, DealTerms)| (d.0, d.1@))
}

/// The state of the controller as a map.
pub struct ControllerView {
    pub deals: Map<u64, DealTermsView>,
    pub deal_counter: u64,
    pub payment_gateway: Option<Principal>,
}

impl ControllerView {
    /// Every deal has an id that the counter handed out.
    pub open spec fn wf(self) -> bool {
        forall|k: u64| #[trigger] self.deals.contains_key(k) ==> 1 <= k <= self.deal_counter
    }

    /// The deals with their ids, by ascending id.
    pub open spec fn listing(self) -> Seq<(u64, DealTermsView)> {
        by_key(Map::new(|k: u64| self.deals.contains_key(k), |k: u64| (k, self.deals[k])))
    }
}

pub struct Controller {
    deals: HashMap<u64, DealTerms>,
    deal_counter: u64,
    payment_gateway: Option<Principal>,
}

impl View for Controller {
    type V = ControllerView;

    closed spec fn view(&self) -> ControllerView {
        ControllerView {
            deals: self.deals@.map_values(|d: DealTerms| d@),
            deal_counter: self.deal_counter,
            payment_gateway: self.payment_gateway,
        }
    }
}

impl Controller {
    pub open spec fn wf(&self) -> bool {
        self@.wf()
    }

    /// The controller before any deal.
    pub fn init() -> (s: Self)
        ensures
            s.wf(),
            s@ == (ControllerView { deals: Map::empty(), deal_counter: 0, payment_gateway: None }),
    {
        let s = Controller { deals: HashMap::new(), deal_counter: 0, payment_gateway: None };
        assert(s@.deals =~= Map::<u64, DealTermsView>::empty());
        s
    }

    /// Names the payment gateway that deals created from now on will use.
    pub fn set_payment_gateway(&mut self, payment_gateway: Principal)
        requires
            old(self).wf(),
        ensures
            final(self).wf(),
            final(self)@ == (ControllerView {
                payment_gateway: Some(payment_gateway),
                ..old(self)@
            }),
    {
        self.payment_gateway = Some(payment_gateway);
    }

    /// The id that was handed out last; zero before the first.
    pub fn last_deal_id(&self) -> (n: u64)
        ensures
            n == self@.deal_counter,
    {
        self.deal_counter
    }

    /// Creates a deal and returns its id. The deal takes the payment
    /// gateway that is named at this moment; its SPV services are named
    /// later.
    pub fn create_spv(
        &mut self,
        startup_id: String,
        equity_percent: u8,
        total_raise: u64,
        fraction_price: u64,
    ) -> (deal_id: u64)
        requires
            old(self).wf(),
            old(self)@.deal_counter < u64::MAX,
        ensures
            final(self).wf(),
            deal_id == old(self)@.deal_counter + 1,
            final(self)@ == (ControllerView {
                deal_counter: deal_id,
                deals: old(self)@.deals.insert(
                    deal_id,
                    DealTermsView {
                        startup_id: startup_id@,
                        equity_percent,
                        total_raise,
                        fraction_price,
                        spv_canister: None,
                        spv_token_canister: None,
                        payment_gateway_canister: old(self)@.payment_gateway,
                    },
                ),
                ..old(self)@
            }),
    {
        broadcast use group_hash_axioms;

        let deal_id = self.deal_counter + 1;
        let terms = DealTerms {
            startup_id,
            equity_percent,
            total_raise,
            fraction_price,
            spv_canister: None,
            spv_token_canister: None,
            payment_gateway_canister: self.payment_gateway,
        };
        let ghost stored = terms@;
        self.deals.insert(deal_id, terms);
        self.deal_counter = deal_id;
        assert(self@.deals =~= old(self)@.deals.insert(deal_id, stored));
        deal_id
    }

    /// Names the SPV and certificate services of a deal.
    pub fn set_spv_canisters(
        &mut self,
        deal_id: u64,
        spv_canister: Principal,
        spv_token_canister: Principal,
    ) -> (r: Result<(), ControllerError>)
        requires
            old(self).wf(),
        ensures
            final(self).wf(),
            !old(self)@.deals.contains_key(deal_id) ==> r == Err::<(), ControllerError>(
                ControllerError::DealNotFound,
            ) && final(self)@ == old(self)@,
            old(self)@.deals.contains_key(deal_id) ==> r is Ok && final(self)@ == (ControllerView {
                deals: old(self)@.deals.insert(
                    deal_id,
                    DealTermsView {
                        spv_canister: Some(spv_canister),
                        spv_token_canister: Some(spv_token_canister),
                        ..old(self)@.deals[deal_id]
                    },
                ),
                ..old(self)@
            }),
    {
        broadcast use group_hash_axioms;

        let mut deal = match self.deals.get(&deal_id) {
            Some(d) => d.clone(),
            None => {
                return Err(ControllerError::DealNotFound);
            },
        };
        assert(old(self)@.deals.contains_key(deal_id));
        deal.spv_canister = Some(spv_canister);
        deal.spv_token_canister = Some(spv_token_canister);
        let ghost stored = deal@;
        self.deals.insert(deal_id, deal);
        assert(self@.deals =~= old(self)@.deals.insert(deal_id, stored));
        Ok(())
    }

    /// Whether an investment into deal `deal_id` can be worked out: the
    /// deal's fraction price is not zero and the payment id fits. True for a
    /// deal that is missing or has no gateway, since nothing is worked out
    /// then.
    pub fn investment_computable(&self, deal_id: u64) -> (r: bool)
        ensures
            r == (self@.deals.contains_key(deal_id)
                && self@.deals[deal_id].payment_gateway_canister is Some
                ==> self@.deals[deal_id].fraction_price > 0 && deal_id <= u64::MAX
                - PAYMENT_ID_BASE),
    {
        broadcast use group_hash_axioms;

        match self.deals.get(&deal_id) {
            Some(d) => d.payment_gateway_canister.is_none() || (d.fraction_price > 0 && deal_id
                <= u64::MAX - PAYMENT_ID_BASE),
            None => true,
        }
    }

    /// Starts an investment of `amount` into a deal and returns the id of
    /// its payment, which is the deal id plus [`PAYMENT_ID_BASE`]. The
    /// amount must buy at least one fraction.
    pub fn invest_in_spv(
        &self,
        deal_id: u64,
        investor: Principal,
        amount: u64,
        payment_method_id: u64,
    ) -> (r: Result<u64, ControllerError>)
        requires
            self@.deals.contains_key(deal_id)
                && self@.deals[deal_id].payment_gateway_canister is Some
                ==> self@.deals[deal_id].fraction_price > 0 && deal_id <= u64::MAX
                - PAYMENT_ID_BASE,
        ensures
            !self@.deals.contains_key(deal_id) ==> r == Err::<u64, ControllerError>(
                ControllerError::DealNotFound,
            ),
            self@.deals.contains_key(deal_id)
                && self@.deals[deal_id].payment_gateway_canister is None ==> r == Err::<
                u64,
                ControllerError,
            >(ControllerError::GatewayNotConfigured),
            self@.deals.contains_key(deal_id)
                && self@.deals[deal_id].payment_gateway_canister is Some && amount
                < self@.deals[deal_id].fraction_price ==> r == Err::<u64, ControllerError>(
                ControllerError::AmountTooSmall,
            ),
            self@.deals.contains_key(deal_id)
                && self@.deals[deal_id].payment_gateway_canister is Some && amount
                >= self@.deals[deal_id].fraction_price ==> r == Ok::<u64, ControllerError>(
                (PAYMENT_ID_BASE + deal_id) as u64,
            ),
    {
        broadcast use group_hash_axioms;

        let deal = match self.deals.get(&deal_id) {
            Some(d) => d,
            None => {
                return Err(ControllerError::DealNotFound);
            },
        };
        if deal.payment_gateway_canister.is_none() {
            return Err(ControllerError::GatewayNotConfigured);
        }
        let fractions = amount / deal.fraction_price;
        if fractions == 0 {
            assert(amount < deal.fraction_price) by (nonlinear_arith)
                requires
                    amount / deal.fraction_price == 0,
                    deal.fraction_price > 0,
            ;
            return Err(ControllerError::AmountTooSmall);
        }
        assert(amount >= deal.fraction_price) by (nonlinear_arith)
            requires
                amount / deal.fraction_price != 0,
                deal.fraction_price > 0,
                amount >= 0,
        ;
        Ok(PAYMENT_ID_BASE + deal_id)
    }

    /// Closes an investment into a deal. The deal must exist; nothing else
    /// is looked at.
    pub fn complete_investment(&self, deal_id: u64, payment_id: u64) -> (r: Result<
        (),
        ControllerError,
    >)
        ensures
            r == if self@.deals.contains_key(deal_id) {
                Ok::<(), ControllerError>(())
            } else {
                Err::<(), ControllerError>(ControllerError::DealNotFound)
            },
    {
        broadcast use group_hash_axioms;

        match self.deals.get(&deal_id) {
            Some(_) => Ok(()),
            None => Err(ControllerError::DealNotFound),
        }
    }

    /// All deals with their ids, by ascending id.
    pub fn list_deals(&self) -> (r: Vec<(u64, DealTerms)>)
        requires
            self.wf(),
        ensures
            deal_views(r@) == self@.listing(),
    {
        let ghost rows = Map::new(
            |k: u64| self@.deals.contains_key(k),
            |k: u64| (k, self@.deals[k]),
        );
        let mut out: Vec<(u64, DealTerms)> = Vec::new();
        let mut k: u64 = 0;
        assert(deal_views(out@) =~= values_below(rows, 0));
        while k < self.deal_counter
            invariant
                k <= self.deal_counter,
                rows == Map::new(
                    |k: u64| self@.deals.contains_key(k),
                    |k: u64| (k, self@.deals[k]),
                ),
                deal_views(out@) == values_below(rows, k as nat),
            decreases self.deal_counter - k,
        {
            self.visit_deal(k, &mut out);
            k += 1;
        }
        self.visit_deal(k, &mut out);
        proof {
            lemma_values_below_gap(rows, k as nat + 1, u64::MAX as nat + 1);
        }
        out
    }

    /// Appends the deal stored under `k` to `out` where there is one.
    fn visit_deal(&self, k: u64, out: &mut Vec<(u64, DealTerms)>)
        requires
            deal_views(old(out)@) == values_below(
                Map::new(|k: u64| self@.deals.contains_key(k), |k: u64| (k, self@.deals[k])),
                k as nat,
            ),
        ensures
            deal_views(final(out)@) == values_below(
                Map::new(|k: u64| self@.deals.contains_key(k), |k: u64| (k, self@.deals[k])),
                k as nat + 1,
            ),
    {
        broadcast use group_hash_axioms;

        let ghost rows = Map::new(
            |k: u64| self@.deals.contains_key(k),
            |k: u64| (k, self@.deals[k]),
        );
        proof {
            lemma_values_below_step(rows, k);
        }
        match self.deals.get(&k) {
            Some(d) => {
                let ghost before = out@;
                out.push((k, d.clone()));
                assert(deal_views(out@) =~= deal_views(before).push((k, d@)));
            },
            None => {},
        }
    }
}

} // verus!
