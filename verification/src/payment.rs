//! The payment gateway: masked payment methods of users, and the
//! verification of payments made with them.

use crate::account::{
    account_ok, all_digits, last_chars, luhn_valid, mask_account_identifier, masked,
    validate_account_identifier,
};
use crate::table::{by_key, lemma_values_below_gap, lemma_values_below_step, values_below};
use crate::text::{blank, is_blank, lowercase, trimmed};
use candid::Principal;
use std::collections::HashMap;
use vstd::prelude::*;
use vstd::std_specs::hash::group_hash_axioms;

verus! {

/// A payment method as it is kept: the account appears in masked form only.
#[derive(Debug)]
pub struct PaymentMethodDetail {
    pub id: u64,
    pub owner: Principal,
    pub method_type: String,
    pub provider: String,
    pub masked_account: String,
    pub currency: String,
    pub is_active: bool,
    pub created_at_ns: u64,
}

pub struct PaymentMethodDetailView {
    pub id: u64,
    pub owner: Principal,
    pub method_type: Seq<char>,
    pub provider: Seq<char>,
    pub masked_account: Seq<char>,
    pub currency: Seq<char>,
    pub is_active: bool,
    pub created_at_ns: u64,
}

impl View for PaymentMethodDetail {
    type V = PaymentMethodDetailView;

    open spec fn view(&self) -> PaymentMethodDetailView {
        PaymentMethodDetailView {
            id: self.id,
            owner: self.owner,
            method_type: self.method_type@,
            provider: self.provider@,
            masked_account: self.masked_account@,
            currency: self.currency@,
            is_active: self.is_active,
            created_at_ns: self.created_at_ns,
        }
    }
}

impl Clone for PaymentMethodDetail {
    fn clone(&self) -> (r: Self)
        ensures
            r == *self,
    {
        PaymentMethodDetail {
            id: self.id,
            owner: self.owner,
            method_type: self.method_type.clone(),
            provider: self.provider.clone(),
            masked_account: self.masked_account.clone(),
            currency: self.currency.clone(),
            is_active: self.is_active,
            created_at_ns: self.created_at_ns,
        }
    }
}

#[derive(Clone, Copy, Debug, PartialEq, Eq, Structural)]
pub enum PaymentStatus {
    Pending,
    Verified,
    Failed,
    Refunded,
}

#[derive(Clone, Copy, Debug)]
pub struct PaymentVerification {
    pub payment_id: u64,
    pub investor: Principal,
    pub spv_id: u64,
    pub deal_id: u64,
    pub amount: u64,
    pub payment_method_id: u64,
    pub status: PaymentStatus,
    pub created_at_ns: u64,
    pub verified_at_ns: Option<u64>,
}

#[derive(Clone, Copy, Debug, PartialEq, Eq, Structural)]
pub enum PaymentError {
    /// The method type, the provider or the currency is blank.
    MissingFields,
    /// The account identifier is not acceptable for the method type.
    InvalidAccount,
    MethodNotFound,
    /// The payment method belongs to someone else.
    NotOwner,
    /// The payment method belongs to someone else or is inactive.
    InvalidMethod,
    VerificationNotFound,
    /// The payment is no longer pending.
    AlreadyProcessed,
}

impl PaymentError {
    /// The error in words.
    pub open spec fn text(self) -> Seq<char> {
        match self {
            PaymentError::MissingFields => "method_type, provider and currency are required"@,
            PaymentError::InvalidAccount => "account_identifier validation failed"@,
            PaymentError::MethodNotFound => "Payment method not found"@,
            PaymentError::NotOwner => "You are not the owner of this payment method"@,
            PaymentError::InvalidMethod => "Invalid or inactive payment method"@,
            PaymentError::VerificationNotFound => "Payment verification not found"@,
            PaymentError::AlreadyProcessed => "Payment already processed"@,
        }
    }

    /// The error in words.
    pub fn message(&self) -> (r: String)
        ensures
            r@ == self.text(),
    {
        match self {
            PaymentError::MissingFields => "method_type, provider and currency are required".to_owned(),
            PaymentError::InvalidAccount => "account_identifier validation failed".to_owned(),
            PaymentError::MethodNotFound => "Payment method not found".to_owned(),
            PaymentError::NotOwner => "You are not the owner of this payment method".to_owned(),
            PaymentError::InvalidMethod => "Invalid or inactive payment method".to_owned(),
            PaymentError::VerificationNotFound => "Payment verification not found".to_owned(),
            PaymentError::AlreadyProcessed => "Payment already processed".to_owned(),
        }
    }
}

/// What one fraction of an SPV costs.
pub const FRACTION_PRICE: u64 = 1000;

/// The payment methods of a list, each as its view.
pub open spec fn method_views(s: Seq<PaymentMethodDetail>) -> Seq<PaymentMethodDetailView> {
    s.map_values(|m: PaymentMethodDetail| m@)
}

/// Why a registration with these inputs is refused, if it is: a blank
/// method type, provider or currency comes first, then an account
/// identifier that is not acceptable for the method type.
pub open spec fn registration_refusal(
    method_type: Seq<char>,
    provider: Seq<char>,
    account_identifier: Seq<char>,
    currency: Seq<char>,
) -> Option<PaymentError> {
    if is_blank(method_type) || is_blank(provider) || is_blank(currency) {
        Some(PaymentError::MissingFields)
    } else if !account_ok(lowercase(method_type), account_identifier) {
        Some(PaymentError::InvalidAccount)
    } else {
        None
    }
}

/// The state of the gateway as maps.
pub struct PaymentGatewayView {
    pub methods: Map<u64, PaymentMethodDetailView>,
    pub verifications: Map<u64, PaymentVerification>,
    pub id_counter: u64,
    pub spv_token_canister: Option<Principal>,
}

impl PaymentGatewayView {
    /// Methods and verifications are stored under their own ids, which the
    /// one counter handed out.
    pub open spec fn wf(self) -> bool {
        &&& forall|k: u64| #[trigger]
            self.methods.contains_key(k) ==> 1 <= k <= self.id_counter && self.methods[k].id == k
        &&& forall|k: u64| #[trigger]
            self.verifications.contains_key(k) ==> 1 <= k <= self.id_counter
                && self.verifications[k].payment_id == k
    }

    /// The state after `caller` registered a payment method at `now`: the
    /// method gets the next id, is active, and shows its account in masked
    /// form only.
    pub open spec fn with_method(
        self,
        caller: Principal,
        method_type: Seq<char>,
        provider: Seq<char>,
        account_identifier: Seq<char>,
        currency: Seq<char>,
        now: u64,
    ) -> PaymentGatewayView {
        let id = (self.id_counter + 1) as u64;
        PaymentGatewayView {
            id_counter: id,
            methods: self.methods.insert(
                id,
                PaymentMethodDetailView {
                    id,
                    owner: caller,
                    method_type,
                    provider,
                    masked_account: masked(lowercase(method_type), account_identifier),
                    currency,
                    is_active: true,
                    created_at_ns: now,
                },
            ),
            ..self
        }
    }

    /// Whether `caller` may pay with method `id`: it exists, is the caller's
    /// and is active.
    pub open spec fn usable_by(self, id: u64, caller: Principal) -> bool {
        self.methods.contains_key(id) && self.methods[id].owner == caller
            && self.methods[id].is_active
    }
}

pub struct PaymentGateway {
    methods: HashMap<u64, PaymentMethodDetail>,
    verifications: HashMap<u64, PaymentVerification>,
    id_counter: u64,
    spv_token_canister: Option<Principal>,
}

impl View for PaymentGateway {
    type V = PaymentGatewayView;

    closed spec fn view(&self) -> PaymentGatewayView {
        PaymentGatewayView {
            methods: self.methods@.map_values(|m: PaymentMethodDetail| m@),
            verifications: self.verifications@,
            id_counter: self.id_counter,
            spv_token_canister: self.spv_token_canister,
        }
    }
}

impl PaymentGateway {
    pub open spec fn wf(&self) -> bool {
        self@.wf()
    }

    pub fn new() -> (s: Self)
        ensures
            s.wf(),
            s@ == (PaymentGatewayView {
                methods: Map::empty(),
                verifications: Map::empty(),
                id_counter: 0,
                spv_token_canister: None,
            }),
    {
        let s = PaymentGateway {
            methods: HashMap::new(),
            verifications: HashMap::new(),
            id_counter: 0,
            spv_token_canister: None,
        };
        assert(s@.methods =~= Map::<u64, PaymentMethodDetailView>::empty());
        s
    }

    /// The id that was handed out last; zero before the first.
    pub fn last_id(&self) -> (n: u64)
        ensures
            n == self@.id_counter,
    {
        self.id_counter
    }

    /// Hands out the next id. Payment methods and payments share the
    /// counter.
    pub fn next_payment_method_id(&mut self) -> (id: u64)
        requires
            old(self).wf(),
            old(self)@.id_counter < u64::MAX,
        ensures
            final(self).wf(),
            id == old(self)@.id_counter + 1,
            final(self)@ == (PaymentGatewayView { id_counter: id, ..old(self)@ }),
    {
        self.id_counter = self.id_counter + 1;
        self.id_counter
    }

    /// Registers a payment method for the caller and returns its id. Only
    /// the masked form of the account identifier is kept. A registration
    /// that is refused uses no id.
    pub fn register_payment_method(
        &mut self,
        caller: Principal,
        method_type: String,
        provider: String,
        account_identifier: String,
        currency: String,
        now: u64,
    ) -> (r: Result<u64, PaymentError>)
        requires
            old(self).wf(),
            registration_refusal(method_type@, provider@, account_identifier@, currency@) is None
                ==> old(self)@.id_counter < u64::MAX,
        ensures
            final(self).wf(),
            match registration_refusal(method_type@, provider@, account_identifier@, currency@) {
                Some(e) => r == Err::<u64, PaymentError>(e) && final(self)@ == old(self)@,
                None => r == Ok::<u64, PaymentError>((old(self)@.id_counter + 1) as u64)
                    && final(self)@ == old(self)@.with_method(
                    caller,
                    method_type@,
                    provider@,
                    account_identifier@,
                    currency@,
                    now,
                ),
            },
    {
        broadcast use group_hash_axioms;

        if blank(method_type.as_str()) || blank(provider.as_str()) || blank(currency.as_str()) {
            return Err(PaymentError::MissingFields);
        }
        if !validate_account_identifier(method_type.as_str(), account_identifier.as_str()) {
            return Err(PaymentError::InvalidAccount);
        }
        let masked_account = mask_account_identifier(
            method_type.as_str(),
            account_identifier.as_str(),
        );
        let id = self.next_payment_method_id();
        let detail = PaymentMethodDetail {
            id,
            owner: caller,
            method_type,
            provider,
            masked_account,
            currency,
            is_active: true,
            created_at_ns: now,
        };
        let ghost stored = detail@;
        self.methods.insert(id, detail);
        assert(self@.methods =~= old(self)@.methods.insert(id, stored));
        Ok(id)
    }

    /// Registers a payment method as [`Self::register_payment_method`]
    /// does, unless the registration would be accepted and the ids are used
    /// up: then nothing is done and nothing is returned.
    pub fn try_register_payment_method(
        &mut self,
        caller: Principal,
        method_type: String,
        provider: String,
        account_identifier: String,
        currency: String,
        now: u64,
    ) -> (r: Option<Result<u64, PaymentError>>)
        requires
            old(self).wf(),
        ensures
            final(self).wf(),
            r is None <==> registration_refusal(
                method_type@,
                provider@,
                account_identifier@,
                currency@,
            ) is None && old(self)@.id_counter == u64::MAX,
            r is None ==> final(self)@ == old(self)@,
            r is Some ==> match registration_refusal(
                method_type@,
                provider@,
                account_identifier@,
                currency@,
            ) {
                Some(e) => r->Some_0 == Err::<u64, PaymentError>(e) && final(self)@ == old(self)@,
                None => r->Some_0 == Ok::<u64, PaymentError>((old(self)@.id_counter + 1) as u64)
                    && final(self)@ == old(self)@.with_method(
                    caller,
                    method_type@,
                    provider@,
                    account_identifier@,
                    currency@,
                    now,
                ),
            },
    {
        if self.id_counter == u64::MAX && !(blank(method_type.as_str()) || blank(
            provider.as_str(),
        ) || blank(currency.as_str())) && validate_account_identifier(
            method_type.as_str(),
            account_identifier.as_str(),
        ) {
            return None;
        }
        Some(
            self.register_payment_method(
                caller,
                method_type,
                provider,
                account_identifier,
                currency,
                now,
            ),
        )
    }

    /// Whether `caller` may pay with method `id`: it exists, is the
    /// caller's and is active.
    pub fn can_pay_with(&self, id: u64, caller: Principal) -> (r: bool)
        ensures
            r == self@.usable_by(id, caller),
    {
        broadcast use group_hash_axioms;

        match self.methods.get(&id) {
            Some(m) => m.owner == caller && m.is_active,
            None => false,
        }
    }

    /// The active payment methods of `p`, or of the caller where no
    /// principal is given, by ascending id.
    pub fn get_user_payment_methods(&self, p: Option<Principal>, caller: Principal) -> (r: Vec<
        PaymentMethodDetail,
    >)
        requires
            self.wf(),
        ensures
            method_views(r@) == by_key(self@.methods).filter(
                |m: PaymentMethodDetailView|
                    m.is_active && m.owner == if p is Some {
                        p->Some_0
                    } else {
                        caller
                    },
            ),
    {
        let who = match p {
            Some(x) => x,
            None => caller,
        };
        let ghost pred = |m: PaymentMethodDetailView|
            m.is_active && m.owner == if p is Some {
                p->Some_0
            } else {
                caller
            };
        let mut out: Vec<PaymentMethodDetail> = Vec::new();
        let mut k: u64 = 0;
        assert(method_views(out@) =~= values_below(self@.methods, 0).filter(pred));
        while k < self.id_counter
            invariant
                k <= self.id_counter,
                who == if p is Some {
                    p->Some_0
                } else {
                    caller
                },
                pred == |m: PaymentMethodDetailView|
                    m.is_active && m.owner == if p is Some {
                        p->Some_0
                    } else {
                        caller
                    },
                method_views(out@) == values_below(self@.methods, k as nat).filter(pred),
            decreases self.id_counter - k,
        {
            self.visit_method(k, who, Ghost(pred), &mut out);
            k += 1;
        }
        self.visit_method(k, who, Ghost(pred), &mut out);
        proof {
            lemma_values_below_gap(self@.methods, k as nat + 1, u64::MAX as nat + 1);
        }
        out
    }

    /// Appends the method stored under `k` to `out` where there is one that
    /// is active and belongs to `who`.
    fn visit_method(
        &self,
        k: u64,
        who: Principal,
        Ghost(pred): Ghost<spec_fn(PaymentMethodDetailView) -> bool>,
        out: &mut Vec<PaymentMethodDetail>,
    )
        requires
            forall|m: PaymentMethodDetailView| #[trigger] pred(m) == (m.is_active && m.owner == who),
            method_views(old(out)@) == values_below(self@.methods, k as nat).filter(pred),
        ensures
            method_views(final(out)@) == values_below(self@.methods, k as nat + 1).filter(pred),
    {
        broadcast use group_hash_axioms;

        let ghost seen = values_below(self@.methods, k as nat);
        proof {
            lemma_values_below_step(self@.methods, k);
        }
        match self.methods.get(&k) {
            Some(m) => {
                proof {
                    seen.lemma_filter_push(m@, pred);
                }
                if m.is_active && m.owner == who {
                    let ghost before = out@;
                    out.push(m.clone());
                    assert(method_views(out@) =~= method_views(before).push(m@));
                }
            },
            None => {},
        }
    }

    /// Switches a payment method off. Only its owner may do so.
    pub fn deactivate_payment_method(&mut self, caller: Principal, id: u64) -> (r: Result<
        (),
        PaymentError,
    >)
        requires
            old(self).wf(),
        ensures
            final(self).wf(),
            r is Err ==> final(self)@ == old(self)@,
            !old(self)@.methods.contains_key(id) ==> r == Err::<(), PaymentError>(
                PaymentError::MethodNotFound,
            ),
            old(self)@.methods.contains_key(id) && old(self)@.methods[id].owner != caller ==> r
                == Err::<(), PaymentError>(PaymentError::NotOwner),
            old(self)@.methods.contains_key(id) && old(self)@.methods[id].owner == caller ==> r
                is Ok && final(self)@ == (PaymentGatewayView {
                methods: old(self)@.methods.insert(
                    id,
                    PaymentMethodDetailView { is_active: false, ..old(self)@.methods[id] },
                ),
                ..old(self)@
            }),
    {
        broadcast use group_hash_axioms;

        let mut detail = match self.methods.get(&id) {
            Some(d) => d.clone(),
            None => {
                return Err(PaymentError::MethodNotFound);
            },
        };
        assert(old(self)@.methods.contains_key(id));
        if detail.owner != caller {
            return Err(PaymentError::NotOwner);
        }
        detail.is_active = false;
        let ghost stored = detail@;
        self.methods.insert(id, detail);
        assert(self@.methods =~= old(self)@.methods.insert(id, stored));
        Ok(())
    }

    pub fn get_payment_method(&self, id: u64) -> (r: Option<PaymentMethodDetail>)
        ensures
            r is Some == self@.methods.contains_key(id),
            r is Some ==> r->Some_0@ == self@.methods[id],
    {
        broadcast use group_hash_axioms;

        match self.methods.get(&id) {
            Some(d) => Some(d.clone()),
            None => None,
        }
    }

    /// Names the certificate service. Only the gateway itself may do so.
    pub fn set_spv_token_canister(
        &mut self,
        caller: Principal,
        own_id: Principal,
        spv_token_canister: Principal,
    )
        requires
            old(self).wf(),
            caller == own_id,
        ensures
            final(self).wf(),
            final(self)@ == (PaymentGatewayView {
                spv_token_canister: Some(spv_token_canister),
                ..old(self)@
            }),
    {
        self.spv_token_canister = Some(spv_token_canister);
    }

    /// Opens a payment of `amount` into deal `deal_id` of SPV `spv_id`, made
    /// with one of the caller's active payment methods, and returns the
    /// payment's id. The payment starts out pending.
    pub fn initiate_payment(
        &mut self,
        caller: Principal,
        spv_id: u64,
        deal_id: u64,
        amount: u64,
        payment_method_id: u64,
        now: u64,
    ) -> (r: Result<u64, PaymentError>)
        requires
            old(self).wf(),
            old(self)@.usable_by(payment_method_id, caller) ==> old(self)@.id_counter < u64::MAX,
        ensures
            final(self).wf(),
            r is Err ==> final(self)@ == old(self)@,
            !old(self)@.methods.contains_key(payment_method_id) ==> r == Err::<u64, PaymentError>(
                PaymentError::MethodNotFound,
            ),
            old(self)@.methods.contains_key(payment_method_id) && !old(self)@.usable_by(
                payment_method_id,
                caller,
            ) ==> r == Err::<u64, PaymentError>(PaymentError::InvalidMethod),
            old(self)@.usable_by(payment_method_id, caller) ==> r == Ok::<u64, PaymentError>(
                (old(self)@.id_counter + 1) as u64,
            ) && final(self)@ == (PaymentGatewayView {
                id_counter: (old(self)@.id_counter + 1) as u64,
                verifications: old(self)@.verifications.insert(
                    (old(self)@.id_counter + 1) as u64,
                    PaymentVerification {
                        payment_id: (old(self)@.id_counter + 1) as u64,
                        investor: caller,
                        spv_id,
                        deal_id,
                        amount,
                        payment_method_id,
                        status: PaymentStatus::Pending,
                        created_at_ns: now,
                        verified_at_ns: None,
                    },
                ),
                ..old(self)@
            }),
    {
        broadcast use group_hash_axioms;

        match self.methods.get(&payment_method_id) {
            Some(method) => {
                if method.owner != caller || !method.is_active {
                    return Err(PaymentError::InvalidMethod);
                }
            },
            None => {
                return Err(PaymentError::MethodNotFound);
            },
        }
        let payment_id = self.next_payment_method_id();
        let verification = PaymentVerification {
            payment_id,
            investor: caller,
            spv_id,
            deal_id,
            amount,
            payment_method_id,
            status: PaymentStatus::Pending,
            created_at_ns: now,
            verified_at_ns: None,
        };
        self.verifications.insert(payment_id, verification);
        Ok(payment_id)
    }

    /// Marks a pending payment as verified and returns the number of
    /// fractions that its amount buys at [`FRACTION_PRICE`]. A payment that
    /// is not pending is not verified again.
    pub fn verify_payment(&mut self, payment_id: u64, now: u64) -> (r: Result<u64, PaymentError>)
        requires
            old(self).wf(),
        ensures
            final(self).wf(),
            r is Err ==> final(self)@ == old(self)@,
            !old(self)@.verifications.contains_key(payment_id) ==> r == Err::<u64, PaymentError>(
                PaymentError::VerificationNotFound,
            ),
            old(self)@.verifications.contains_key(payment_id) && old(
                self,
            )@.verifications[payment_id].status != PaymentStatus::Pending ==> r == Err::<
                u64,
                PaymentError,
            >(PaymentError::AlreadyProcessed),
            old(self)@.verifications.contains_key(payment_id) && old(
                self,
            )@.verifications[payment_id].status == PaymentStatus::Pending ==> r == Ok::<
                u64,
                PaymentError,
            >(old(self)@.verifications[payment_id].amount / FRACTION_PRICE) && final(self)@
                == (PaymentGatewayView {
                verifications: old(self)@.verifications.insert(
                    payment_id,
                    PaymentVerification {
                        status: PaymentStatus::Verified,
                        verified_at_ns: Some(now),
                        ..old(self)@.verifications[payment_id]
                    },
                ),
                ..old(self)@
            }),
    {
        broadcast use group_hash_axioms;

        let mut verification = match self.verifications.get(&payment_id) {
            Some(v) => *v,
            None => {
                return Err(PaymentError::VerificationNotFound);
            },
        };
        if verification.status != PaymentStatus::Pending {
            return Err(PaymentError::AlreadyProcessed);
        }
        verification.status = PaymentStatus::Verified;
        verification.verified_at_ns = Some(now);
        self.verifications.insert(payment_id, verification);
        Ok(verification.amount / FRACTION_PRICE)
    }

    pub fn get_payment_verification(&self, payment_id: u64) -> (r: Option<PaymentVerification>)
        ensures
            r == if self@.verifications.contains_key(payment_id) {
                Some(self@.verifications[payment_id])
            } else {
                None
            },
    {
        broadcast use group_hash_axioms;

        match self.verifications.get(&payment_id) {
            Some(v) => Some(*v),
            None => None,
        }
    }

    /// The payments of `investor`, by ascending id.
    pub fn get_investor_payments(&self, investor: Principal) -> (r: Vec<PaymentVerification>)
        requires
            self.wf(),
        ensures
            r@ == by_key(self@.verifications).filter(
                |v: PaymentVerification| v.investor == investor,
            ),
    {
        let ghost pred = |v: PaymentVerification| v.investor == investor;
        let mut out: Vec<PaymentVerification> = Vec::new();
        let mut k: u64 = 0;
        assert(out@ =~= values_below(self@.verifications, 0).filter(pred));
        while k < self.id_counter
            invariant
                k <= self.id_counter,
                pred == |v: PaymentVerification| v.investor == investor,
                out@ == values_below(self@.verifications, k as nat).filter(pred),
            decreases self.id_counter - k,
        {
            self.visit_verification(k, investor, Ghost(pred), &mut out);
            k += 1;
        }
        self.visit_verification(k, investor, Ghost(pred), &mut out);
        proof {
            lemma_values_below_gap(self@.verifications, k as nat + 1, u64::MAX as nat + 1);
        }
        out
    }

    /// Appends the payment stored under `k` to `out` where there is one of
    /// `investor`.
    fn visit_verification(
        &self,
        k: u64,
        investor: Principal,
        Ghost(pred): Ghost<spec_fn(PaymentVerification) -> bool>,
        out: &mut Vec<PaymentVerification>,
    )
        requires
            forall|v: PaymentVerification| #[trigger] pred(v) == (v.investor == investor),
            old(out)@ == values_below(self@.verifications, k as nat).filter(pred),
        ensures
            final(out)@ == values_below(self@.verifications, k as nat + 1).filter(pred),
    {
        broadcast use group_hash_axioms;

        let ghost seen = values_below(self@.verifications, k as nat);
        proof {
            lemma_values_below_step(self@.verifications, k);
        }
        match self.verifications.get(&k) {
            Some(v) => {
                proof {
                    seen.lemma_filter_push(*v, pred);
                }
                if v.investor == investor {
                    out.push(*v);
                }
            },
            None => {},
        }
    }
}

/// Registering a card. A method whose type reads "card" in lower case,
/// with a provider and a currency, and with an identifier of 13 to 19 digits
/// that passes the Luhn check, is registered for the caller: it is active,
/// and of the identifier it shows twelve stars and the last four digits,
/// nothing else.
pub proof fn lemma_valid_card_is_registered(
    v: PaymentGatewayView,
    caller: Principal,
    method_type: Seq<char>,
    provider: Seq<char>,
    account_identifier: Seq<char>,
    currency: Seq<char>,
    now: u64,
)
    requires
        lowercase(method_type) == "card"@,
        !is_blank(method_type),
        !is_blank(provider),
        !is_blank(currency),
        all_digits(trimmed(account_identifier)),
        13 <= trimmed(account_identifier).len() <= 19,
        luhn_valid(trimmed(account_identifier)),
    ensures
        registration_refusal(method_type, provider, account_identifier, currency) is None,
        ({
            let w = v.with_method(caller, method_type, provider, account_identifier, currency, now);
            let id = (v.id_counter + 1) as u64;
            &&& w.methods.contains_key(id)
            &&& w.methods[id].owner == caller
            &&& w.methods[id].is_active
            &&& w.methods[id].masked_account == "************"@ + last_chars(
                trimmed(account_identifier),
                4,
            )
        }),
{
}

/// Refusing a card. A method whose type reads "card" in lower case and
/// whose identifier fails the Luhn check is refused, whatever else it
/// brings.
pub proof fn lemma_luhn_invalid_card_is_not_registered(
    method_type: Seq<char>,
    provider: Seq<char>,
    account_identifier: Seq<char>,
    currency: Seq<char>,
)
    requires
        lowercase(method_type) == "card"@,
        !luhn_valid(trimmed(account_identifier)),
    ensures
        registration_refusal(method_type, provider, account_identifier, currency) is Some,
{
}

} // verus!
