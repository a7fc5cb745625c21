//! Investment certificates: one per investor and deal, never transferable.

use crate::table::{by_key, lemma_values_below_gap, lemma_values_below_step, values_below};
use crate::text::{decimal, u64_to_string};
use candid::Principal;
use std::collections::HashMap;
use vstd::prelude::*;
use vstd::std_specs::hash::group_hash_axioms;
use vstd::string::StringExecFns;

verus! {

#[derive(Clone, Copy, Debug)]
pub struct InvestmentCertificate {
    pub token_id: u64,
    pub owner: Principal,
    pub spv_id: u64,
    pub deal_id: u64,
    pub investment_amount: u64,
    pub fractions: u64,
    pub created_at: u64,
    /// Always false.
    pub is_transferable: bool,
}

#[derive(Debug)]
pub struct CertificateMetadata {
    pub name: String,
    pub description: String,
    pub image_url: String,
    pub attributes: Vec<(String, String)>,
}

pub struct CertificateMetadataView {
    pub name: Seq<char>,
    pub description: Seq<char>,
    pub image_url: Seq<char>,
    pub attributes: Seq<(Seq<char>, Seq<char>)>,
}

impl View for CertificateMetadata {
    type V = CertificateMetadataView;

    open spec fn view(&self) -> CertificateMetadataView {
        CertificateMetadataView {
            name: self.name@,
            description: self.description@,
            image_url: self.image_url@,
            attributes: self.attributes@.map_values(|a: (String, String)| (a.0@, a.1@)),
        }
    }
}

/// The metadata that describes `cert`.
pub open spec fn metadata_of(cert: InvestmentCertificate) -> CertificateMetadataView {
    CertificateMetadataView {
        name: "Investment Certificate #"@ + decimal(cert.token_id as nat),
        description: "Investment certificate for SPV "@ + decimal(cert.spv_id as nat) + " - "@
            + decimal(cert.fractions as nat) + " fractions worth "@ + decimal(
            cert.investment_amount as nat,
        ) + " EGP"@,
        image_url: "https://example.com/certificate.png"@,
        attributes: seq![
            ("SPV ID"@, decimal(cert.spv_id as nat)),
            ("Deal ID"@, decimal(cert.deal_id as nat)),
            ("Investment Amount"@, decimal(cert.investment_amount as nat)),
            ("Fractions"@, decimal(cert.fractions as nat)),
            ("Non-Transferable"@, "true"@),
        ],
    }
}

/// Whether `cert` is the certificate of `owner` for deal `deal_id` of SPV
/// `spv_id`.
pub open spec fn is_for(cert: InvestmentCertificate, owner: Principal, spv_id: u64, deal_id: u64) -> bool {
    cert.owner == owner && cert.spv_id == spv_id && cert.deal_id == deal_id
}

/// The state of the certificate registry as a map.
pub struct RegistryView {
    pub certificates: Map<u64, InvestmentCertificate>,
    pub token_counter: u64,
    pub spv_canister: Option<Principal>,
}

impl RegistryView {
    /// Whether a certificate of `owner` for the deal exists.
    pub open spec fn minted(self, owner: Principal, spv_id: u64, deal_id: u64) -> bool {
        exists|k: u64| #[trigger]
            self.certificates.contains_key(k) && is_for(
                self.certificates[k],
                owner,
                spv_id,
                deal_id,
            )
    }

    /// Every certificate is stored under its own id, which the counter
    /// handed out; none is transferable; and no owner has two certificates
    /// for the same deal of the same SPV.
    pub open spec fn wf(self) -> bool {
        &&& forall|k: u64| #[trigger]
            self.certificates.contains_key(k) ==> 1 <= k <= self.token_counter
                && self.certificates[k].token_id == k && !self.certificates[k].is_transferable
        &&& forall|j: u64, k: u64|
            #![trigger self.certificates.contains_key(j), self.certificates.contains_key(k)]
            self.certificates.contains_key(j) && self.certificates.contains_key(k) && is_for(
                self.certificates[j],
                self.certificates[k].owner,
                self.certificates[k].spv_id,
                self.certificates[k].deal_id,
            ) ==> j == k
    }
}

pub struct CertificateRegistry {
    certificates: HashMap<u64, InvestmentCertificate>,
    token_counter: u64,
    spv_canister: Option<Principal>,
}

impl View for CertificateRegistry {
    type V = RegistryView;

    closed spec fn view(&self) -> RegistryView {
        RegistryView {
            certificates: self.certificates@,
            token_counter: self.token_counter,
            spv_canister: self.spv_canister,
        }
    }
}

impl CertificateRegistry {
    pub open spec fn wf(&self) -> bool {
        self@.wf()
    }

    /// The registry before any certificate.
    pub fn init() -> (s: Self)
        ensures
            s.wf(),
            s@ == (RegistryView {
                certificates: Map::empty(),
                token_counter: 0,
                spv_canister: None,
            }),
    {
        CertificateRegistry { certificates: HashMap::new(), token_counter: 0, spv_canister: None }
    }

    /// Names the SPV service.
    pub fn set_spv_canister(&mut self, spv_canister: Principal)
        requires
            old(self).wf(),
        ensures
            final(self).wf(),
            final(self)@ == (RegistryView { spv_canister: Some(spv_canister), ..old(self)@ }),
    {
        self.spv_canister = Some(spv_canister);
    }

    /// The id that was handed out last; zero before the first.
    pub fn last_token_id(&self) -> (n: u64)
        ensures
            n == self@.token_counter,
    {
        self.token_counter
    }

    /// The id of the certificate of `owner` for the deal, if there is one.
    fn find(&self, owner: Principal, spv_id: u64, deal_id: u64) -> (r: Option<u64>)
        requires
            self.wf(),
        ensures
            r is Some == self@.minted(owner, spv_id, deal_id),
            r is Some ==> self@.certificates.contains_key(r->Some_0) && is_for(
                self@.certificates[r->Some_0],
                owner,
                spv_id,
                deal_id,
            ),
    {
        broadcast use group_hash_axioms;

        let mut k: u64 = 0;
        while k < self.token_counter
            invariant
                self.wf(),
                k <= self.token_counter,
                forall|j: u64|
                    1 <= j <= k && #[trigger] self@.certificates.contains_key(j) ==> !is_for(
                        self@.certificates[j],
                        owner,
                        spv_id,
                        deal_id,
                    ),
            decreases self.token_counter - k,
        {
            k += 1;
            match self.certificates.get(&k) {
                Some(c) => {
                    if c.owner == owner && c.spv_id == spv_id && c.deal_id == deal_id {
                        assert(self@.certificates.contains_key(k) && is_for(
                            self@.certificates[k],
                            owner,
                            spv_id,
                            deal_id,
                        ));
                        return Some(k);
                    }
                },
                None => {},
            }
        }
        None
    }

    /// Whether `owner` has a certificate for deal `deal_id` of SPV `spv_id`.
    pub fn is_minted(&self, owner: Principal, spv_id: u64, deal_id: u64) -> (r: bool)
        requires
            self.wf(),
        ensures
            r == self@.minted(owner, spv_id, deal_id),
    {
        self.find(owner, spv_id, deal_id).is_some()
    }

    /// Mints the certificate of `to` for deal `deal_id` of SPV `spv_id` and
    /// returns its id. Where `to` already has a certificate for that deal,
    /// nothing is minted and the id of the existing certificate is
    /// returned, so that asking again is safe.
    pub fn mint_certificate(
        &mut self,
        to: Principal,
        spv_id: u64,
        deal_id: u64,
        investment_amount: u64,
        fractions: u64,
        now: u64,
    ) -> (r: Result<u64, String>)
        requires
            old(self).wf(),
            !old(self)@.minted(to, spv_id, deal_id) ==> old(self)@.token_counter < u64::MAX,
        ensures
            final(self).wf(),
            r is Ok,
            final(self)@.certificates.contains_key(r->Ok_0),
            is_for(final(self)@.certificates[r->Ok_0], to, spv_id, deal_id),
            old(self)@.minted(to, spv_id, deal_id) ==> final(self)@ == old(self)@,
            !old(self)@.minted(to, spv_id, deal_id) ==> r->Ok_0 == old(self)@.token_counter + 1
                && final(self)@ == (RegistryView {
                token_counter: r->Ok_0,
                certificates: old(self)@.certificates.insert(
                    r->Ok_0,
                    InvestmentCertificate {
                        token_id: r->Ok_0,
                        owner: to,
                        spv_id,
                        deal_id,
                        investment_amount,
                        fractions,
                        created_at: now,
                        is_transferable: false,
                    },
                ),
                ..old(self)@
            }),
    {
        broadcast use group_hash_axioms;

        match self.find(to, spv_id, deal_id) {
            Some(existing) => {
                return Ok(existing);
            },
            None => {},
        }
        let token_id = self.token_counter + 1;
        self.token_counter = token_id;
        let certificate = InvestmentCertificate {
            token_id,
            owner: to,
            spv_id,
            deal_id,
            investment_amount,
            fractions,
            created_at: now,
            is_transferable: false,
        };
        self.certificates.insert(token_id, certificate);
        proof {
            let w = self@;
            let v = old(self)@;
            assert forall|j: u64, k: u64|
                #![trigger w.certificates.contains_key(j), w.certificates.contains_key(k)]
                w.certificates.contains_key(j) && w.certificates.contains_key(k) && is_for(
                    w.certificates[j],
                    w.certificates[k].owner,
                    w.certificates[k].spv_id,
                    w.certificates[k].deal_id,
                ) implies j == k by {
                if j != token_id && k != token_id {
                    assert(v.certificates.contains_key(j) && v.certificates.contains_key(k));
                } else if j != token_id {
                    assert(v.certificates.contains_key(j));
                } else if k != token_id {
                    assert(v.certificates.contains_key(k));
                }
            }
        }
        Ok(token_id)
    }

    pub fn get_certificate(&self, token_id: u64) -> (r: Option<InvestmentCertificate>)
        ensures
            r == if self@.certificates.contains_key(token_id) {
                Some(self@.certificates[token_id])
            } else {
                None
            },
    {
        broadcast use group_hash_axioms;

        match self.certificates.get(&token_id) {
            Some(c) => Some(*c),
            None => None,
        }
    }

    /// The certificates of `owner`, by ascending id.
    pub fn get_owner_certificates(&self, owner: Principal) -> (r: Vec<InvestmentCertificate>)
        requires
            self.wf(),
        ensures
            r@ == by_key(self@.certificates).filter(|c: InvestmentCertificate| c.owner == owner),
    {
        let ghost pred = |c: InvestmentCertificate| c.owner == owner;
        let mut out: Vec<InvestmentCertificate> = Vec::new();
        let mut k: u64 = 0;
        assert(out@ =~= values_below(self@.certificates, 0).filter(pred));
        while k < self.token_counter
            invariant
                k <= self.token_counter,
                pred == |c: InvestmentCertificate| c.owner == owner,
                out@ == values_below(self@.certificates, k as nat).filter(pred),
            decreases self.token_counter - k,
        {
            self.visit(k, owner, Ghost(pred), &mut out);
            k += 1;
        }
        self.visit(k, owner, Ghost(pred), &mut out);
        proof {
            lemma_values_below_gap(self@.certificates, k as nat + 1, u64::MAX as nat + 1);
        }
        out
    }

    /// Appends the certificate stored under `k` to `out` where there is one
    /// of `owner`.
    fn visit(
        &self,
        k: u64,
        owner: Principal,
        Ghost(pred): Ghost<spec_fn(InvestmentCertificate) -> bool>,
        out: &mut Vec<InvestmentCertificate>,
    )
        requires
            forall|c: InvestmentCertificate| #[trigger] pred(c) == (c.owner == owner),
            old(out)@ == values_below(self@.certificates, k as nat).filter(pred),
        ensures
            final(out)@ == values_below(self@.certificates, k as nat + 1).filter(pred),
    {
        broadcast use group_hash_axioms;

        let ghost seen = values_below(self@.certificates, k as nat);
        proof {
            lemma_values_below_step(self@.certificates, k);
        }
        match self.certificates.get(&k) {
            Some(c) => {
                proof {
                    seen.lemma_filter_push(*c, pred);
                }
                if c.owner == owner {
                    out.push(*c);
                }
            },
            None => {},
        }
    }

    /// How many certificates `owner` has.
    pub fn balance_of(&self, owner: Principal) -> (r: u64)
        requires
            self.wf(),
        ensures
            r == by_key(self@.certificates).filter(
                |c: InvestmentCertificate| c.owner == owner,
            ).len(),
    {
        let owned = self.get_owner_certificates(owner);
        owned.len() as u64
    }

    /// The metadata that describes certificate `token_id`.
    pub fn get_certificate_metadata(&self, token_id: u64) -> (r: Option<CertificateMetadata>)
        ensures
            r is Some == self@.certificates.contains_key(token_id),
            r is Some ==> r->Some_0@ == metadata_of(self@.certificates[token_id]),
    {
        broadcast use group_hash_axioms;

        let cert = match self.certificates.get(&token_id) {
            Some(c) => *c,
            None => {
                return None;
            },
        };
        let spv = u64_to_string(cert.spv_id);
        let deal = u64_to_string(cert.deal_id);
        let amount = u64_to_string(cert.investment_amount);
        let fractions = u64_to_string(cert.fractions);
        let mut name = "Investment Certificate #".to_owned();
        name.append(u64_to_string(cert.token_id).as_str());
        let mut description = "Investment certificate for SPV ".to_owned();
        description.append(spv.as_str());
        description.append(" - ");
        description.append(fractions.as_str());
        description.append(" fractions worth ");
        description.append(amount.as_str());
        description.append(" EGP");
        let mut attributes: Vec<(String, String)> = Vec::new();
        attributes.push(("SPV ID".to_owned(), spv));
        attributes.push(("Deal ID".to_owned(), deal));
        attributes.push(("Investment Amount".to_owned(), amount));
        attributes.push(("Fractions".to_owned(), fractions));
        attributes.push(("Non-Transferable".to_owned(), "true".to_owned()));
        let metadata = CertificateMetadata {
            name,
            description,
            image_url: "https://example.com/certificate.png".to_owned(),
            attributes,
        };
        assert(metadata@.attributes =~= metadata_of(cert).attributes);
        assert(metadata@.name =~= metadata_of(cert).name);
        assert(metadata@.description =~= metadata_of(cert).description);
        Some(metadata)
    }
}

} // verus!
