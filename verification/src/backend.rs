//! The campaign service: campaigns, their documents, the three funding
//! channels and the links to deals.

use crate::campaign::{
    card_has_status, card_of, card_selected, card_views, cards_of, later, to_card, Campaign,
    CampaignCard,
    CampaignCardView, CampaignMeta, CampaignStatus, CampaignStore, CampaignView,
    CampaignWithDetails,
};
use crate::table::{lemma_filter_all, lemma_filter_same};
use crate::text::{decimal, opt_text, u64_to_string};
use vstd::string::StringExecFns;
use crate::upload::{
    all_present_but, assemble, complete, complete_but, empty_slots, joined, new_slots, slots_view,
};
use candid::Principal;
use std::collections::HashMap;
use vstd::prelude::*;
use vstd::std_specs::hash::group_hash_axioms;

verus! {

#[derive(Debug)]
pub struct Doc {
    pub id: u64,
    pub campaign_id: u64,
    pub name: String,
    pub content_type: String,
    pub data: Vec<u8>,
    pub uploaded_at: u64,
}

pub struct DocView {
    pub id: u64,
    pub campaign_id: u64,
    pub name: Seq<char>,
    pub content_type: Seq<char>,
    pub data: Seq<u8>,
    pub uploaded_at: u64,
}

impl View for Doc {
    type V = DocView;

    open spec fn view(&self) -> DocView {
        DocView {
            id: self.id,
            campaign_id: self.campaign_id,
            name: self.name@,
            content_type: self.content_type@,
            data: self.data@,
            uploaded_at: self.uploaded_at,
        }
    }
}

impl Clone for Doc {
    fn clone(&self) -> (r: Self)
        ensures
            r@ == self@,
    {
        let data = self.data.clone();
        assert(data@ =~= self.data@);
        Doc {
            id: self.id,
            campaign_id: self.campaign_id,
            name: self.name.clone(),
            content_type: self.content_type.clone(),
            data,
            uploaded_at: self.uploaded_at,
        }
    }
}

/// One piece of a document on its way in.
#[derive(Debug)]
pub struct UploadChunk {
    pub doc_id: u64,
    pub chunk_index: u32,
    pub data: Vec<u8>,
    pub is_final: bool,
}

/// What a campaign has raised, channel by channel. The total is computed
/// from the three channels whenever it is asked for.
#[derive(Clone, Copy, Debug, PartialEq, Eq, Structural)]
pub struct UnifiedFunding {
    pub total_goal: u64,
    pub icp_raised: u64,
    pub traditional_raised: u64,
    pub spv_raised: u64,
    pub total_raised: u64,
}

#[derive(Clone, Copy, Debug)]
pub struct SPVDealInfo {
    pub deal_id: u64,
    pub campaign_id: u64,
    pub equity_percent: u8,
    pub total_raise: u64,
    pub fraction_price: u64,
    pub spv_canister: Option<Principal>,
    pub spv_token_canister: Option<Principal>,
}

/// The three channels through which money reaches a campaign.
#[derive(Clone, Copy, Debug, PartialEq, Eq, Structural)]
pub enum Channel {
    Native,
    Traditional,
    Spv,
}

#[derive(Debug)]
pub enum BackendError {
    CampaignNotFound,
    UploadNotFound,
    InvalidChunkIndex,
    IncompleteUpload,
    ControllerNotSet,
    PaymentGatewayNotSet,
    NotAuthorized,
    /// A call to another service failed; the text says how.
    ExternalCallFailure(String),
}

impl BackendError {
    /// The error in words.
    pub open spec fn text(self) -> Seq<char> {
        match self {
            BackendError::CampaignNotFound => "Campaign not found"@,
            BackendError::UploadNotFound => "Document upload not found"@,
            BackendError::InvalidChunkIndex => "Invalid chunk index"@,
            BackendError::IncompleteUpload => "Not all chunks received"@,
            BackendError::ControllerNotSet => "Controller canister not set"@,
            BackendError::PaymentGatewayNotSet => "PaymentGateway canister not set"@,
            BackendError::NotAuthorized => "Only admin can approve campaigns"@,
            BackendError::ExternalCallFailure(m) => m@,
        }
    }

    /// The error in words.
    pub fn message(&self) -> (r: String)
        ensures
            r@ == self.text(),
    {
        match self {
            BackendError::CampaignNotFound => "Campaign not found".to_owned(),
            BackendError::UploadNotFound => "Document upload not found".to_owned(),
            BackendError::InvalidChunkIndex => "Invalid chunk index".to_owned(),
            BackendError::IncompleteUpload => "Not all chunks received".to_owned(),
            BackendError::ControllerNotSet => "Controller canister not set".to_owned(),
            BackendError::PaymentGatewayNotSet => "PaymentGateway canister not set".to_owned(),
            BackendError::NotAuthorized => "Only admin can approve campaigns".to_owned(),
            BackendError::ExternalCallFailure(m) => m.clone(),
        }
    }
}

/// The largest document that may be uploaded in one piece, in bytes.
pub const CHUNK_SIZE: usize = 1_500_000;

/// What channel map `m` holds for campaign `id`: nothing yet means zero.
pub open spec fn amount_in(m: Map<u64, u64>, id: u64) -> u64 {
    if m.contains_key(id) {
        m[id]
    } else {
        0
    }
}

/// `a + b`, or the largest value where the sum does not fit.
pub open spec fn saturating_sum(a: u64, b: u64) -> u64 {
    if a + b > u64::MAX {
        u64::MAX
    } else {
        (a + b) as u64
    }
}

/// The state of the campaign service as maps and sequences.
pub struct BackendView {
    pub campaigns: Map<u64, CampaignView>,
    pub campaign_counter: nat,
    pub docs: Map<u64, DocView>,
    pub doc_counter: u64,
    pub uploads: Map<u64, Seq<Option<Seq<u8>>>>,
    pub icp: Map<u64, u64>,
    pub traditional: Map<u64, u64>,
    pub spv: Map<u64, u64>,
    pub spv_deals: Map<u64, u64>,
    pub controller: Option<Principal>,
    pub payment_gateway: Option<Principal>,
    pub admin: Option<Principal>,
}

impl BackendView {
    /// What campaign `id` has raised through `channel`.
    pub open spec fn raised(self, channel: Channel, id: u64) -> u64 {
        match channel {
            Channel::Native => amount_in(self.icp, id),
            Channel::Traditional => amount_in(self.traditional, id),
            Channel::Spv => amount_in(self.spv, id),
        }
    }

    /// What campaign `id` has raised through all channels together.
    pub open spec fn total_raised(self, id: u64) -> int {
        amount_in(self.icp, id) + amount_in(self.traditional, id) + amount_in(self.spv, id)
    }

    /// The campaigns are those with ids `1..=campaign_counter`, each under
    /// its own id and last updated no earlier than it was created.
    pub open spec fn campaigns_wf(self) -> bool {
        &&& forall|id: u64| #[trigger]
            self.campaigns.contains_key(id) <==> 1 <= id <= self.campaign_counter
        &&& forall|id: u64| #[trigger]
            self.campaigns.contains_key(id) ==> self.campaigns[id].id == id
                && self.campaigns[id].created_at <= self.campaigns[id].updated_at
    }

    /// The raised amount of every campaign is the sum of what its three
    /// channels hold, and only campaigns have channel entries.
    pub open spec fn funding_wf(self) -> bool {
        &&& forall|id: u64| #[trigger]
            self.campaigns.contains_key(id) ==> self.campaigns[id].amount_raised
                == self.total_raised(id)
        &&& forall|id: u64| #[trigger] self.icp.contains_key(id) ==> self.campaigns.contains_key(id)
        &&& forall|id: u64| #[trigger]
            self.traditional.contains_key(id) ==> self.campaigns.contains_key(id)
        &&& forall|id: u64| #[trigger] self.spv.contains_key(id) ==> self.campaigns.contains_key(id)
    }

    /// Every document has an id that the counter handed out and belongs to a
    /// campaign; every upload session has its placeholder document.
    pub open spec fn docs_wf(self) -> bool {
        &&& forall|d: u64| #[trigger]
            self.docs.contains_key(d) ==> 1 <= d <= self.doc_counter && self.docs[d].id == d
                && self.campaigns.contains_key(self.docs[d].campaign_id)
        &&& forall|u: u64| #[trigger] self.uploads.contains_key(u) ==> self.docs.contains_key(u)
    }

    /// A campaign lists a document exactly when the document is complete:
    /// each listed id is a document of that campaign with no session open,
    /// no id is listed twice, and every document without a session is listed
    /// by its campaign.
    pub open spec fn attachments_wf(self) -> bool {
        &&& forall|c: u64, i: int|
            self.campaigns.contains_key(c) && 0 <= i < self.campaigns[c].doc_ids.len() ==> {
                let d = #[trigger] self.campaigns[c].doc_ids[i];
                &&& self.docs.contains_key(d)
                &&& self.docs[d].campaign_id == c
                &&& !self.uploads.contains_key(d)
            }
        &&& forall|c: u64| #[trigger]
            self.campaigns.contains_key(c) ==> self.campaigns[c].doc_ids.no_duplicates()
        &&& forall|d: u64| #[trigger]
            self.docs.contains_key(d) && !self.uploads.contains_key(d)
                ==> self.campaigns[self.docs[d].campaign_id].doc_ids.contains(d)
    }

    pub open spec fn wf(self) -> bool {
        &&& self.campaigns_wf()
        &&& self.funding_wf()
        &&& self.docs_wf()
        &&& self.attachments_wf()
    }

    /// The state after a new campaign `c` got the next id.
    pub open spec fn with_campaign(self, c: CampaignView) -> BackendView {
        let id = (self.campaign_counter + 1) as u64;
        BackendView {
            campaigns: self.campaigns.insert(id, CampaignView { id, ..c }),
            campaign_counter: self.campaign_counter + 1,
            ..self
        }
    }

    /// The state after `amount` reached campaign `id` through `channel` at
    /// time `now`: the channel and the campaign's raised amount grow by
    /// `amount`; a native contribution also raises the current funding. The
    /// time of the campaign's last update moves to `now` unless it is later
    /// already, as with every change to a campaign.
    pub open spec fn credited(self, channel: Channel, id: u64, amount: u64, now: u64) -> BackendView {
        let c = self.campaigns[id];
        let campaigns = self.campaigns.insert(
            id,
            CampaignView {
                amount_raised: (c.amount_raised + amount) as u64,
                current_funding: if channel == Channel::Native {
                    saturating_sum(c.current_funding, amount)
                } else {
                    c.current_funding
                },
                updated_at: later(c.updated_at, now),
                ..c
            },
        );
        let sum = (self.raised(channel, id) + amount) as u64;
        match channel {
            Channel::Native => BackendView { campaigns, icp: self.icp.insert(id, sum), ..self },
            Channel::Traditional => BackendView {
                campaigns,
                traditional: self.traditional.insert(id, sum),
                ..self
            },
            Channel::Spv => BackendView { campaigns, spv: self.spv.insert(id, sum), ..self },
        }
    }

    /// The state after an upload session of `total_chunks` slots was opened
    /// for a new document of campaign `campaign_id`.
    pub open spec fn started(
        self,
        campaign_id: u64,
        name: Seq<char>,
        content_type: Seq<char>,
        total_chunks: u32,
        uploaded_at: u64,
    ) -> BackendView {
        let id = (self.doc_counter + 1) as u64;
        BackendView {
            docs: self.docs.insert(
                id,
                DocView { id, campaign_id, name, content_type, data: Seq::empty(), uploaded_at },
            ),
            uploads: self.uploads.insert(id, empty_slots(total_chunks as nat)),
            doc_counter: id,
            ..self
        }
    }

    /// The state after `data` was put into slot `index` of session `doc_id`.
    pub open spec fn with_chunk(self, doc_id: u64, index: int, data: Seq<u8>) -> BackendView {
        BackendView {
            uploads: self.uploads.insert(doc_id, self.uploads[doc_id].update(index, Some(data))),
            ..self
        }
    }

    /// The state after session `doc_id` was closed at `now`: the document
    /// gets the joined bytes of the slots, its campaign lists it, and the
    /// session is gone.
    pub open spec fn finalized(self, doc_id: u64, now: u64) -> BackendView {
        let doc = self.docs[doc_id];
        let c = self.campaigns[doc.campaign_id];
        BackendView {
            uploads: self.uploads.remove(doc_id),
            docs: self.docs.insert(doc_id, DocView { data: joined(self.uploads[doc_id]), ..doc }),
            campaigns: self.campaigns.insert(
                doc.campaign_id,
                CampaignView {
                    doc_ids: c.doc_ids.push(doc_id),
                    updated_at: later(c.updated_at, now),
                    ..c
                },
            ),
            ..self
        }
    }

    /// The state after a whole document was stored for campaign
    /// `campaign_id` at `now`.
    pub open spec fn with_doc(
        self,
        campaign_id: u64,
        name: Seq<char>,
        content_type: Seq<char>,
        data: Seq<u8>,
        uploaded_at: u64,
        now: u64,
    ) -> BackendView {
        let id = (self.doc_counter + 1) as u64;
        let c = self.campaigns[campaign_id];
        BackendView {
            docs: self.docs.insert(
                id,
                DocView { id, campaign_id, name, content_type, data, uploaded_at },
            ),
            doc_counter: id,
            campaigns: self.campaigns.insert(
                campaign_id,
                CampaignView {
                    doc_ids: c.doc_ids.push(id),
                    updated_at: later(c.updated_at, now),
                    ..c
                },
            ),
            ..self
        }
    }

    /// The state after campaign `id` got the status text `status` at `now`.
    pub open spec fn with_status(self, id: u64, status: Seq<char>, now: u64) -> BackendView {
        BackendView {
            campaigns: self.campaigns.insert(
                id,
                CampaignView {
                    status: Some(status),
                    updated_at: later(self.campaigns[id].updated_at, now),
                    ..self.campaigns[id]
                },
            ),
            ..self
        }
    }
}

/// The record of a campaign that was just created.
pub open spec fn new_campaign(
    title: Seq<char>,
    description: Seq<char>,
    funding_goal: u64,
    legal_entity: Seq<char>,
    contact_info: Seq<char>,
    category: Seq<char>,
    business_registration: u8,
    goal: u64,
    end_date: u64,
    now: u64,
) -> CampaignView {
    CampaignView {
        id: 0,
        title,
        description,
        funding_goal,
        current_funding: 0,
        legal_entity,
        status: Some("pending"@),
        contact_info,
        category,
        business_registration,
        created_at: now,
        updated_at: now,
        doc_ids: Seq::empty(),
        amount_raised: 0,
        goal,
        end_date,
    }
}

/// What a new campaign must bring: every text non-empty, both goals above
/// zero.
pub open spec fn campaign_input_ok(
    title: Seq<char>,
    description: Seq<char>,
    funding_goal: u64,
    legal_entity: Seq<char>,
    contact_info: Seq<char>,
    category: Seq<char>,
    goal: u64,
) -> bool {
    &&& title.len() > 0
    &&& description.len() > 0
    &&& funding_goal > 0
    &&& legal_entity.len() > 0
    &&& contact_info.len() > 0
    &&& category.len() > 0
    &&& goal > 0
}

/// Whether the inputs of a new campaign are acceptable.
pub fn valid_campaign_input(
    title: &str,
    description: &str,
    funding_goal: u64,
    legal_entity: &str,
    contact_info: &str,
    category: &str,
    goal: u64,
) -> (r: bool)
    ensures
        r == campaign_input_ok(
            title@,
            description@,
            funding_goal,
            legal_entity@,
            contact_info@,
            category@,
            goal,
        ),
{
    !(title.is_empty() || description.is_empty() || funding_goal == 0 || legal_entity.is_empty()
        || contact_info.is_empty() || category.is_empty() || goal == 0)
}

pub struct Backend {
    store: CampaignStore,
    docs: HashMap<u64, Doc>,
    doc_counter: u64,
    uploads: HashMap<u64, Vec<Option<Vec<u8>>>>,
    icp: HashMap<u64, u64>,
    traditional: HashMap<u64, u64>,
    spv: HashMap<u64, u64>,
    spv_deals: HashMap<u64, u64>,
    controller: Option<Principal>,
    payment_gateway: Option<Principal>,
    admin: Option<Principal>,
}

impl View for Backend {
    type V = BackendView;

    closed spec fn view(&self) -> BackendView {
        BackendView {
            campaigns: self.store@,
            campaign_counter: self.store.counter(),
            docs: self.docs@.map_values(|d: Doc| d@),
            doc_counter: self.doc_counter,
            uploads: self.uploads@.map_values(|s: Vec<Option<Vec<u8>>>| slots_view(s@)),
            icp: self.icp@,
            traditional: self.traditional@,
            spv: self.spv@,
            spv_deals: self.spv_deals@,
            controller: self.controller,
            payment_gateway: self.payment_gateway,
            admin: self.admin,
        }
    }
}

/// Adds `amount` to what `m` holds under `id`.
fn add_to(m: &mut HashMap<u64, u64>, id: u64, amount: u64)
    requires
        amount_in(old(m)@, id) + amount <= u64::MAX,
    ensures
        final(m)@ == old(m)@.insert(id, (amount_in(old(m)@, id) + amount) as u64),
{
    broadcast use group_hash_axioms;

    let current: u64 = match m.get(&id) {
        Some(v) => *v,
        None => 0,
    };
    m.insert(id, current + amount);
}

/// What `m` holds under `id`, zero where it holds nothing.
fn read_from(m: &HashMap<u64, u64>, id: u64) -> (r: u64)
    ensures
        r == amount_in(m@, id),
{
    broadcast use group_hash_axioms;

    match m.get(&id) {
        Some(v) => *v,
        None => 0,
    }
}

impl Backend {
    /// The store is well formed and the state keeps its invariants.
    pub closed spec fn wf(&self) -> bool {
        &&& self.store.wf()
        &&& self@.wf()
    }

    /// What well-formedness says of the view.
    pub proof fn lemma_wf(&self)
        requires
            self.wf(),
        ensures
            self@.wf(),
            self@.campaign_counter <= u64::MAX,
    {
        self.store.lemma_wf();
    }

    pub fn new() -> (s: Self)
        ensures
            s.wf(),
            s@ == (BackendView {
                campaigns: Map::empty(),
                campaign_counter: 0,
                docs: Map::empty(),
                doc_counter: 0,
                uploads: Map::empty(),
                icp: Map::empty(),
                traditional: Map::empty(),
                spv: Map::empty(),
                spv_deals: Map::empty(),
                controller: None,
                payment_gateway: None,
                admin: None,
            }),
    {
        let s = Backend {
            store: CampaignStore::new(),
            docs: HashMap::new(),
            doc_counter: 0,
            uploads: HashMap::new(),
            icp: HashMap::new(),
            traditional: HashMap::new(),
            spv: HashMap::new(),
            spv_deals: HashMap::new(),
            controller: None,
            payment_gateway: None,
            admin: None,
        };
        assert(s@.docs =~= Map::<u64, DocView>::empty());
        assert(s@.uploads =~= Map::<u64, Seq<Option<Seq<u8>>>>::empty());
        s
    }

    /// Creates a campaign in status "pending" and returns its id. The
    /// inputs must be acceptable, see [`valid_campaign_input`].
    pub fn create_campaign(
        &mut self,
        title: String,
        description: String,
        funding_goal: u64,
        legal_entity: String,
        contact_info: String,
        category: String,
        business_registration: u8,
        goal: u64,
        end_date: u64,
        now: u64,
    ) -> (id: u64)
        requires
            old(self).wf(),
            campaign_input_ok(
                title@,
                description@,
                funding_goal,
                legal_entity@,
                contact_info@,
                category@,
                goal,
            ),
            old(self)@.campaign_counter < u64::MAX,
        ensures
            final(self).wf(),
            id == old(self)@.campaign_counter + 1,
            final(self)@ == old(self)@.with_campaign(
                new_campaign(
                    title@,
                    description@,
                    funding_goal,
                    legal_entity@,
                    contact_info@,
                    category@,
                    business_registration,
                    goal,
                    end_date,
                    now,
                ),
            ),
    {
        let campaign = Campaign {
            id: 0,
            title,
            description,
            funding_goal,
            current_funding: 0,
            legal_entity,
            status: Some("pending".to_owned()),
            contact_info,
            doc_ids: Vec::new(),
            category,
            business_registration,
            created_at: now,
            updated_at: now,
            amount_raised: 0,
            goal,
            end_date,
        };
        proof {
            self.store.lemma_wf();
        }
        let id = self.store.add(campaign);
        proof {
            self.store.lemma_wf();
            let c = new_campaign(
                title@,
                description@,
                funding_goal,
                legal_entity@,
                contact_info@,
                category@,
                business_registration,
                goal,
                end_date,
                now,
            );
            assert(campaign@ == c);
            assert(self@ == old(self)@.with_campaign(c));
            lemma_with_campaign_wf(old(self)@, c);
        }
        id
    }

    /// How many campaigns were created; also the id of the latest.
    pub fn campaign_count(&self) -> (n: u64)
        requires
            self.wf(),
        ensures
            n == self@.campaign_counter,
    {
        self.store.count()
    }

    /// Whether there is a campaign with this id.
    pub fn has_campaign(&self, id: u64) -> (r: bool)
        requires
            self.wf(),
        ensures
            r == self@.campaigns.contains_key(id),
    {
        self.store.contains(id)
    }

    pub fn get_campaign(&self, id: u64) -> (r: Option<Campaign>)
        requires
            self.wf(),
        ensures
            r is Some == self@.campaigns.contains_key(id),
            r is Some ==> r->Some_0@ == self@.campaigns[id],
    {
        self.store.get(id)
    }

    pub fn get_campaign_by_id(&self, campaign_id: u64) -> (r: Option<Campaign>)
        requires
            self.wf(),
        ensures
            r is Some == self@.campaigns.contains_key(campaign_id),
            r is Some ==> r->Some_0@ == self@.campaigns[campaign_id],
    {
        self.get_campaign(campaign_id)
    }

    /// A campaign together with its card as seen at `now_secs`.
    pub fn get_campaign_with_details(&self, campaign_id: u64, now_secs: u64) -> (r: Option<
        CampaignWithDetails,
    >)
        requires
            self.wf(),
        ensures
            r is Some == self@.campaigns.contains_key(campaign_id),
            r is Some ==> r->Some_0.details@ == self@.campaigns[campaign_id]
                && r->Some_0.campaign@ == card_of(self@.campaigns[campaign_id], now_secs),
    {
        match self.get_campaign(campaign_id) {
            Some(campaign) => {
                let card = to_card(&campaign, now_secs);
                Some(CampaignWithDetails { campaign: card, details: campaign })
            },
            None => None,
        }
    }

    /// The figures of a campaign that the funding flow works with.
    pub fn get_campaign_meta(&self, campaign_id: u64) -> (r: Option<CampaignMeta>)
        requires
            self.wf(),
        ensures
            r == if self@.campaigns.contains_key(campaign_id) {
                let c = self@.campaigns[campaign_id];
                Some(
                    CampaignMeta {
                        campaign_id: c.id,
                        goal: c.goal,
                        amount_raised: c.amount_raised,
                        end_date_secs: c.end_date,
                    },
                )
            } else {
                None
            },
    {
        match self.get_campaign(campaign_id) {
            Some(c) => Some(
                CampaignMeta {
                    campaign_id: c.id,
                    goal: c.goal,
                    amount_raised: c.amount_raised,
                    end_date_secs: c.end_date,
                },
            ),
            None => None,
        }
    }

    /// Sets the raised amount of a campaign and stamps the change.
    fn update_campaign_amount(&mut self, campaign_id: u64, new_amount: u64, now: u64)
        requires
            old(self).store.wf(),
        ensures
            final(self).store.wf(),
            final(self)@ == (BackendView {
                campaigns: if old(self)@.campaigns.contains_key(campaign_id) {
                    old(self)@.campaigns.insert(
                        campaign_id,
                        CampaignView {
                            amount_raised: new_amount,
                            updated_at: later(old(self)@.campaigns[campaign_id].updated_at, now),
                            ..old(self)@.campaigns[campaign_id]
                        },
                    )
                } else {
                    old(self)@.campaigns
                },
                ..old(self)@
            }),
    {
        self.store.update_campaign_amount(campaign_id, new_amount, now);
    }

    /// Whether `amount` can still be added to what campaign `campaign_id`
    /// has raised. True for a campaign that does not exist, since nothing is
    /// added then.
    pub fn contribution_fits(&self, campaign_id: u64, amount: u64) -> (r: bool)
        requires
            self.wf(),
        ensures
            r == (self@.campaigns.contains_key(campaign_id) ==> self@.campaigns[campaign_id].amount_raised
                + amount <= u64::MAX),
    {
        match self.store.get(campaign_id) {
            Some(c) => amount <= u64::MAX - c.amount_raised,
            None => true,
        }
    }

    /// Credits `amount` to campaign `campaign_id` through `channel`.
    fn credit(&mut self, channel: Channel, campaign_id: u64, amount: u64, now: u64)
        requires
            old(self).wf(),
            old(self)@.campaigns.contains_key(campaign_id),
            old(self)@.campaigns[campaign_id].amount_raised + amount <= u64::MAX,
        ensures
            final(self).wf(),
            final(self)@ == old(self)@.credited(channel, campaign_id, amount, now),
    {
        let raised = match self.store.get(campaign_id) {
            Some(c) => c.amount_raised,
            None => 0,
        };
        match channel {
            Channel::Native => add_to(&mut self.icp, campaign_id, amount),
            Channel::Traditional => add_to(&mut self.traditional, campaign_id, amount),
            Channel::Spv => add_to(&mut self.spv, campaign_id, amount),
        }
        self.update_campaign_amount(campaign_id, raised + amount, now);
        if channel == Channel::Native {
            self.store.add_current_funding(campaign_id, amount, now);
        }
        proof {
            assert(self@.campaigns =~= old(self)@.credited(
                channel,
                campaign_id,
                amount,
                now,
            ).campaigns);
            assert(self@ == old(self)@.credited(channel, campaign_id, amount, now));
            lemma_credited_wf(old(self)@, channel, campaign_id, amount, now);
        }
    }

    /// Records a contribution in the native currency. The campaign's raised
    /// amount and current funding grow with the native channel.
    pub fn receive_icp_contribution(&mut self, campaign_id: u64, amount_e8s: u64, now: u64) -> (r:
        Result<(), BackendError>)
        requires
            old(self).wf(),
            old(self)@.campaigns.contains_key(campaign_id) ==> old(self)@.campaigns[campaign_id].amount_raised
                + amount_e8s <= u64::MAX,
        ensures
            final(self).wf(),
            !old(self)@.campaigns.contains_key(campaign_id) ==> r == Err::<(), BackendError>(
                BackendError::CampaignNotFound,
            ) && final(self)@ == old(self)@,
            old(self)@.campaigns.contains_key(campaign_id) ==> r is Ok && final(self)@ == old(
                self,
            )@.credited(Channel::Native, campaign_id, amount_e8s, now),
    {
        if !self.store.contains(campaign_id) {
            return Err(BackendError::CampaignNotFound);
        }
        self.credit(Channel::Native, campaign_id, amount_e8s, now);
        Ok(())
    }

    /// Records a contribution that came through an SPV.
    pub fn receive_spv_contribution(&mut self, campaign_id: u64, amount: u64, now: u64) -> (r:
        Result<(), BackendError>)
        requires
            old(self).wf(),
            old(self)@.campaigns.contains_key(campaign_id) ==> old(self)@.campaigns[campaign_id].amount_raised
                + amount <= u64::MAX,
        ensures
            final(self).wf(),
            !old(self)@.campaigns.contains_key(campaign_id) ==> r == Err::<(), BackendError>(
                BackendError::CampaignNotFound,
            ) && final(self)@ == old(self)@,
            old(self)@.campaigns.contains_key(campaign_id) ==> r is Ok && final(self)@ == old(
                self,
            )@.credited(Channel::Spv, campaign_id, amount, now),
    {
        if !self.store.contains(campaign_id) {
            return Err(BackendError::CampaignNotFound);
        }
        self.credit(Channel::Spv, campaign_id, amount, now);
        Ok(())
    }

    /// Records a payment made by a traditional payment method and returns
    /// the payment's id, which is the time of the call. Every existing
    /// campaign is credited: neither the payment method nor the payment
    /// gateway is looked at.
    pub fn process_traditional_payment(
        &mut self,
        campaign_id: u64,
        payment_method_id: u64,
        amount: u64,
        now: u64,
    ) -> (r: Result<u64, BackendError>)
        requires
            old(self).wf(),
            old(self)@.campaigns.contains_key(campaign_id) ==> old(self)@.campaigns[campaign_id].amount_raised
                + amount <= u64::MAX,
        ensures
            final(self).wf(),
            !old(self)@.campaigns.contains_key(campaign_id) ==> r == Err::<u64, BackendError>(
                BackendError::CampaignNotFound,
            ) && final(self)@ == old(self)@,
            old(self)@.campaigns.contains_key(campaign_id) ==> r == Ok::<u64, BackendError>(now)
                && final(self)@ == old(self)@.credited(
                Channel::Traditional,
                campaign_id,
                amount,
                now,
            ),
    {
        if !self.store.contains(campaign_id) {
            return Err(BackendError::CampaignNotFound);
        }
        self.credit(Channel::Traditional, campaign_id, amount, now);
        Ok(now)
    }

    /// The goal of a campaign and what it has raised, channel by channel.
    /// The total is the sum of the three channels.
    pub fn get_unified_funding(&self, campaign_id: u64) -> (r: Option<UnifiedFunding>)
        requires
            self.wf(),
        ensures
            r is Some == self@.campaigns.contains_key(campaign_id),
            r is Some ==> r->Some_0.total_goal == self@.campaigns[campaign_id].goal
                && r->Some_0.icp_raised == self@.raised(Channel::Native, campaign_id)
                && r->Some_0.traditional_raised == self@.raised(Channel::Traditional, campaign_id)
                && r->Some_0.spv_raised == self@.raised(Channel::Spv, campaign_id)
                && r->Some_0.total_raised == r->Some_0.icp_raised + r->Some_0.traditional_raised
                + r->Some_0.spv_raised,
    {
        let campaign = match self.get_campaign(campaign_id) {
            Some(c) => c,
            None => {
                return None;
            },
        };
        let icp_raised = read_from(&self.icp, campaign_id);
        let traditional_raised = read_from(&self.traditional, campaign_id);
        let spv_raised = read_from(&self.spv, campaign_id);
        assert(self@.campaigns[campaign_id].amount_raised == self@.total_raised(campaign_id));
        let total_raised = icp_raised + traditional_raised + spv_raised;
        Some(
            UnifiedFunding {
                total_goal: campaign.goal,
                icp_raised,
                traditional_raised,
                spv_raised,
                total_raised,
            },
        )
    }

    /// Whether the raised amount of a campaign and its native channel can be
    /// added up in 64 bits.
    pub fn total_funding_fits(&self, campaign_id: u64) -> (r: bool)
        requires
            self.wf(),
        ensures
            r == (self@.campaigns.contains_key(campaign_id) ==> self@.campaigns[campaign_id].amount_raised
                + self@.raised(Channel::Native, campaign_id) <= u64::MAX),
    {
        let icp = read_from(&self.icp, campaign_id);
        match self.store.get(campaign_id) {
            Some(c) => icp <= u64::MAX - c.amount_raised,
            None => true,
        }
    }

    /// The raised amount of a campaign plus what its native channel holds;
    /// for a campaign that does not exist, what the native channel holds.
    pub fn get_campaign_total_funding(&self, campaign_id: u64) -> (r: u64)
        requires
            self.wf(),
            self@.campaigns.contains_key(campaign_id) ==> self@.campaigns[campaign_id].amount_raised
                + self@.raised(Channel::Native, campaign_id) <= u64::MAX,
        ensures
            r == if self@.campaigns.contains_key(campaign_id) {
                self@.campaigns[campaign_id].amount_raised + self@.raised(
                    Channel::Native,
                    campaign_id,
                )
            } else {
                self@.raised(Channel::Native, campaign_id) as int
            },
    {
        let campaign_amount = match self.store.get(campaign_id) {
            Some(c) => c.amount_raised,
            None => 0,
        };
        let icp_amount = read_from(&self.icp, campaign_id);
        campaign_amount + icp_amount
    }

    pub fn get_icp_contribution(&self, campaign_id: u64) -> (r: u64)
        ensures
            r == self@.raised(Channel::Native, campaign_id),
    {
        read_from(&self.icp, campaign_id)
    }

    pub fn get_traditional_contribution(&self, campaign_id: u64) -> (r: u64)
        ensures
            r == self@.raised(Channel::Traditional, campaign_id),
    {
        read_from(&self.traditional, campaign_id)
    }

    pub fn get_spv_contribution(&self, campaign_id: u64) -> (r: u64)
        ensures
            r == self@.raised(Channel::Spv, campaign_id),
    {
        read_from(&self.spv, campaign_id)
    }

    /// How many documents were created; also the id of the latest.
    pub fn doc_count(&self) -> (n: u64)
        ensures
            n == self@.doc_counter,
    {
        self.doc_counter
    }

    /// Opens an upload session of `total_chunks` slots for a new document of
    /// campaign `campaign_id` and returns the document's id. The document
    /// stays empty, and its campaign does not list it, until the session is
    /// closed by a final chunk.
    pub fn start_chunked_upload(
        &mut self,
        campaign_id: u64,
        name: String,
        content_type: String,
        total_chunks: u32,
        uploaded_at: u64,
    ) -> (r: Option<u64>)
        requires
            old(self).wf(),
            old(self)@.campaigns.contains_key(campaign_id) ==> old(self)@.doc_counter < u64::MAX,
        ensures
            final(self).wf(),
            !old(self)@.campaigns.contains_key(campaign_id) ==> r is None && final(self)@ == old(
                self,
            )@,
            old(self)@.campaigns.contains_key(campaign_id) ==> r == Some(
                (old(self)@.doc_counter + 1) as u64,
            ) && final(self)@ == old(self)@.started(
                campaign_id,
                name@,
                content_type@,
                total_chunks,
                uploaded_at,
            ),
    {
        broadcast use group_hash_axioms;

        if !self.store.contains(campaign_id) {
            return None;
        }
        self.doc_counter = self.doc_counter + 1;
        let doc_id = self.doc_counter;
        self.uploads.insert(doc_id, new_slots(total_chunks));
        let doc = Doc { id: doc_id, campaign_id, name, content_type, data: Vec::new(), uploaded_at };
        self.docs.insert(doc_id, doc);
        proof {
            let w = old(self)@.started(campaign_id, name@, content_type@, total_chunks, uploaded_at);
            assert(self@.docs =~= w.docs);
            assert(self@.uploads =~= w.uploads);
            assert(self@ == w);
            lemma_started_wf(old(self)@, campaign_id, name@, content_type@, total_chunks, uploaded_at);
        }
        Some(doc_id)
    }

    /// Takes one chunk of a document. The chunk replaces whatever its slot
    /// held. A final chunk closes the session: where every slot is then
    /// filled, the document gets the slots' bytes in index order and its
    /// campaign lists it. Any error leaves the state as it was.
    pub fn upload_chunk(&mut self, chunk: UploadChunk, now: u64) -> (r: Result<(), BackendError>)
        requires
            old(self).wf(),
        ensures
            final(self).wf(),
            r is Err ==> final(self)@ == old(self)@,
            !old(self)@.uploads.contains_key(chunk.doc_id) ==> r == Err::<(), BackendError>(
                BackendError::UploadNotFound,
            ),
            old(self)@.uploads.contains_key(chunk.doc_id) && chunk.chunk_index >= old(
                self,
            )@.uploads[chunk.doc_id].len() ==> r == Err::<(), BackendError>(
                BackendError::InvalidChunkIndex,
            ),
            old(self)@.uploads.contains_key(chunk.doc_id) && chunk.chunk_index < old(
                self,
            )@.uploads[chunk.doc_id].len() && chunk.is_final && !complete(
                old(self)@.uploads[chunk.doc_id].update(chunk.chunk_index as int, Some(chunk.data@)),
            ) ==> r == Err::<(), BackendError>(BackendError::IncompleteUpload),
            old(self)@.uploads.contains_key(chunk.doc_id) && chunk.chunk_index < old(
                self,
            )@.uploads[chunk.doc_id].len() && !chunk.is_final ==> r is Ok && final(self)@ == old(
                self,
            )@.with_chunk(chunk.doc_id, chunk.chunk_index as int, chunk.data@),
            old(self)@.uploads.contains_key(chunk.doc_id) && chunk.chunk_index < old(
                self,
            )@.uploads[chunk.doc_id].len() && chunk.is_final && complete(
                old(self)@.uploads[chunk.doc_id].update(chunk.chunk_index as int, Some(chunk.data@)),
            ) ==> r is Ok && final(self)@ == old(self)@.with_chunk(
                chunk.doc_id,
                chunk.chunk_index as int,
                chunk.data@,
            ).finalized(chunk.doc_id, now),
    {
        broadcast use group_hash_axioms;

        let doc_id = chunk.doc_id;
        let index = chunk.chunk_index as usize;
        let is_final = chunk.is_final;
        let ghost before = old(self)@;
        let ghost data = chunk.data@;
        let ready = match self.uploads.get(&doc_id) {
            None => {
                return Err(BackendError::UploadNotFound);
            },
            Some(slots) => {
                if index >= slots.len() {
                    return Err(BackendError::InvalidChunkIndex);
                }
                proof {
                    lemma_complete_update(slots_view(slots@), index as int, data);
                }
                !is_final || all_present_but(slots, index)
            },
        };
        if !ready {
            return Err(BackendError::IncompleteUpload);
        }
        let mut slots = self.uploads.remove(&doc_id).unwrap();
        let ghost old_slots = slots@;
        slots[index] = Some(chunk.data);
        assert(slots_view(slots@) =~= slots_view(old_slots).update(index as int, Some(data)));
        if is_final {
            let full = assemble(&slots);
            assert(before.docs.contains_key(doc_id));
            let mut doc = self.docs.remove(&doc_id).unwrap();
            let campaign_id = doc.campaign_id;
            doc.data = full;
            self.docs.insert(doc_id, doc);
            proof {
                self.store.lemma_wf();
            }
            assert(before.campaigns.contains_key(campaign_id));
            self.store.attach_doc(campaign_id, doc_id, now);
            proof {
                let mid = before.with_chunk(doc_id, index as int, data);
                let w = mid.finalized(doc_id, now);
                assert(self@.uploads =~= w.uploads);
                assert(self@.docs =~= w.docs);
                assert(self@.campaigns =~= w.campaigns);
                assert(self@ == w);
                lemma_with_chunk_wf(before, doc_id, index as int, data);
                lemma_finalized_wf(mid, doc_id, now);
            }
        } else {
            self.uploads.insert(doc_id, slots);
            proof {
                let w = before.with_chunk(doc_id, index as int, data);
                assert(self@.uploads =~= w.uploads);
                assert(self@.docs =~= w.docs);
                assert(self@ == w);
                lemma_with_chunk_wf(before, doc_id, index as int, data);
            }
        }
        Ok(())
    }

    /// Stores a small document for campaign `campaign_id` in one step and
    /// returns its id. The document may hold at most [`CHUNK_SIZE`] bytes;
    /// larger ones go through an upload session.
    pub fn upload_doc(
        &mut self,
        campaign_id: u64,
        name: String,
        content_type: String,
        data: Vec<u8>,
        uploaded_at: u64,
        now: u64,
    ) -> (r: Option<u64>)
        requires
            old(self).wf(),
            data@.len() <= CHUNK_SIZE,
            old(self)@.campaigns.contains_key(campaign_id) ==> old(self)@.doc_counter < u64::MAX,
        ensures
            final(self).wf(),
            !old(self)@.campaigns.contains_key(campaign_id) ==> r is None && final(self)@ == old(
                self,
            )@,
            old(self)@.campaigns.contains_key(campaign_id) ==> r == Some(
                (old(self)@.doc_counter + 1) as u64,
            ) && final(self)@ == old(self)@.with_doc(
                campaign_id,
                name@,
                content_type@,
                data@,
                uploaded_at,
                now,
            ),
    {
        broadcast use group_hash_axioms;

        if !self.store.contains(campaign_id) {
            return None;
        }
        self.doc_counter = self.doc_counter + 1;
        let doc_id = self.doc_counter;
        let doc = Doc { id: doc_id, campaign_id, name, content_type, data, uploaded_at };
        self.docs.insert(doc_id, doc);
        self.store.attach_doc(campaign_id, doc_id, now);
        proof {
            let w = old(self)@.with_doc(campaign_id, name@, content_type@, data@, uploaded_at, now);
            assert(self@.docs =~= w.docs);
            assert(self@.uploads =~= w.uploads);
            assert(self@.campaigns =~= w.campaigns);
            assert(self@ == w);
            lemma_with_doc_wf(old(self)@, campaign_id, name@, content_type@, data@, uploaded_at, now);
        }
        Some(doc_id)
    }

    pub fn get_doc(&self, doc_id: u64) -> (r: Option<Doc>)
        ensures
            r is Some == self@.docs.contains_key(doc_id),
            r is Some ==> r->Some_0@ == self@.docs[doc_id],
    {
        broadcast use group_hash_axioms;

        match self.docs.get(&doc_id) {
            Some(d) => Some(d.clone()),
            None => None,
        }
    }
}

/// A row of slots with slot `index` filled is complete exactly when every
/// other slot is filled.
proof fn lemma_complete_update(slots: Seq<Option<Seq<u8>>>, index: int, data: Seq<u8>)
    requires
        0 <= index < slots.len(),
    ensures
        complete(slots.update(index, Some(data))) == complete_but(slots, index),
{
    let filled = slots.update(index, Some(data));
    if complete(filled) {
        assert forall|i: int| 0 <= i < slots.len() && i != index implies (#[trigger] slots[i]) is Some by {
            assert(filled[i] is Some);
        }
    }
    if complete_but(slots, index) {
        assert forall|i: int| 0 <= i < filled.len() implies (#[trigger] filled[i]) is Some by {
            if i != index {
                assert(slots[i] is Some);
            }
        }
    }
}

/// Opening a session keeps the invariants.
proof fn lemma_started_wf(
    v: BackendView,
    campaign_id: u64,
    name: Seq<char>,
    content_type: Seq<char>,
    total_chunks: u32,
    uploaded_at: u64,
)
    requires
        v.wf(),
        v.campaigns.contains_key(campaign_id),
        v.doc_counter < u64::MAX,
    ensures
        v.started(campaign_id, name, content_type, total_chunks, uploaded_at).wf(),
{
    let w = v.started(campaign_id, name, content_type, total_chunks, uploaded_at);
    let id = (v.doc_counter + 1) as u64;
    assert(!v.docs.contains_key(id));
    assert(!v.uploads.contains_key(id)) by {
        if v.uploads.contains_key(id) {
            assert(v.docs.contains_key(id));
        }
    }
    assert(w.campaigns_wf());
    assert(w.funding_wf());
    assert(w.docs_wf()) by {
        assert forall|d: u64| #[trigger] w.docs.contains_key(d) implies 1 <= d <= w.doc_counter
            && w.docs[d].id == d && w.campaigns.contains_key(w.docs[d].campaign_id) by {
            if d != id {
                assert(v.docs.contains_key(d));
            }
        }
        assert forall|u: u64| #[trigger] w.uploads.contains_key(u) implies w.docs.contains_key(
            u,
        ) by {
            if u != id {
                assert(v.uploads.contains_key(u));
            }
        }
    }
    assert(w.attachments_wf()) by {
        assert forall|k: u64, i: int|
            w.campaigns.contains_key(k) && 0 <= i < w.campaigns[k].doc_ids.len() implies {
            let d = #[trigger] w.campaigns[k].doc_ids[i];
            &&& w.docs.contains_key(d)
            &&& w.docs[d].campaign_id == k
            &&& !w.uploads.contains_key(d)
        } by {
            let d = v.campaigns[k].doc_ids[i];
            assert(v.docs.contains_key(d));
        }
        assert forall|d: u64| #[trigger]
            w.docs.contains_key(d) && !w.uploads.contains_key(d) implies w.campaigns[w.docs[d].campaign_id].doc_ids.contains(
            d,
        ) by {
            assert(d != id);
            assert(v.docs.contains_key(d));
            assert(!v.uploads.contains_key(d));
        }
    }
}

/// Filling a slot keeps the invariants.
proof fn lemma_with_chunk_wf(v: BackendView, doc_id: u64, index: int, data: Seq<u8>)
    requires
        v.wf(),
        v.uploads.contains_key(doc_id),
    ensures
        v.with_chunk(doc_id, index, data).wf(),
{
    let w = v.with_chunk(doc_id, index, data);
    assert(w.uploads.dom() =~= v.uploads.dom());
    assert(w.campaigns_wf());
    assert(w.funding_wf());
    assert(w.docs_wf()) by {
        assert forall|u: u64| #[trigger] w.uploads.contains_key(u) implies w.docs.contains_key(
            u,
        ) by {
            assert(v.uploads.contains_key(u));
        }
    }
    assert(w.attachments_wf()) by {
        assert forall|k: u64, i: int|
            w.campaigns.contains_key(k) && 0 <= i < w.campaigns[k].doc_ids.len() implies {
            let d = #[trigger] w.campaigns[k].doc_ids[i];
            &&& w.docs.contains_key(d)
            &&& w.docs[d].campaign_id == k
            &&& !w.uploads.contains_key(d)
        } by {
            let d = v.campaigns[k].doc_ids[i];
            assert(!v.uploads.contains_key(d));
        }
        assert forall|d: u64| #[trigger]
            w.docs.contains_key(d) && !w.uploads.contains_key(d) implies w.campaigns[w.docs[d].campaign_id].doc_ids.contains(
            d,
        ) by {
            assert(v.docs.contains_key(d));
            assert(!v.uploads.contains_key(d));
        }
    }
}

/// Appending a value that a duplicate-free sequence does not hold keeps it
/// duplicate-free.
proof fn lemma_push_fresh(s: Seq<u64>, x: u64)
    requires
        s.no_duplicates(),
        !s.contains(x),
    ensures
        s.push(x).no_duplicates(),
{
    let t = s.push(x);
    assert forall|i: int, j: int| 0 <= i < t.len() && 0 <= j < t.len() && i != j implies t[i]
        != t[j] by {
        if i < s.len() && j < s.len() {
        } else if i < s.len() {
            assert(s[i] != x);
        } else {
            assert(s[j] != x);
        }
    }
}

/// Closing a session keeps the invariants.
proof fn lemma_finalized_wf(v: BackendView, doc_id: u64, now: u64)
    requires
        v.wf(),
        v.uploads.contains_key(doc_id),
    ensures
        v.finalized(doc_id, now).wf(),
{
    let w = v.finalized(doc_id, now);
    assert(v.docs.contains_key(doc_id));
    let cid = v.docs[doc_id].campaign_id;
    assert(v.campaigns.contains_key(cid));
    let listed = v.campaigns[cid].doc_ids;
    assert(!listed.contains(doc_id)) by {
        if listed.contains(doc_id) {
            let i = choose|i: int| 0 <= i < listed.len() && listed[i] == doc_id;
            assert(v.campaigns[cid].doc_ids[i] == doc_id);
        }
    }
    lemma_push_fresh(listed, doc_id);
    assert(w.campaigns.dom() =~= v.campaigns.dom());
    assert(w.docs.dom() =~= v.docs.dom());
    assert(w.campaigns_wf());
    assert(w.funding_wf()) by {
        assert forall|k: u64| #[trigger] w.campaigns.contains_key(k) implies w.campaigns[k].amount_raised
            == w.total_raised(k) by {
            assert(v.campaigns.contains_key(k));
        }
    }
    assert(w.docs_wf()) by {
        assert forall|d: u64| #[trigger] w.docs.contains_key(d) implies 1 <= d <= w.doc_counter
            && w.docs[d].id == d && w.campaigns.contains_key(w.docs[d].campaign_id) by {
            assert(v.docs.contains_key(d));
        }
        assert forall|u: u64| #[trigger] w.uploads.contains_key(u) implies w.docs.contains_key(
            u,
        ) by {
            assert(v.uploads.contains_key(u));
        }
    }
    assert(w.attachments_wf()) by {
        assert forall|k: u64, i: int|
            w.campaigns.contains_key(k) && 0 <= i < w.campaigns[k].doc_ids.len() implies {
            let d = #[trigger] w.campaigns[k].doc_ids[i];
            &&& w.docs.contains_key(d)
            &&& w.docs[d].campaign_id == k
            &&& !w.uploads.contains_key(d)
        } by {
            assert(v.campaigns.contains_key(k));
            if k == cid && i == listed.len() {
            } else {
                let d = v.campaigns[k].doc_ids[i];
                assert(v.docs.contains_key(d));
            }
        }
        assert forall|k: u64| #[trigger] w.campaigns.contains_key(k) implies w.campaigns[k].doc_ids.no_duplicates() by {
            assert(v.campaigns.contains_key(k));
        }
        assert forall|d: u64| #[trigger]
            w.docs.contains_key(d) && !w.uploads.contains_key(d) implies w.campaigns[w.docs[d].campaign_id].doc_ids.contains(
            d,
        ) by {
            assert(v.docs.contains_key(d));
            if d == doc_id {
                assert(listed.push(doc_id)[listed.len() as int] == doc_id);
            } else {
                assert(!v.uploads.contains_key(d));
                let c2 = v.docs[d].campaign_id;
                let l2 = v.campaigns[c2].doc_ids;
                assert(l2.contains(d));
                let i = choose|i: int| 0 <= i < l2.len() && l2[i] == d;
                if c2 == cid {
                    assert(listed.push(doc_id)[i] == d);
                }
            }
        }
    }
}

/// Storing a whole document keeps the invariants.
proof fn lemma_with_doc_wf(
    v: BackendView,
    campaign_id: u64,
    name: Seq<char>,
    content_type: Seq<char>,
    data: Seq<u8>,
    uploaded_at: u64,
    now: u64,
)
    requires
        v.wf(),
        v.campaigns.contains_key(campaign_id),
        v.doc_counter < u64::MAX,
    ensures
        v.with_doc(campaign_id, name, content_type, data, uploaded_at, now).wf(),
{
    let w = v.with_doc(campaign_id, name, content_type, data, uploaded_at, now);
    let id = (v.doc_counter + 1) as u64;
    let listed = v.campaigns[campaign_id].doc_ids;
    assert(!v.docs.contains_key(id));
    assert(!v.uploads.contains_key(id)) by {
        if v.uploads.contains_key(id) {
            assert(v.docs.contains_key(id));
        }
    }
    assert(!listed.contains(id)) by {
        if listed.contains(id) {
            let i = choose|i: int| 0 <= i < listed.len() && listed[i] == id;
            assert(v.campaigns[campaign_id].doc_ids[i] == id);
        }
    }
    lemma_push_fresh(listed, id);
    assert(w.campaigns.dom() =~= v.campaigns.dom());
    assert(w.campaigns_wf());
    assert(w.funding_wf()) by {
        assert forall|k: u64| #[trigger] w.campaigns.contains_key(k) implies w.campaigns[k].amount_raised
            == w.total_raised(k) by {
            assert(v.campaigns.contains_key(k));
        }
    }
    assert(w.docs_wf()) by {
        assert forall|d: u64| #[trigger] w.docs.contains_key(d) implies 1 <= d <= w.doc_counter
            && w.docs[d].id == d && w.campaigns.contains_key(w.docs[d].campaign_id) by {
            if d != id {
                assert(v.docs.contains_key(d));
            }
        }
        assert forall|u: u64| #[trigger] w.uploads.contains_key(u) implies w.docs.contains_key(
            u,
        ) by {
            assert(v.uploads.contains_key(u));
        }
    }
    assert(w.attachments_wf()) by {
        assert forall|k: u64, i: int|
            w.campaigns.contains_key(k) && 0 <= i < w.campaigns[k].doc_ids.len() implies {
            let d = #[trigger] w.campaigns[k].doc_ids[i];
            &&& w.docs.contains_key(d)
            &&& w.docs[d].campaign_id == k
            &&& !w.uploads.contains_key(d)
        } by {
            assert(v.campaigns.contains_key(k));
            if k == campaign_id && i == listed.len() {
            } else {
                let d = v.campaigns[k].doc_ids[i];
                assert(v.docs.contains_key(d));
            }
        }
        assert forall|k: u64| #[trigger] w.campaigns.contains_key(k) implies w.campaigns[k].doc_ids.no_duplicates() by {
            assert(v.campaigns.contains_key(k));
        }
        assert forall|d: u64| #[trigger]
            w.docs.contains_key(d) && !w.uploads.contains_key(d) implies w.campaigns[w.docs[d].campaign_id].doc_ids.contains(
            d,
        ) by {
            if d == id {
                assert(listed.push(id)[listed.len() as int] == id);
            } else {
                assert(v.docs.contains_key(d));
                assert(!v.uploads.contains_key(d));
                let c2 = v.docs[d].campaign_id;
                let l2 = v.campaigns[c2].doc_ids;
                assert(l2.contains(d));
                let i = choose|i: int| 0 <= i < l2.len() && l2[i] == d;
                if c2 == campaign_id {
                    assert(listed.push(id)[i] == d);
                }
            }
        }
    }
}

/// A new campaign keeps the invariants.
proof fn lemma_with_campaign_wf(v: BackendView, c: CampaignView)
    requires
        v.wf(),
        v.campaign_counter < u64::MAX,
        c.amount_raised == 0,
        c.doc_ids.len() == 0,
        c.created_at <= c.updated_at,
    ensures
        v.with_campaign(c).wf(),
{
    let w = v.with_campaign(c);
    let id = (v.campaign_counter + 1) as u64;
    assert(!v.campaigns.contains_key(id));
    assert(!v.icp.contains_key(id) && !v.traditional.contains_key(id) && !v.spv.contains_key(id));
    assert(w.campaigns_wf());
    assert(w.funding_wf()) by {
        assert forall|k: u64| #[trigger] w.campaigns.contains_key(k) implies w.campaigns[k].amount_raised
            == w.total_raised(k) by {
            if k != id {
                assert(v.campaigns.contains_key(k));
            }
        }
    }
    assert(w.docs_wf()) by {
        assert forall|d: u64| #[trigger] w.docs.contains_key(d) implies 1 <= d <= w.doc_counter
            && w.docs[d].id == d && w.campaigns.contains_key(w.docs[d].campaign_id) by {
            assert(v.docs.contains_key(d));
        }
    }
    assert(w.attachments_wf()) by {
        assert forall|k: u64, i: int|
            w.campaigns.contains_key(k) && 0 <= i < w.campaigns[k].doc_ids.len() implies {
            let d = #[trigger] w.campaigns[k].doc_ids[i];
            &&& w.docs.contains_key(d)
            &&& w.docs[d].campaign_id == k
            &&& !w.uploads.contains_key(d)
        } by {
            assert(k != id);
            assert(v.campaigns.contains_key(k));
            let d = v.campaigns[k].doc_ids[i];
        }
        assert forall|d: u64| #[trigger]
            w.docs.contains_key(d) && !w.uploads.contains_key(d) implies w.campaigns[w.docs[d].campaign_id].doc_ids.contains(
            d,
        ) by {
            assert(v.docs.contains_key(d));
            assert(v.campaigns.contains_key(v.docs[d].campaign_id));
        }
    }
}

/// A contribution keeps the invariants.
proof fn lemma_credited_wf(v: BackendView, channel: Channel, id: u64, amount: u64, now: u64)
    requires
        v.wf(),
        v.campaigns.contains_key(id),
        v.campaigns[id].amount_raised + amount <= u64::MAX,
    ensures
        v.credited(channel, id, amount, now).wf(),
{
    let w = v.credited(channel, id, amount, now);
    assert(v.campaigns[id].amount_raised == v.total_raised(id));
    assert(w.campaigns_wf()) by {
        assert forall|k: u64| #[trigger] w.campaigns.contains_key(k) <==> 1 <= k
            <= w.campaign_counter by {
            assert(v.campaigns.contains_key(k) <==> 1 <= k <= v.campaign_counter);
        }
    }
    assert(w.funding_wf()) by {
        assert forall|k: u64| #[trigger] w.campaigns.contains_key(k) implies w.campaigns[k].amount_raised
            == w.total_raised(k) by {
            assert(v.campaigns.contains_key(k));
        }
    }
    assert(w.docs_wf()) by {
        assert forall|d: u64| #[trigger] w.docs.contains_key(d) implies 1 <= d <= w.doc_counter
            && w.docs[d].id == d && w.campaigns.contains_key(w.docs[d].campaign_id) by {
            assert(v.docs.contains_key(d));
        }
    }
    assert(w.attachments_wf()) by {
        assert forall|k: u64, i: int|
            w.campaigns.contains_key(k) && 0 <= i < w.campaigns[k].doc_ids.len() implies {
            let d = #[trigger] w.campaigns[k].doc_ids[i];
            &&& w.docs.contains_key(d)
            &&& w.docs[d].campaign_id == k
            &&& !w.uploads.contains_key(d)
        } by {
            assert(v.campaigns.contains_key(k));
            let d = v.campaigns[k].doc_ids[i];
        }
        assert forall|k: u64| #[trigger] w.campaigns.contains_key(k) implies w.campaigns[k].doc_ids.no_duplicates() by {
            assert(v.campaigns.contains_key(k));
        }
        assert forall|d: u64| #[trigger]
            w.docs.contains_key(d) && !w.uploads.contains_key(d) implies w.campaigns[w.docs[d].campaign_id].doc_ids.contains(
            d,
        ) by {
            assert(v.docs.contains_key(d));
            assert(v.campaigns.contains_key(v.docs[d].campaign_id));
        }
    }
}

/// What the deal controller is asked when a deal is to be created.
#[derive(Debug)]
pub struct DealRequest {
    pub controller: Principal,
    pub startup_id: String,
    pub equity_percent: u8,
    pub total_raise: u64,
    pub fraction_price: u64,
}

/// The name under which campaign `campaign_id` is known to the deal
/// controller.
pub open spec fn startup_name(campaign_id: u64) -> Seq<char> {
    "campaign_"@ + decimal(campaign_id as nat)
}

/// Whether `r` is the error `ExternalCallFailure` with the message `msg`.
pub open spec fn is_call_failure<T>(r: Result<T, BackendError>, msg: Seq<char>) -> bool {
    r matches Err(BackendError::ExternalCallFailure(m)) && m@ == msg
}

impl Backend {
    /// The cards of all campaigns at time `now_secs`, by ascending id.
    pub fn get_campaign_cards(&self, now_secs: u64) -> (r: Vec<CampaignCard>)
        requires
            self.wf(),
        ensures
            card_views(r@) == cards_of(self@.campaigns, now_secs),
    {
        let r = self.store.cards(None, now_secs);
        proof {
            lemma_filter_all(
                cards_of(self@.campaigns, now_secs),
                |card: CampaignCardView| card_selected(card, None, now_secs),
            );
        }
        r
    }

    /// The cards of the campaigns that count as `status` at time `now_secs`,
    /// by ascending id.
    pub fn get_campaign_cards_by_status(&self, status: CampaignStatus, now_secs: u64) -> (r: Vec<
        CampaignCard,
    >)
        requires
            self.wf(),
        ensures
            card_views(r@) == cards_of(self@.campaigns, now_secs).filter(
                |card: CampaignCardView| card_has_status(card, status, now_secs),
            ),
    {
        let r = self.store.cards(Some(status), now_secs);
        proof {
            lemma_filter_same(
                cards_of(self@.campaigns, now_secs),
                |card: CampaignCardView| card_selected(card, Some(status), now_secs),
                |card: CampaignCardView| card_has_status(card, status, now_secs),
            );
        }
        r
    }

    /// Names the deal controller. Only the service itself may do so.
    pub fn set_controller_canister(
        &mut self,
        caller: Principal,
        own_id: Principal,
        controller: Principal,
    )
        requires
            old(self).wf(),
            caller == own_id,
        ensures
            final(self).wf(),
            final(self)@ == (BackendView { controller: Some(controller), ..old(self)@ }),
    {
        self.controller = Some(controller);
    }

    /// Names the payment gateway. Only the service itself may do so.
    pub fn set_payment_gateway_canister(
        &mut self,
        caller: Principal,
        own_id: Principal,
        payment_gateway: Principal,
    )
        requires
            old(self).wf(),
            caller == own_id,
        ensures
            final(self).wf(),
            final(self)@ == (BackendView { payment_gateway: Some(payment_gateway), ..old(self)@ }),
    {
        self.payment_gateway = Some(payment_gateway);
    }

    /// Names the admin service. Only the service itself may do so.
    pub fn set_admin_canister(&mut self, caller: Principal, own_id: Principal, admin: Principal)
        requires
            old(self).wf(),
            caller == own_id,
        ensures
            final(self).wf(),
            final(self)@ == (BackendView { admin: Some(admin), ..old(self)@ }),
    {
        self.admin = Some(admin);
    }

    /// First half of creating an SPV deal: checks that the campaign exists
    /// and that a controller is named, and says what to ask the controller.
    /// Nothing is changed.
    pub fn begin_create_spv_deal(
        &self,
        campaign_id: u64,
        equity_percent: u8,
        total_raise: u64,
        fraction_price: u64,
    ) -> (r: Result<DealRequest, BackendError>)
        requires
            self.wf(),
        ensures
            !self@.campaigns.contains_key(campaign_id) ==> r == Err::<DealRequest, BackendError>(
                BackendError::CampaignNotFound,
            ),
            self@.campaigns.contains_key(campaign_id) && self@.controller is None ==> r == Err::<
                DealRequest,
                BackendError,
            >(BackendError::ControllerNotSet),
            self@.campaigns.contains_key(campaign_id) && self@.controller is Some ==> r is Ok
                && r->Ok_0.controller == self@.controller->Some_0 && r->Ok_0.startup_id@
                == startup_name(campaign_id) && r->Ok_0.equity_percent == equity_percent
                && r->Ok_0.total_raise == total_raise && r->Ok_0.fraction_price == fraction_price,
    {
        if !self.store.contains(campaign_id) {
            return Err(BackendError::CampaignNotFound);
        }
        let controller = match self.controller {
            Some(c) => c,
            None => {
                return Err(BackendError::ControllerNotSet);
            },
        };
        let mut startup_id = "campaign_".to_owned();
        startup_id.append(u64_to_string(campaign_id).as_str());
        Ok(DealRequest { controller, startup_id, equity_percent, total_raise, fraction_price })
    }

    /// Second half of creating an SPV deal: takes what the controller
    /// answered. A deal id is recorded for the campaign, which is looked up
    /// again since time has passed; a failure is reported with the reason
    /// and changes nothing.
    pub fn finish_create_spv_deal(&mut self, campaign_id: u64, outcome: Result<u64, String>) -> (r:
        Result<u64, BackendError>)
        requires
            old(self).wf(),
        ensures
            final(self).wf(),
            r is Err ==> final(self)@ == old(self)@,
            outcome is Err ==> is_call_failure(
                r,
                "Failed to create SPV deal: "@ + outcome->Err_0@,
            ),
            outcome is Ok && !old(self)@.campaigns.contains_key(campaign_id) ==> r == Err::<
                u64,
                BackendError,
            >(BackendError::CampaignNotFound),
            outcome is Ok && old(self)@.campaigns.contains_key(campaign_id) ==> r == Ok::<
                u64,
                BackendError,
            >(outcome->Ok_0) && final(self)@ == (BackendView {
                spv_deals: old(self)@.spv_deals.insert(campaign_id, outcome->Ok_0),
                ..old(self)@
            }),
    {
        broadcast use group_hash_axioms;

        match outcome {
            Ok(deal_id) => {
                if !self.store.contains(campaign_id) {
                    return Err(BackendError::CampaignNotFound);
                }
                self.spv_deals.insert(campaign_id, deal_id);
                Ok(deal_id)
            },
            Err(detail) => {
                let mut message = "Failed to create SPV deal: ".to_owned();
                message.append(detail.as_str());
                Err(BackendError::ExternalCallFailure(message))
            },
        }
    }

    /// The deal of a campaign, as a list of at most one id.
    pub fn get_spv_deals_for_campaign(&self, campaign_id: u64) -> (r: Vec<u64>)
        ensures
            r@ == if self@.spv_deals.contains_key(campaign_id) {
                seq![self@.spv_deals[campaign_id]]
            } else {
                Seq::<u64>::empty()
            },
    {
        broadcast use group_hash_axioms;

        let mut out: Vec<u64> = Vec::new();
        match self.spv_deals.get(&campaign_id) {
            Some(deal_id) => {
                out.push(*deal_id);
                assert(out@ =~= seq![self@.spv_deals[campaign_id]]);
            },
            None => {},
        }
        out
    }

    /// Records that campaign `campaign_id` belongs to the deal `deal_id`.
    pub fn link_campaign_to_spv(&mut self, campaign_id: u64, deal_id: u64) -> (r: Result<
        (),
        BackendError,
    >)
        requires
            old(self).wf(),
        ensures
            final(self).wf(),
            !old(self)@.campaigns.contains_key(campaign_id) ==> r == Err::<(), BackendError>(
                BackendError::CampaignNotFound,
            ) && final(self)@ == old(self)@,
            old(self)@.campaigns.contains_key(campaign_id) ==> r is Ok && final(self)@
                == (BackendView {
                spv_deals: old(self)@.spv_deals.insert(campaign_id, deal_id),
                ..old(self)@
            }),
    {
        broadcast use group_hash_axioms;

        if !self.store.contains(campaign_id) {
            return Err(BackendError::CampaignNotFound);
        }
        self.spv_deals.insert(campaign_id, deal_id);
        Ok(())
    }

    /// What is known here of the deal of a campaign: its id. The terms are
    /// with the controller and are left at zero. Nothing is returned where
    /// the campaign has no deal or no controller is named.
    pub fn get_spv_deal_info(&self, campaign_id: u64) -> (r: Option<SPVDealInfo>)
        ensures
            r is Some == (self@.spv_deals.contains_key(campaign_id) && self@.controller is Some),
            r is Some ==> r->Some_0.deal_id == self@.spv_deals[campaign_id]
                && r->Some_0.campaign_id == campaign_id && r->Some_0.equity_percent == 0
                && r->Some_0.total_raise == 0 && r->Some_0.fraction_price == 0
                && r->Some_0.spv_canister is None && r->Some_0.spv_token_canister is None,
    {
        broadcast use group_hash_axioms;

        let deal_id = match self.spv_deals.get(&campaign_id) {
            Some(d) => *d,
            None => {
                return None;
            },
        };
        if self.controller.is_none() {
            return None;
        }
        Some(
            SPVDealInfo {
                deal_id,
                campaign_id,
                equity_percent: 0,
                total_raise: 0,
                fraction_price: 0,
                spv_canister: None,
                spv_token_canister: None,
            },
        )
    }

    /// Says whom to ask for the payment methods of `user`, or of the caller
    /// where no user is given: the gateway and the principal in question.
    pub fn begin_get_user_payment_methods(&self, user: Option<Principal>, caller: Principal) -> (r:
        Result<(Principal, Principal), BackendError>)
        ensures
            self@.payment_gateway is None ==> r == Err::<(Principal, Principal), BackendError>(
                BackendError::PaymentGatewayNotSet,
            ),
            self@.payment_gateway is Some ==> r == Ok::<(Principal, Principal), BackendError>(
                (
                    self@.payment_gateway->Some_0,
                    if user is Some {
                        user->Some_0
                    } else {
                        caller
                    },
                ),
            ),
    {
        let gateway = match self.payment_gateway {
            Some(g) => g,
            None => {
                return Err(BackendError::PaymentGatewayNotSet);
            },
        };
        let who = match user {
            Some(u) => u,
            None => caller,
        };
        Ok((gateway, who))
    }

    /// Puts a campaign up for approval and says which admin service, if one
    /// is named, is to be told.
    pub fn submit_campaign_for_approval(&mut self, campaign_id: u64, now: u64) -> (r: Result<
        Option<Principal>,
        BackendError,
    >)
        requires
            old(self).wf(),
        ensures
            final(self).wf(),
            !old(self)@.campaigns.contains_key(campaign_id) ==> r == Err::<
                Option<Principal>,
                BackendError,
            >(BackendError::CampaignNotFound) && final(self)@ == old(self)@,
            old(self)@.campaigns.contains_key(campaign_id) ==> r == Ok::<
                Option<Principal>,
                BackendError,
            >(old(self)@.admin) && final(self)@ == old(self)@.with_status(
                campaign_id,
                "pending_approval"@,
                now,
            ),
    {
        if !self.store.contains(campaign_id) {
            return Err(BackendError::CampaignNotFound);
        }
        self.store.set_status(campaign_id, "pending_approval", now);
        proof {
            assert(self@ == old(self)@.with_status(campaign_id, "pending_approval"@, now));
            lemma_with_status_wf(old(self)@, campaign_id, "pending_approval"@, now);
        }
        Ok(self.admin)
    }

    /// The status text of a campaign.
    pub fn get_campaign_approval_status(&self, campaign_id: u64) -> (r: Option<String>)
        requires
            self.wf(),
        ensures
            opt_text(r) == if self@.campaigns.contains_key(campaign_id) {
                self@.campaigns[campaign_id].status
            } else {
                None
            },
    {
        match self.store.get(campaign_id) {
            Some(c) => c.status,
            None => None,
        }
    }

    /// Marks a campaign as approved. Only the admin service may do so.
    pub fn approve_campaign(&mut self, caller: Principal, campaign_id: u64, now: u64) -> (r: Result<
        (),
        BackendError,
    >)
        requires
            old(self).wf(),
        ensures
            final(self).wf(),
            r is Err ==> final(self)@ == old(self)@,
            old(self)@.admin != Some(caller) ==> r == Err::<(), BackendError>(
                BackendError::NotAuthorized,
            ),
            old(self)@.admin == Some(caller) && !old(self)@.campaigns.contains_key(campaign_id)
                ==> r == Err::<(), BackendError>(BackendError::CampaignNotFound),
            old(self)@.admin == Some(caller) && old(self)@.campaigns.contains_key(campaign_id)
                ==> r is Ok && final(self)@ == old(self)@.with_status(
                campaign_id,
                "approved"@,
                now,
            ),
    {
        let is_admin = match self.admin {
            Some(admin) => admin == caller,
            None => false,
        };
        if !is_admin {
            return Err(BackendError::NotAuthorized);
        }
        if !self.store.contains(campaign_id) {
            return Err(BackendError::CampaignNotFound);
        }
        self.store.set_status(campaign_id, "approved", now);
        proof {
            assert(self@ == old(self)@.with_status(campaign_id, "approved"@, now));
            lemma_with_status_wf(old(self)@, campaign_id, "approved"@, now);
        }
        Ok(())
    }
}

/// A new status text keeps the invariants.
proof fn lemma_with_status_wf(v: BackendView, id: u64, status: Seq<char>, now: u64)
    requires
        v.wf(),
        v.campaigns.contains_key(id),
    ensures
        v.with_status(id, status, now).wf(),
{
    let w = v.with_status(id, status, now);
    assert(w.campaigns.dom() =~= v.campaigns.dom());
    assert(w.campaigns_wf());
    assert(w.funding_wf()) by {
        assert forall|k: u64| #[trigger] w.campaigns.contains_key(k) implies w.campaigns[k].amount_raised
            == w.total_raised(k) by {
            assert(v.campaigns.contains_key(k));
        }
    }
    assert(w.docs_wf()) by {
        assert forall|d: u64| #[trigger] w.docs.contains_key(d) implies 1 <= d <= w.doc_counter
            && w.docs[d].id == d && w.campaigns.contains_key(w.docs[d].campaign_id) by {
            assert(v.docs.contains_key(d));
        }
    }
    assert(w.attachments_wf()) by {
        assert forall|k: u64, i: int|
            w.campaigns.contains_key(k) && 0 <= i < w.campaigns[k].doc_ids.len() implies {
            let d = #[trigger] w.campaigns[k].doc_ids[i];
            &&& w.docs.contains_key(d)
            &&& w.docs[d].campaign_id == k
            &&& !w.uploads.contains_key(d)
        } by {
            assert(v.campaigns.contains_key(k));
            let d = v.campaigns[k].doc_ids[i];
        }
        assert forall|k: u64| #[trigger] w.campaigns.contains_key(k) implies w.campaigns[k].doc_ids.no_duplicates() by {
            assert(v.campaigns.contains_key(k));
        }
        assert forall|d: u64| #[trigger]
            w.docs.contains_key(d) && !w.uploads.contains_key(d) implies w.campaigns[w.docs[d].campaign_id].doc_ids.contains(
            d,
        ) by {
            assert(v.docs.contains_key(d));
            assert(v.campaigns.contains_key(v.docs[d].campaign_id));
        }
    }
}

/// Channels only grow. A contribution raises its channel for its campaign
/// by the amount and leaves every other channel and campaign as it was, so
/// no channel ever holds less than before.
pub proof fn lemma_channels_only_grow(
    v: BackendView,
    channel: Channel,
    id: u64,
    amount: u64,
    now: u64,
    other: Channel,
    k: u64,
)
    requires
        v.wf(),
        v.campaigns.contains_key(id),
        v.campaigns[id].amount_raised + amount <= u64::MAX,
    ensures
        v.credited(channel, id, amount, now).raised(other, k) == if other == channel && k == id {
            v.raised(other, k) + amount
        } else {
            v.raised(other, k) as int
        },
        v.credited(channel, id, amount, now).raised(other, k) >= v.raised(other, k),
        v.credited(channel, id, amount, now).total_raised(id) == v.total_raised(id) + amount,
{
    assert(v.campaigns[id].amount_raised == v.total_raised(id));
}

/// A document is hidden while its session is open: no campaign lists it.
pub proof fn lemma_open_session_is_not_listed(v: BackendView, doc_id: u64, campaign_id: u64)
    requires
        v.wf(),
        v.uploads.contains_key(doc_id),
        v.campaigns.contains_key(campaign_id),
    ensures
        !v.campaigns[campaign_id].doc_ids.contains(doc_id),
{
    let listed = v.campaigns[campaign_id].doc_ids;
    if listed.contains(doc_id) {
        let i = choose|i: int| 0 <= i < listed.len() && listed[i] == doc_id;
        assert(v.campaigns[campaign_id].doc_ids[i] == doc_id);
    }
}

/// Documents in one piece. Storing a document whole leaves the state that
/// opening a session with a single slot and sending that slot as the final
/// chunk would leave.
pub proof fn lemma_upload_doc_is_one_chunk_session(
    v: BackendView,
    campaign_id: u64,
    name: Seq<char>,
    content_type: Seq<char>,
    data: Seq<u8>,
    uploaded_at: u64,
    now: u64,
)
    requires
        v.wf(),
        v.campaigns.contains_key(campaign_id),
        v.doc_counter < u64::MAX,
    ensures
        v.with_doc(campaign_id, name, content_type, data, uploaded_at, now) == v.started(
            campaign_id,
            name,
            content_type,
            1,
            uploaded_at,
        ).with_chunk((v.doc_counter + 1) as u64, 0, data).finalized(
            (v.doc_counter + 1) as u64,
            now,
        ),
        complete(empty_slots(1).update(0, Some(data))),
{
    let id = (v.doc_counter + 1) as u64;
    let a = v.with_doc(campaign_id, name, content_type, data, uploaded_at, now);
    let s = v.started(campaign_id, name, content_type, 1, uploaded_at);
    let c = s.with_chunk(id, 0, data);
    let b = c.finalized(id, now);
    let slots = empty_slots(1).update(0, Some(data));
    assert(!v.docs.contains_key(id));
    assert(!v.uploads.contains_key(id)) by {
        if v.uploads.contains_key(id) {
            assert(v.docs.contains_key(id));
        }
    }
    assert(c.uploads[id] == slots);
    assert(joined(slots) =~= data) by {
        assert(slots.drop_last() =~= Seq::<Option<Seq<u8>>>::empty());
        reveal_with_fuel(joined, 2);
    }
    assert(b.uploads =~= a.uploads);
    assert(b.docs =~= a.docs);
    assert(b.campaigns =~= a.campaigns);
}

} // verus!
