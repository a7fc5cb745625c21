//! Campaign records and the store that keeps them by id.

use crate::index::SlotIndex;
use crate::table::{by_key, lemma_values_below_gap, values_below};
use crate::text::{clone_opt_text, opt_text};
use vstd::prelude::*;

verus! {

#[derive(Debug)]
pub struct Campaign {
    pub id: u64,
    pub title: String,
    pub description: String,
    pub funding_goal: u64,
    pub current_funding: u64,
    pub legal_entity: String,
    pub status: Option<String>,
    pub contact_info: String,
    pub category: String,
    pub business_registration: u8,
    pub created_at: u64,
    pub updated_at: u64,
    pub doc_ids: Vec<u64>,
    pub amount_raised: u64,
    pub goal: u64,
    pub end_date: u64,
}

pub struct CampaignView {
    pub id: u64,
    pub title: Seq<char>,
    pub description: Seq<char>,
    pub funding_goal: u64,
    pub current_funding: u64,
    pub legal_entity: Seq<char>,
    pub status: Option<Seq<char>>,
    pub contact_info: Seq<char>,
    pub category: Seq<char>,
    pub business_registration: u8,
    pub created_at: u64,
    pub updated_at: u64,
    pub doc_ids: Seq<u64>,
    pub amount_raised: u64,
    pub goal: u64,
    pub end_date: u64,
}

impl View for Campaign {
    type V = CampaignView;

    open spec fn view(&self) -> CampaignView {
        CampaignView {
            id: self.id,
            title: self.title@,
            description: self.description@,
            funding_goal: self.funding_goal,
            current_funding: self.current_funding,
            legal_entity: self.legal_entity@,
            status: opt_text(self.status),
            contact_info: self.contact_info@,
            category: self.category@,
            business_registration: self.business_registration,
            created_at: self.created_at,
            updated_at: self.updated_at,
            doc_ids: self.doc_ids@,
            amount_raised: self.amount_raised,
            goal: self.goal,
            end_date: self.end_date,
        }
    }
}

impl Clone for Campaign {
    fn clone(&self) -> (r: Self)
        ensures
            r@ == self@,
    {
        let doc_ids = self.doc_ids.clone();
        assert(doc_ids@ =~= self.doc_ids@);
        Campaign {
            id: self.id,
            title: self.title.clone(),
            description: self.description.clone(),
            funding_goal: self.funding_goal,
            current_funding: self.current_funding,
            legal_entity: self.legal_entity.clone(),
            status: clone_opt_text(&self.status),
            contact_info: self.contact_info.clone(),
            category: self.category.clone(),
            business_registration: self.business_registration,
            created_at: self.created_at,
            updated_at: self.updated_at,
            doc_ids,
            amount_raised: self.amount_raised,
            goal: self.goal,
            end_date: self.end_date,
        }
    }
}

#[derive(Debug)]
pub struct CampaignCard {
    pub id: u64,
    pub title: String,
    pub category: String,
    pub amount_raised: u64,
    pub goal: u64,
    pub end_date: u64,
    pub days_left: i64,
}

pub struct CampaignCardView {
    pub id: u64,
    pub title: Seq<char>,
    pub category: Seq<char>,
    pub amount_raised: u64,
    pub goal: u64,
    pub end_date: u64,
    pub days_left: i64,
}

impl View for CampaignCard {
    type V = CampaignCardView;

    open spec fn view(&self) -> CampaignCardView {
        CampaignCardView {
            id: self.id,
            title: self.title@,
            category: self.category@,
            amount_raised: self.amount_raised,
            goal: self.goal,
            end_date: self.end_date,
            days_left: self.days_left,
        }
    }
}

#[derive(Clone, Copy, Debug, PartialEq, Eq, Structural)]
pub enum CampaignStatus {
    Active,
    Ended,
}

#[derive(Debug)]
pub struct CampaignWithDetails {
    pub campaign: CampaignCard,
    pub details: Campaign,
}

#[derive(Clone, Copy, Debug, PartialEq, Eq, Structural)]
pub struct CampaignMeta {
    pub campaign_id: u64,
    pub goal: u64,
    pub amount_raised: u64,
    pub end_date_secs: u64,
}

/// The later of two times.
pub open spec fn later(a: u64, b: u64) -> u64 {
    if a >= b {
        a
    } else {
        b
    }
}

/// Seconds in a day.
pub const SECONDS_PER_DAY: u64 = 86_400;

/// Whole days from `now_secs` to `end_date`, rounded towards zero; negative
/// once the end date has passed by a day or more.
pub open spec fn days_between(end_date: u64, now_secs: u64) -> int {
    if end_date >= now_secs {
        (end_date - now_secs) / 86_400
    } else {
        -((now_secs - end_date) / 86_400)
    }
}

/// The card of a campaign at time `now_secs`.
pub open spec fn card_of(c: CampaignView, now_secs: u64) -> CampaignCardView {
    CampaignCardView {
        id: c.id,
        title: c.title,
        category: c.category,
        amount_raised: c.amount_raised,
        goal: c.goal,
        end_date: c.end_date,
        days_left: days_between(c.end_date, now_secs) as i64,
    }
}

/// Whether a card counts as `status` at time `now_secs`: a campaign is
/// active up to and including its end date, and ended after it.
pub open spec fn card_has_status(card: CampaignCardView, status: CampaignStatus, now_secs: u64) -> bool {
    match status {
        CampaignStatus::Active => card.end_date >= now_secs,
        CampaignStatus::Ended => card.end_date < now_secs,
    }
}

/// The summary card of a campaign as seen at `now_secs` (seconds since the
/// epoch).
pub fn to_card(c: &Campaign, now_secs: u64) -> (card: CampaignCard)
    ensures
        card@ == card_of(c@, now_secs),
        -213_503_982_334_601 <= card.days_left <= 213_503_982_334_601,
{
    let days_left: i64 = if c.end_date >= now_secs {
        ((c.end_date - now_secs) / SECONDS_PER_DAY) as i64
    } else {
        -(((now_secs - c.end_date) / SECONDS_PER_DAY) as i64)
    };
    CampaignCard {
        id: c.id,
        title: c.title.clone(),
        category: c.category.clone(),
        amount_raised: c.amount_raised,
        goal: c.goal,
        end_date: c.end_date,
        days_left,
    }
}

/// Whether `card` is listed under `status` at time `now_secs`.
fn card_matches(card: &CampaignCard, status: CampaignStatus, now_secs: u64) -> (r: bool)
    requires
        card.days_left == days_between(card.end_date, now_secs),
    ensures
        r == card_has_status(card@, status, now_secs),
{
    match status {
        CampaignStatus::Active => card.days_left >= 0 && card.end_date >= now_secs,
        CampaignStatus::Ended => card.days_left < 0 || card.end_date < now_secs,
    }
}

/// The campaigns with ids `1..=n`, where `records[i]` has id `i + 1`.
pub open spec fn campaigns_of(records: Seq<CampaignView>) -> Map<u64, CampaignView> {
    Map::new(|id: u64| 1 <= id <= records.len(), |id: u64| records[id - 1])
}

/// Listing the campaigns with ids `1..=n` by ascending id gives the records
/// in their order.
pub proof fn lemma_by_key_campaigns(records: Seq<CampaignView>)
    requires
        records.len() <= u64::MAX,
    ensures
        by_key(campaigns_of(records)) == records,
{
    lemma_campaigns_below(records, records.len());
    lemma_values_below_gap(campaigns_of(records), records.len() + 1, u64::MAX as nat + 1);
    assert(records.subrange(0, records.len() as int) =~= records);
}

/// Listing the campaigns with ids up to `n` gives the first `n` records.
proof fn lemma_campaigns_below(records: Seq<CampaignView>, n: nat)
    requires
        n <= records.len() <= u64::MAX,
    ensures
        values_below(campaigns_of(records), n + 1) == records.subrange(0, n as int),
    decreases n,
{
    let m = campaigns_of(records);
    if n == 0 {
        assert(!m.contains_key(0));
        assert(values_below(m, 1) == values_below(m, 0));
        assert(records.subrange(0, 0) =~= Seq::<CampaignView>::empty());
    } else {
        lemma_campaigns_below(records, (n - 1) as nat);
        assert(m.contains_key(n as u64));
        assert(records.subrange(0, n as int) =~= records.subrange(0, n - 1).push(records[n - 1]));
    }
}

/// The cards of a list, each as its view.
pub open spec fn card_views(s: Seq<CampaignCard>) -> Seq<CampaignCardView> {
    s.map_values(|c: CampaignCard| c@)
}

/// The cards of all campaigns at time `now_secs`, by ascending id.
pub open spec fn cards_of(m: Map<u64, CampaignView>, now_secs: u64) -> Seq<CampaignCardView> {
    by_key(m).map_values(|c: CampaignView| card_of(c, now_secs))
}

/// Whether a listing that asks for `status`, or for all campaigns, shows `card`.
pub open spec fn card_selected(
    card: CampaignCardView,
    status: Option<CampaignStatus>,
    now_secs: u64,
) -> bool {
    match status {
        Some(s) => card_has_status(card, s, now_secs),
        None => true,
    }
}

/// Campaigns under the ids `1, 2, ..` in the order of their creation. An
/// ordered index of its own leads from each id to the slot of its record.
pub struct CampaignStore {
    index: SlotIndex,
    records: Vec<Campaign>,
}

impl View for CampaignStore {
    type V = Map<u64, CampaignView>;

    closed spec fn view(&self) -> Map<u64, CampaignView> {
        campaigns_of(self.records@.map_values(|c: Campaign| c@))
    }
}

impl CampaignStore {
    /// How many campaigns were created; also the id of the latest.
    pub closed spec fn counter(&self) -> nat {
        self.records@.len()
    }

    /// The index holds the slot of every record, and every record carries its
    /// own id.
    pub closed spec fn wf(&self) -> bool {
        &&& self.records@.len() <= u64::MAX
        &&& self.index@ == Map::new(
            |id: u64| 1 <= id <= self.records@.len(),
            |id: u64| (id - 1) as u64,
        )
        &&& forall|i: int| 0 <= i < self.records@.len() ==> (#[trigger] self.records@[i]).id == i + 1
    }

    /// The ids in use are `1..=counter`, and each campaign carries its id.
    pub proof fn lemma_wf(&self)
        requires
            self.wf(),
        ensures
            self.counter() <= u64::MAX,
            forall|id: u64| #[trigger] self@.contains_key(id) <==> 1 <= id <= self.counter(),
            forall|id: u64| #[trigger] self@.contains_key(id) ==> self@[id].id == id,
    {
    }

    pub fn new() -> (s: Self)
        ensures
            s.wf(),
            s.counter() == 0,
            s@ == Map::<u64, CampaignView>::empty(),
    {
        let s = CampaignStore { index: SlotIndex::new(), records: Vec::new() };
        assert(s.index@ =~= Map::new(
            |id: u64| 1 <= id <= s.records@.len(),
            |id: u64| (id - 1) as u64,
        ));
        assert(s@ =~= Map::<u64, CampaignView>::empty());
        s
    }

    /// How many campaigns were created.
    pub fn count(&self) -> (n: u64)
        requires
            self.wf(),
        ensures
            n == self.counter(),
    {
        self.records.len() as u64
    }

    /// The slot of campaign `id`.
    fn slot(&self, id: u64) -> (r: Option<usize>)
        requires
            self.wf(),
        ensures
            r is Some == self@.contains_key(id),
            r is Some ==> r->Some_0 == id - 1 && r->Some_0 < self.records@.len(),
    {
        match self.index.get(id) {
            Some(s) => {
                assert(self.index@.contains_key(id));
                let len = self.records.len();
                assert(s == id - 1 && s < len);
                Some(s as usize)
            },
            None => None,
        }
    }

    pub fn contains(&self, id: u64) -> (r: bool)
        requires
            self.wf(),
        ensures
            r == self@.contains_key(id),
    {
        self.index.contains_key(id)
    }

    pub fn get(&self, id: u64) -> (r: Option<Campaign>)
        requires
            self.wf(),
        ensures
            r is Some == self@.contains_key(id),
            r is Some ==> r->Some_0@ == self@[id],
    {
        match self.slot(id) {
            Some(s) => Some(self.records[s].clone()),
            None => None,
        }
    }

    /// Stores `campaign` under the next id and returns that id.
    pub fn add(&mut self, campaign: Campaign) -> (id: u64)
        requires
            old(self).wf(),
            old(self).counter() < u64::MAX,
        ensures
            final(self).wf(),
            id == old(self).counter() + 1,
            final(self).counter() == id,
            final(self)@ == old(self)@.insert(id, CampaignView { id, ..campaign@ }),
    {
        let slot = self.records.len() as u64;
        let id = slot + 1;
        let mut campaign = campaign;
        campaign.id = id;
        self.records.push(campaign);
        self.index.insert(id, slot);
        assert(self.index@ =~= Map::new(
            |id: u64| 1 <= id <= self.records@.len(),
            |id: u64| (id - 1) as u64,
        ));
        assert(self@ =~= old(self)@.insert(id, CampaignView { id, ..campaign@ }));
        id
    }

    /// Sets the raised amount of campaign `id` and stamps the change: the
    /// time of the last update moves to `now` unless it is later already. A
    /// missing campaign is left missing.
    pub fn update_campaign_amount(&mut self, id: u64, new_amount: u64, now: u64)
        requires
            old(self).wf(),
        ensures
            final(self).wf(),
            final(self).counter() == old(self).counter(),
            final(self)@ == if old(self)@.contains_key(id) {
                old(self)@.insert(
                    id,
                    CampaignView { amount_raised: new_amount, updated_at: later(old(self)@[id].updated_at, now), ..old(self)@[id] },
                )
            } else {
                old(self)@
            },
    {
        match self.slot(id) {
            Some(s) => {
                self.records[s].amount_raised = new_amount;
                if now > self.records[s].updated_at {
                    self.records[s].updated_at = now;
                }
                assert(self@ =~= old(self)@.insert(
                    id,
                    CampaignView { amount_raised: new_amount, updated_at: later(old(self)@[id].updated_at, now), ..old(self)@[id] },
                ));
            },
            None => {},
        }
    }

    /// Adds `amount` to the current funding of campaign `id`, stopping at the
    /// largest value, and stamps the change.
    pub fn add_current_funding(&mut self, id: u64, amount: u64, now: u64)
        requires
            old(self).wf(),
        ensures
            final(self).wf(),
            final(self).counter() == old(self).counter(),
            final(self)@ == if old(self)@.contains_key(id) {
                old(self)@.insert(
                    id,
                    CampaignView {
                        current_funding: if old(self)@[id].current_funding + amount > u64::MAX {
                            u64::MAX
                        } else {
                            (old(self)@[id].current_funding + amount) as u64
                        },
                        updated_at: later(old(self)@[id].updated_at, now),
                        ..old(self)@[id]
                    },
                )
            } else {
                old(self)@
            },
    {
        match self.slot(id) {
            Some(s) => {
                let raised = self.records[s].current_funding.saturating_add(amount);
                self.records[s].current_funding = raised;
                if now > self.records[s].updated_at {
                    self.records[s].updated_at = now;
                }
                assert(self@ =~= old(self)@.insert(
                    id,
                    CampaignView { current_funding: raised, updated_at: later(old(self)@[id].updated_at, now), ..old(self)@[id] },
                ));
            },
            None => {},
        }
    }

    /// Appends `doc_id` to the documents of campaign `id` and stamps the
    /// change.
    pub fn attach_doc(&mut self, id: u64, doc_id: u64, now: u64)
        requires
            old(self).wf(),
        ensures
            final(self).wf(),
            final(self).counter() == old(self).counter(),
            final(self)@ == if old(self)@.contains_key(id) {
                old(self)@.insert(
                    id,
                    CampaignView {
                        doc_ids: old(self)@[id].doc_ids.push(doc_id),
                        updated_at: later(old(self)@[id].updated_at, now),
                        ..old(self)@[id]
                    },
                )
            } else {
                old(self)@
            },
    {
        match self.slot(id) {
            Some(s) => {
                self.records[s].doc_ids.push(doc_id);
                if now > self.records[s].updated_at {
                    self.records[s].updated_at = now;
                }
                assert(self@ =~= old(self)@.insert(
                    id,
                    CampaignView {
                        doc_ids: old(self)@[id].doc_ids.push(doc_id),
                        updated_at: later(old(self)@[id].updated_at, now),
                        ..old(self)@[id]
                    },
                ));
            },
            None => {},
        }
    }

    /// The cards of the campaigns at time `now_secs`, by ascending id: all
    /// of them, or those that count as `status`.
    pub fn cards(&self, status: Option<CampaignStatus>, now_secs: u64) -> (r: Vec<CampaignCard>)
        requires
            self.wf(),
        ensures
            card_views(r@) == cards_of(self@, now_secs).filter(
                |card: CampaignCardView| card_selected(card, status, now_secs),
            ),
    {
        let ghost pred = |card: CampaignCardView| card_selected(card, status, now_secs);
        let ghost to_cards = |c: CampaignView| card_of(c, now_secs);
        let ghost views = self.records@.map_values(|c: Campaign| c@);
        let mut out: Vec<CampaignCard> = Vec::new();
        let mut i: usize = 0;
        assert(card_views(out@) =~= views.subrange(0, 0).map_values(to_cards).filter(pred));
        while i < self.records.len()
            invariant
                i <= self.records@.len(),
                views == self.records@.map_values(|c: Campaign| c@),
                pred == |card: CampaignCardView| card_selected(card, status, now_secs),
                to_cards == |c: CampaignView| card_of(c, now_secs),
                card_views(out@) == views.subrange(0, i as int).map_values(to_cards).filter(pred),
            decreases self.records@.len() - i,
        {
            let card = to_card(&self.records[i], now_secs);
            let ghost seen = views.subrange(0, i as int).map_values(to_cards);
            proof {
                assert(views.subrange(0, i + 1).map_values(to_cards) =~= seen.push(card@));
                seen.lemma_filter_push(card@, pred);
            }
            let keep = match status {
                Some(s) => card_matches(&card, s, now_secs),
                None => true,
            };
            if keep {
                let ghost before = out@;
                out.push(card);
                assert(card_views(out@) =~= card_views(before).push(card@));
            }
            i += 1;
        }
        proof {
            assert(views.subrange(0, i as int) =~= views);
            lemma_by_key_campaigns(views);
        }
        out
    }

    /// Sets the status text of campaign `id` and stamps the change.
    pub fn set_status(&mut self, id: u64, status: &str, now: u64)
        requires
            old(self).wf(),
        ensures
            final(self).wf(),
            final(self).counter() == old(self).counter(),
            final(self)@ == if old(self)@.contains_key(id) {
                old(self)@.insert(
                    id,
                    CampaignView { status: Some(status@), updated_at: later(old(self)@[id].updated_at, now), ..old(self)@[id] },
                )
            } else {
                old(self)@
            },
    {
        match self.slot(id) {
            Some(s) => {
                self.records[s].status = Some(status.to_owned());
                if now > self.records[s].updated_at {
                    self.records[s].updated_at = now;
                }
                assert(self@ =~= old(self)@.insert(
                    id,
                    CampaignView { status: Some(status@), updated_at: later(old(self)@[id].updated_at, now), ..old(self)@[id] },
                ));
            },
            None => {},
        }
    }
}

} // verus!
