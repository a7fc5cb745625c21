//! Submission and review of ideas and projects.
//!
//! Projects move along a fixed graph of review states. Ideas have a looser
//! path of their own: an admin approves or rejects them directly.

use crate::access::{AccessControl, AdminError, Role};
use crate::table::{
    by_key, lemma_filter_all, lemma_filter_same, lemma_u64_keys_ordered, lemma_values_below_gap,
    lemma_values_below_step, values_below,
};
use crate::text::{
    blank, byte_len, clone_opt_text, is_blank, opt_text, trim, trimmed, utf8_len,
};
use candid::Principal;
use std::collections::BTreeMap;
use vstd::prelude::*;
use vstd::std_specs::btree::group_btree_axioms;

verus! {

#[derive(Clone, Copy, Debug, PartialEq, Eq, Structural)]
pub enum IdeaStatus {
    Pending,
    UnderReview,
    Approved,
    Rejected,
    RequiresRevision,
}

#[derive(Debug)]
pub struct Milestone {
    pub id: u64,
    pub title: String,
    pub description: String,
    pub amount_e8s: u64,
    pub due_date_ns: u64,
    pub completed: bool,
}

pub struct MilestoneView {
    pub id: u64,
    pub title: Seq<char>,
    pub description: Seq<char>,
    pub amount_e8s: u64,
    pub due_date_ns: u64,
    pub completed: bool,
}

impl View for Milestone {
    type V = MilestoneView;

    open spec fn view(&self) -> MilestoneView {
        MilestoneView {
            id: self.id,
            title: self.title@,
            description: self.description@,
            amount_e8s: self.amount_e8s,
            due_date_ns: self.due_date_ns,
            completed: self.completed,
        }
    }
}

impl Clone for Milestone {
    fn clone(&self) -> (r: Self)
        ensures
            r == *self,
    {
        Milestone {
            id: self.id,
            title: self.title.clone(),
            description: self.description.clone(),
            amount_e8s: self.amount_e8s,
            due_date_ns: self.due_date_ns,
            completed: self.completed,
        }
    }
}

#[derive(Debug)]
pub struct Project {
    pub id: u64,
    pub idea_id: u64,
    pub title: String,
    pub description: String,
    pub funding_goal_e8s: u64,
    pub legal_entity: String,
    pub contact_info: String,
    pub category: String,
    pub business_registration: u8,
    pub submitted_by: Principal,
    pub submitted_at_ns: u64,
    pub status: IdeaStatus,
    pub project_duration_days: u32,
    pub milestones: Vec<Milestone>,
    pub document_ids: Vec<u64>,
    pub admin_notes: Option<String>,
    pub review_date_ns: Option<u64>,
    pub reviewer: Option<Principal>,
}

pub struct ProjectView {
    pub id: u64,
    pub idea_id: u64,
    pub title: Seq<char>,
    pub description: Seq<char>,
    pub funding_goal_e8s: u64,
    pub legal_entity: Seq<char>,
    pub contact_info: Seq<char>,
    pub category: Seq<char>,
    pub business_registration: u8,
    pub submitted_by: Principal,
    pub submitted_at_ns: u64,
    pub status: IdeaStatus,
    pub project_duration_days: u32,
    pub milestones: Seq<MilestoneView>,
    pub document_ids: Seq<u64>,
    pub admin_notes: Option<Seq<char>>,
    pub review_date_ns: Option<u64>,
    pub reviewer: Option<Principal>,
}

/// The milestones of a list, each as its view.
pub open spec fn milestone_views(s: Seq<Milestone>) -> Seq<MilestoneView> {
    s.map_values(|m: Milestone| m@)
}

/// The projects of a list, each as its view.
pub open spec fn project_views(s: Seq<Project>) -> Seq<ProjectView> {
    s.map_values(|p: Project| p@)
}

/// The ideas of a list, each as its view.
pub open spec fn idea_views(s: Seq<Idea>) -> Seq<IdeaView> {
    s.map_values(|i: Idea| i@)
}

impl View for Project {
    type V = ProjectView;

    open spec fn view(&self) -> ProjectView {
        ProjectView {
            id: self.id,
            idea_id: self.idea_id,
            title: self.title@,
            description: self.description@,
            funding_goal_e8s: self.funding_goal_e8s,
            legal_entity: self.legal_entity@,
            contact_info: self.contact_info@,
            category: self.category@,
            business_registration: self.business_registration,
            submitted_by: self.submitted_by,
            submitted_at_ns: self.submitted_at_ns,
            status: self.status,
            project_duration_days: self.project_duration_days,
            milestones: milestone_views(self.milestones@),
            document_ids: self.document_ids@,
            admin_notes: opt_text(self.admin_notes),
            review_date_ns: self.review_date_ns,
            reviewer: self.reviewer,
        }
    }
}

fn clone_milestones(v: &Vec<Milestone>) -> (r: Vec<Milestone>)
    ensures
        r@ == v@,
{
    let mut out: Vec<Milestone> = Vec::new();
    let mut i: usize = 0;
    while i < v.len()
        invariant
            i <= v@.len(),
            out@ == v@.subrange(0, i as int),
        decreases v@.len() - i,
    {
        out.push(v[i].clone());
        assert(v@.subrange(0, i + 1) =~= v@.subrange(0, i as int).push(v@[i as int]));
        i += 1;
    }
    assert(out@ =~= v@);
    out
}

impl Clone for Project {
    fn clone(&self) -> (r: Self)
        ensures
            r@ == self@,
    {
        let document_ids = self.document_ids.clone();
        assert(document_ids@ =~= self.document_ids@);
        Project {
            id: self.id,
            idea_id: self.idea_id,
            title: self.title.clone(),
            description: self.description.clone(),
            funding_goal_e8s: self.funding_goal_e8s,
            legal_entity: self.legal_entity.clone(),
            contact_info: self.contact_info.clone(),
            category: self.category.clone(),
            business_registration: self.business_registration,
            submitted_by: self.submitted_by,
            submitted_at_ns: self.submitted_at_ns,
            status: self.status,
            project_duration_days: self.project_duration_days,
            milestones: clone_milestones(&self.milestones),
            document_ids,
            admin_notes: clone_opt_text(&self.admin_notes),
            review_date_ns: self.review_date_ns,
            reviewer: self.reviewer,
        }
    }
}

#[derive(Debug)]
pub struct Idea {
    pub id: u64,
    pub title: String,
    pub description: String,
    pub submitted_by: Principal,
    pub submitted_at_ns: u64,
    pub status: IdeaStatus,
}

pub struct IdeaView {
    pub id: u64,
    pub title: Seq<char>,
    pub description: Seq<char>,
    pub submitted_by: Principal,
    pub submitted_at_ns: u64,
    pub status: IdeaStatus,
}

impl View for Idea {
    type V = IdeaView;

    open spec fn view(&self) -> IdeaView {
        IdeaView {
            id: self.id,
            title: self.title@,
            description: self.description@,
            submitted_by: self.submitted_by,
            submitted_at_ns: self.submitted_at_ns,
            status: self.status,
        }
    }
}

impl Clone for Idea {
    fn clone(&self) -> (r: Self)
        ensures
            r == *self,
    {
        Idea {
            id: self.id,
            title: self.title.clone(),
            description: self.description.clone(),
            submitted_by: self.submitted_by,
            submitted_at_ns: self.submitted_at_ns,
            status: self.status,
        }
    }
}

#[derive(Clone, Copy, Debug, PartialEq, Eq, Structural)]
pub struct ApproveRejectResult {
    pub id: u64,
    pub status: IdeaStatus,
}

/// The edges of the project review graph.
pub open spec fn transition_allowed(from: IdeaStatus, to: IdeaStatus) -> bool {
    ||| from == IdeaStatus::Pending && to == IdeaStatus::UnderReview
    ||| from == IdeaStatus::UnderReview && to == IdeaStatus::Approved
    ||| from == IdeaStatus::UnderReview && to == IdeaStatus::Rejected
    ||| from == IdeaStatus::UnderReview && to == IdeaStatus::RequiresRevision
    ||| from == IdeaStatus::RequiresRevision && to == IdeaStatus::UnderReview
}

/// Whether a project in state `from` may move to state `to`.
pub fn can_transition(from: IdeaStatus, to: IdeaStatus) -> (r: bool)
    ensures
        r == transition_allowed(from, to),
{
    match (from, to) {
        (IdeaStatus::Pending, IdeaStatus::UnderReview) => true,
        (IdeaStatus::UnderReview, IdeaStatus::Approved) => true,
        (IdeaStatus::UnderReview, IdeaStatus::Rejected) => true,
        (IdeaStatus::UnderReview, IdeaStatus::RequiresRevision) => true,
        (IdeaStatus::RequiresRevision, IdeaStatus::UnderReview) => true,
        _ => false,
    }
}

/// The status graph. A project that is approved or rejected stays so; a
/// pending project can only be taken under review; and no edge leads back
/// to pending.
pub proof fn lemma_status_graph(to: IdeaStatus)
    ensures
        !transition_allowed(IdeaStatus::Approved, to),
        !transition_allowed(IdeaStatus::Rejected, to),
        transition_allowed(IdeaStatus::Pending, to) <==> to == IdeaStatus::UnderReview,
        forall|from: IdeaStatus| !transition_allowed(from, IdeaStatus::Pending),
        forall|from: IdeaStatus| !transition_allowed(from, from),
{
}

/// A submission's texts are refused when the title is blank or the trimmed
/// description is shorter than ten bytes.
pub open spec fn texts_refused(title: Seq<char>, description: Seq<char>) -> bool {
    is_blank(title) || utf8_len(trimmed(description)) < 10
}

/// Whether `r` is the error `InvalidInput` with the message `msg`.
pub open spec fn is_invalid_input<T>(r: Result<T, AdminError>, msg: Seq<char>) -> bool {
    r matches Err(AdminError::InvalidInput(m)) && m@ == msg
}

/// The id that follows `id`; the last id follows itself.
pub open spec fn next_id(id: u64) -> u64 {
    if id == u64::MAX {
        id
    } else {
        (id + 1) as u64
    }
}

/// The milestones that a submission's list stands for: each entry gives
/// title, description, amount and due date, and its position is its id.
pub open spec fn planned_milestones(entries: Seq<(String, String, u64, u64)>) -> Seq<
    MilestoneView,
> {
    Seq::new(
        entries.len(),
        |i: int|
            MilestoneView {
                id: i as u64,
                title: entries[i].0@,
                description: entries[i].1@,
                amount_e8s: entries[i].2,
                due_date_ns: entries[i].3,
                completed: false,
            },
    )
}

/// The state of the review board as maps.
pub struct ReviewView {
    pub ideas: Map<u64, IdeaView>,
    pub projects: Map<u64, ProjectView>,
    pub next_idea_id: u64,
    pub next_project_id: u64,
}

pub struct ReviewBoard {
    ideas: BTreeMap<u64, Idea>,
    projects: BTreeMap<u64, Project>,
    next_idea_id: u64,
    next_project_id: u64,
}

impl View for ReviewBoard {
    type V = ReviewView;

    closed spec fn view(&self) -> ReviewView {
        ReviewView {
            ideas: self.ideas@.map_values(|i: Idea| i@),
            projects: self.projects@.map_values(|p: Project| p@),
            next_idea_id: self.next_idea_id,
            next_project_id: self.next_project_id,
        }
    }
}

impl ReviewView {
    /// Every record is stored under its own id, and every id in use was
    /// handed out by the counter.
    pub open spec fn wf(self) -> bool {
        &&& forall|k: u64| #[trigger]
            self.ideas.contains_key(k) ==> self.ideas[k].id == k && (k < self.next_idea_id
                || self.next_idea_id == u64::MAX)
        &&& forall|k: u64| #[trigger]
            self.projects.contains_key(k) ==> self.projects[k].id == k && (k
                < self.next_project_id || self.next_project_id == u64::MAX)
    }
}

/// Which projects a listing selects.
enum ProjectFilter {
    All,
    Status(IdeaStatus),
    Submitter(Principal),
}

impl ProjectFilter {
    spec fn selects(self, p: ProjectView) -> bool {
        match self {
            ProjectFilter::All => true,
            ProjectFilter::Status(s) => p.status == s,
            ProjectFilter::Submitter(who) => p.submitted_by == who,
        }
    }

    fn test(&self, p: &Project) -> (r: bool)
        ensures
            r == self.selects(p@),
    {
        match self {
            ProjectFilter::All => true,
            ProjectFilter::Status(s) => p.status == *s,
            ProjectFilter::Submitter(who) => p.submitted_by == *who,
        }
    }
}

impl ReviewBoard {
    pub open spec fn wf(&self) -> bool {
        self@.wf()
    }

    pub fn new() -> (s: Self)
        ensures
            s.wf(),
            s@.ideas == Map::<u64, IdeaView>::empty(),
            s@.projects == Map::<u64, ProjectView>::empty(),
            s@.next_idea_id == 0,
            s@.next_project_id == 0,
    {
        let s = ReviewBoard {
            ideas: BTreeMap::new(),
            projects: BTreeMap::new(),
            next_idea_id: 0,
            next_project_id: 0,
        };
        assert(s@.ideas =~= Map::<u64, IdeaView>::empty());
        assert(s@.projects =~= Map::<u64, ProjectView>::empty());
        s
    }

    /// Records an idea of the caller in state `Pending`.
    pub fn submit_idea(&mut self, caller: Principal, title: String, description: String, now: u64)
        -> (r: Result<Idea, AdminError>)
        requires
            old(self).wf(),
        ensures
            final(self).wf(),
            texts_refused(title@, description@) ==> is_invalid_input(
                r,
                "Title required and description >= 10 chars"@,
            ) && final(self)@ == old(self)@,
            !texts_refused(title@, description@) ==> r is Ok && r->Ok_0@ == (IdeaView {
                id: old(self)@.next_idea_id,
                title: title@,
                description: description@,
                submitted_by: caller,
                submitted_at_ns: now,
                status: IdeaStatus::Pending,
            }) && final(self)@ == (ReviewView {
                ideas: old(self)@.ideas.insert(old(self)@.next_idea_id, r->Ok_0@),
                next_idea_id: next_id(old(self)@.next_idea_id),
                ..old(self)@
            }),
    {
        broadcast use group_btree_axioms;

        proof {
            lemma_u64_keys_ordered();
        }

        if blank(title.as_str()) || byte_len(trim(description.as_str())) < 10 {
            return Err(
                AdminError::InvalidInput("Title required and description >= 10 chars".to_owned()),
            );
        }
        let id = self.next_idea_id;
        self.next_idea_id = id.saturating_add(1);
        let idea = Idea {
            id,
            title,
            description,
            submitted_by: caller,
            submitted_at_ns: now,
            status: IdeaStatus::Pending,
        };
        self.ideas.insert(id, idea.clone());
        assert(self@.ideas =~= old(self)@.ideas.insert(id, idea@));
        assert(self@.projects =~= old(self)@.projects);
        Ok(idea)
    }

    /// Turns a submission's milestone entries into milestones.
    fn plan_milestones(entries: &Vec<(String, String, u64, u64)>) -> (r: Vec<Milestone>)
        ensures
            milestone_views(r@) == planned_milestones(entries@),
    {
        let mut out: Vec<Milestone> = Vec::new();
        let mut i: usize = 0;
        while i < entries.len()
            invariant
                i <= entries@.len(),
                out@.len() == i,
                forall|j: int| 0 <= j < i ==> (#[trigger] out@[j])@ == planned_milestones(entries@)[j],
            decreases entries@.len() - i,
        {
            let entry = &entries[i];
            out.push(
                Milestone {
                    id: i as u64,
                    title: entry.0.clone(),
                    description: entry.1.clone(),
                    amount_e8s: entry.2,
                    due_date_ns: entry.3,
                    completed: false,
                },
            );
            i += 1;
        }
        assert(milestone_views(out@) =~= planned_milestones(entries@));
        out
    }

    /// Records a project of the caller in state `Pending`. Only admins and
    /// innovators may submit. The checks run in this order: permission,
    /// texts, funding goal, duration.
    pub fn submit_project(
        &mut self,
        acl: &AccessControl,
        caller: Principal,
        title: String,
        description: String,
        funding_goal_e8s: u64,
        legal_entity: String,
        contact_info: String,
        category: String,
        business_registration: u8,
        project_duration_days: u32,
        milestones: Vec<(String, String, u64, u64)>,
        document_ids: Vec<u64>,
        now: u64,
    ) -> (r: Result<Project, AdminError>)
        requires
            old(self).wf(),
        ensures
            final(self).wf(),
            r is Err ==> final(self)@ == old(self)@,
            acl@.role_of(caller) == Role::User ==> r == Err::<Project, AdminError>(
                AdminError::InsufficientPermissions,
            ),
            acl@.role_of(caller) != Role::User && texts_refused(title@, description@)
                ==> is_invalid_input(r, "Title required and description >= 10 chars"@),
            acl@.role_of(caller) != Role::User && !texts_refused(title@, description@)
                && funding_goal_e8s == 0 ==> is_invalid_input(
                r,
                "Funding goal must be greater than 0"@,
            ),
            acl@.role_of(caller) != Role::User && !texts_refused(title@, description@)
                && funding_goal_e8s != 0 && project_duration_days == 0 ==> is_invalid_input(
                r,
                "Project duration must be greater than 0"@,
            ),
            acl@.role_of(caller) != Role::User && !texts_refused(title@, description@)
                && funding_goal_e8s != 0 && project_duration_days != 0 ==> r is Ok && r->Ok_0@
                == (ProjectView {
                id: old(self)@.next_project_id,
                idea_id: 0,
                title: title@,
                description: description@,
                funding_goal_e8s,
                legal_entity: legal_entity@,
                contact_info: contact_info@,
                category: category@,
                business_registration,
                submitted_by: caller,
                submitted_at_ns: now,
                status: IdeaStatus::Pending,
                project_duration_days,
                milestones: planned_milestones(milestones@),
                document_ids: document_ids@,
                admin_notes: None,
                review_date_ns: None,
                reviewer: None,
            }) && final(self)@ == (ReviewView {
                projects: old(self)@.projects.insert(old(self)@.next_project_id, r->Ok_0@),
                next_project_id: next_id(old(self)@.next_project_id),
                ..old(self)@
            }),
    {
        broadcast use group_btree_axioms;

        proof {
            lemma_u64_keys_ordered();
        }

        if !(acl.is_admin(caller) || acl.is_innovator(caller)) {
            return Err(AdminError::InsufficientPermissions);
        }
        if blank(title.as_str()) || byte_len(trim(description.as_str())) < 10 {
            return Err(
                AdminError::InvalidInput("Title required and description >= 10 chars".to_owned()),
            );
        }
        if funding_goal_e8s == 0 {
            return Err(AdminError::InvalidInput("Funding goal must be greater than 0".to_owned()));
        }
        if project_duration_days == 0 {
            return Err(
                AdminError::InvalidInput("Project duration must be greater than 0".to_owned()),
            );
        }
        let project_id = self.next_project_id;
        self.next_project_id = project_id.saturating_add(1);
        let project = Project {
            id: project_id,
            idea_id: 0,
            title,
            description,
            funding_goal_e8s,
            legal_entity,
            contact_info,
            category,
            business_registration,
            submitted_by: caller,
            submitted_at_ns: now,
            status: IdeaStatus::Pending,
            project_duration_days,
            milestones: Self::plan_milestones(&milestones),
            document_ids,
            admin_notes: None,
            review_date_ns: None,
            reviewer: None,
        };
        self.projects.insert(project_id, project.clone());
        assert(self@.projects =~= old(self)@.projects.insert(project_id, project@));
        assert(self@.ideas =~= old(self)@.ideas);
        Ok(project)
    }

    /// Moves a project along the status graph and stamps it with the
    /// deciding admin, the time and the notes. Only an admin may do so. A
    /// transition that is not an edge of the graph is refused and changes
    /// nothing.
    pub fn review_project(
        &mut self,
        acl: &AccessControl,
        caller: Principal,
        project_id: u64,
        status: IdeaStatus,
        notes: Option<String>,
        now: u64,
    ) -> (r: Result<Project, AdminError>)
        requires
            old(self).wf(),
        ensures
            final(self).wf(),
            r is Err ==> final(self)@ == old(self)@,
            !acl@.admins.contains(caller) ==> r == Err::<Project, AdminError>(
                AdminError::NotAuthorized,
            ),
            acl@.admins.contains(caller) && !old(self)@.projects.contains_key(project_id) ==> r
                == Err::<Project, AdminError>(AdminError::ProjectNotFound),
            acl@.admins.contains(caller) && old(self)@.projects.contains_key(project_id)
                && !transition_allowed(old(self)@.projects[project_id].status, status) ==> r
                == Err::<Project, AdminError>(AdminError::InvalidStatusTransition),
            acl@.admins.contains(caller) && old(self)@.projects.contains_key(project_id)
                && transition_allowed(old(self)@.projects[project_id].status, status) ==> r is Ok
                && r->Ok_0@ == (ProjectView {
                status,
                admin_notes: opt_text(notes),
                review_date_ns: Some(now),
                reviewer: Some(caller),
                ..old(self)@.projects[project_id]
            }) && final(self)@ == (ReviewView {
                projects: old(self)@.projects.insert(project_id, r->Ok_0@),
                ..old(self)@
            }),
    {
        broadcast use group_btree_axioms;

        proof {
            lemma_u64_keys_ordered();
        }

        if !acl.is_admin(caller) {
            return Err(AdminError::NotAuthorized);
        }
        let mut project = match self.projects.get(&project_id) {
            Some(p) => p.clone(),
            None => {
                return Err(AdminError::ProjectNotFound);
            },
        };
        if !can_transition(project.status, status) {
            return Err(AdminError::InvalidStatusTransition);
        }
        assert(old(self)@.projects.contains_key(project_id));
        project.status = status;
        project.admin_notes = notes;
        project.review_date_ns = Some(now);
        project.reviewer = Some(caller);
        self.projects.insert(project_id, project.clone());
        assert(self@.projects =~= old(self)@.projects.insert(project_id, project@));
        assert(self@.ideas =~= old(self)@.ideas);
        Ok(project)
    }

    /// The projects that `filter` selects, by ascending id.
    fn select_projects(&self, filter: ProjectFilter) -> (r: Vec<Project>)
        requires
            self.wf(),
        ensures
            project_views(r@) == by_key(self@.projects).filter(
                |p: ProjectView| filter.selects(p),
            ),
    {
        broadcast use group_btree_axioms;

        proof {
            lemma_u64_keys_ordered();
        }

        let ghost pred = |p: ProjectView| filter.selects(p);
        let mut out: Vec<Project> = Vec::new();
        let mut k: u64 = 0;
        assert(project_views(out@) =~= values_below(self@.projects, 0).filter(pred));
        while k < self.next_project_id
            invariant
                k <= self.next_project_id,
                pred == |p: ProjectView| filter.selects(p),
                project_views(out@) == values_below(self@.projects, k as nat).filter(pred),
            decreases self.next_project_id - k,
        {
            self.visit_project(k, &filter, &mut out);
            k += 1;
        }
        if self.next_project_id == u64::MAX {
            self.visit_project(u64::MAX, &filter, &mut out);
        } else {
            proof {
                lemma_values_below_gap(self@.projects, k as nat, u64::MAX as nat + 1);
            }
        }
        out
    }

    /// Appends the project stored under `k` to `out` where there is one and
    /// `filter` selects it.
    fn visit_project(&self, k: u64, filter: &ProjectFilter, out: &mut Vec<Project>)
        requires
            project_views(old(out)@) == values_below(self@.projects, k as nat).filter(
                |p: ProjectView| filter.selects(p),
            ),
        ensures
            project_views(final(out)@) == values_below(self@.projects, k as nat + 1).filter(
                |p: ProjectView| filter.selects(p),
            ),
    {
        broadcast use group_btree_axioms;

        proof {
            lemma_u64_keys_ordered();
        }

        let ghost pred = |p: ProjectView| filter.selects(p);
        let ghost seen = values_below(self@.projects, k as nat);
        proof {
            lemma_values_below_step(self@.projects, k);
        }
        match self.projects.get(&k) {
            Some(p) => {
                proof {
                    seen.lemma_filter_push(p@, pred);
                }
                if filter.test(p) {
                    let ghost before = out@;
                    out.push(p.clone());
                    assert(project_views(out@) =~= project_views(before).push(p@));
                }
            },
            None => {},
        }
    }

    /// All projects, by ascending id.
    pub fn get_projects(&self) -> (r: Vec<Project>)
        requires
            self.wf(),
        ensures
            project_views(r@) == by_key(self@.projects),
    {
        let r = self.select_projects(ProjectFilter::All);
        proof {
            lemma_filter_all(by_key(self@.projects), |p: ProjectView| ProjectFilter::All.selects(p));
        }
        r
    }

    /// The projects in state `status`, by ascending id.
    pub fn get_projects_by_status(&self, status: IdeaStatus) -> (r: Vec<Project>)
        requires
            self.wf(),
        ensures
            project_views(r@) == by_key(self@.projects).filter(
                |p: ProjectView| p.status == status,
            ),
    {
        let r = self.select_projects(ProjectFilter::Status(status));
        proof {
            lemma_filter_same(
                by_key(self@.projects),
                |p: ProjectView| ProjectFilter::Status(status).selects(p),
                |p: ProjectView| p.status == status,
            );
        }
        r
    }

    /// The projects that `caller` submitted, by ascending id.
    pub fn get_my_projects(&self, caller: Principal) -> (r: Vec<Project>)
        requires
            self.wf(),
        ensures
            project_views(r@) == by_key(self@.projects).filter(
                |p: ProjectView| p.submitted_by == caller,
            ),
    {
        let r = self.select_projects(ProjectFilter::Submitter(caller));
        proof {
            lemma_filter_same(
                by_key(self@.projects),
                |p: ProjectView| ProjectFilter::Submitter(caller).selects(p),
                |p: ProjectView| p.submitted_by == caller,
            );
        }
        r
    }

    pub fn get_project(&self, project_id: u64) -> (r: Option<Project>)
        ensures
            r is Some == self@.projects.contains_key(project_id),
            r is Some ==> r->Some_0@ == self@.projects[project_id],
    {
        broadcast use group_btree_axioms;

        proof {
            lemma_u64_keys_ordered();
        }

        match self.projects.get(&project_id) {
            Some(p) => Some(p.clone()),
            None => None,
        }
    }

    /// Sets the status of idea `id` to `status`.
    fn decide_idea(&mut self, acl: &AccessControl, caller: Principal, id: u64, status: IdeaStatus)
        -> (r: Result<ApproveRejectResult, AdminError>)
        requires
            old(self).wf(),
        ensures
            final(self).wf(),
            r is Err ==> final(self)@ == old(self)@,
            !acl@.admins.contains(caller) ==> r == Err::<ApproveRejectResult, AdminError>(
                AdminError::NotAuthorized,
            ),
            acl@.admins.contains(caller) && !old(self)@.ideas.contains_key(id) ==> r == Err::<
                ApproveRejectResult,
                AdminError,
            >(AdminError::IdeaNotFound),
            acl@.admins.contains(caller) && old(self)@.ideas.contains_key(id) ==> r == Ok::<
                ApproveRejectResult,
                AdminError,
            >(ApproveRejectResult { id, status }) && final(self)@ == (ReviewView {
                ideas: old(self)@.ideas.insert(id, IdeaView { status, ..old(self)@.ideas[id] }),
                ..old(self)@
            }),
    {
        broadcast use group_btree_axioms;

        proof {
            lemma_u64_keys_ordered();
        }

        if !acl.is_admin(caller) {
            return Err(AdminError::NotAuthorized);
        }
        let mut idea = match self.ideas.get(&id) {
            Some(i) => i.clone(),
            None => {
                return Err(AdminError::IdeaNotFound);
            },
        };
        assert(old(self)@.ideas.contains_key(id));
        idea.status = status;
        let ghost stored = idea@;
        self.ideas.insert(id, idea);
        assert(self@.ideas =~= old(self)@.ideas.insert(id, stored));
        assert(self@.projects =~= old(self)@.projects);
        Ok(ApproveRejectResult { id, status })
    }

    /// Approves an idea, whatever its state. Only an admin may do so.
    pub fn approve_idea(&mut self, acl: &AccessControl, caller: Principal, id: u64) -> (r: Result<
        ApproveRejectResult,
        AdminError,
    >)
        requires
            old(self).wf(),
        ensures
            final(self).wf(),
            r is Err ==> final(self)@ == old(self)@,
            !acl@.admins.contains(caller) ==> r == Err::<ApproveRejectResult, AdminError>(
                AdminError::NotAuthorized,
            ),
            acl@.admins.contains(caller) && !old(self)@.ideas.contains_key(id) ==> r == Err::<
                ApproveRejectResult,
                AdminError,
            >(AdminError::IdeaNotFound),
            acl@.admins.contains(caller) && old(self)@.ideas.contains_key(id) ==> r == Ok::<
                ApproveRejectResult,
                AdminError,
            >(ApproveRejectResult { id, status: IdeaStatus::Approved }) && final(self)@
                == (ReviewView {
                ideas: old(self)@.ideas.insert(
                    id,
                    IdeaView { status: IdeaStatus::Approved, ..old(self)@.ideas[id] },
                ),
                ..old(self)@
            }),
    {
        self.decide_idea(acl, caller, id, IdeaStatus::Approved)
    }

    /// Rejects an idea, whatever its state. Only an admin may do so.
    pub fn reject_idea(&mut self, acl: &AccessControl, caller: Principal, id: u64) -> (r: Result<
        ApproveRejectResult,
        AdminError,
    >)
        requires
            old(self).wf(),
        ensures
            final(self).wf(),
            r is Err ==> final(self)@ == old(self)@,
            !acl@.admins.contains(caller) ==> r == Err::<ApproveRejectResult, AdminError>(
                AdminError::NotAuthorized,
            ),
            acl@.admins.contains(caller) && !old(self)@.ideas.contains_key(id) ==> r == Err::<
                ApproveRejectResult,
                AdminError,
            >(AdminError::IdeaNotFound),
            acl@.admins.contains(caller) && old(self)@.ideas.contains_key(id) ==> r == Ok::<
                ApproveRejectResult,
                AdminError,
            >(ApproveRejectResult { id, status: IdeaStatus::Rejected }) && final(self)@
                == (ReviewView {
                ideas: old(self)@.ideas.insert(
                    id,
                    IdeaView { status: IdeaStatus::Rejected, ..old(self)@.ideas[id] },
                ),
                ..old(self)@
            }),
    {
        self.decide_idea(acl, caller, id, IdeaStatus::Rejected)
    }

    /// All ideas, by ascending id.
    pub fn get_ideas(&self) -> (r: Vec<Idea>)
        requires
            self.wf(),
        ensures
            idea_views(r@) == by_key(self@.ideas),
    {
        broadcast use group_btree_axioms;

        proof {
            lemma_u64_keys_ordered();
        }

        let mut out: Vec<Idea> = Vec::new();
        let mut k: u64 = 0;
        assert(idea_views(out@) =~= values_below(self@.ideas, 0));
        while k < self.next_idea_id
            invariant
                k <= self.next_idea_id,
                idea_views(out@) == values_below(self@.ideas, k as nat),
            decreases self.next_idea_id - k,
        {
            self.visit_idea(k, &mut out);
            k += 1;
        }
        if self.next_idea_id == u64::MAX {
            self.visit_idea(u64::MAX, &mut out);
        } else {
            proof {
                lemma_values_below_gap(self@.ideas, k as nat, u64::MAX as nat + 1);
            }
        }
        out
    }

    /// Appends the idea stored under `k` to `out` where there is one.
    fn visit_idea(&self, k: u64, out: &mut Vec<Idea>)
        requires
            idea_views(old(out)@) == values_below(self@.ideas, k as nat),
        ensures
            idea_views(final(out)@) == values_below(self@.ideas, k as nat + 1),
    {
        broadcast use group_btree_axioms;

        proof {
            lemma_u64_keys_ordered();
        }

        proof {
            lemma_values_below_step(self@.ideas, k);
        }
        match self.ideas.get(&k) {
            Some(i) => {
                let ghost before = out@;
                out.push(i.clone());
                assert(idea_views(out@) =~= idea_views(before).push(i@));
            },
            None => {},
        }
    }

    pub fn get_idea(&self, id: u64) -> (r: Option<Idea>)
        ensures
            r is Some == self@.ideas.contains_key(id),
            r is Some ==> r->Some_0@ == self@.ideas[id],
    {
        broadcast use group_btree_axioms;

        proof {
            lemma_u64_keys_ordered();
        }

        match self.ideas.get(&id) {
            Some(i) => Some(i.clone()),
            None => None,
        }
    }
}

/// Whether `ids` can be the ids of saved records, in their order: each was
/// handed out by a counter that now stands at `next`, and they increase.
pub open spec fn ids_acceptable(ids: Seq<u64>, next: u64) -> bool {
    &&& forall|i: int| 0 <= i < ids.len() ==> #[trigger] ids[i] < next || next == u64::MAX
    &&& forall|i: int, j: int| 0 <= i < j < ids.len() ==> #[trigger] ids[i] < #[trigger] ids[j]
}

/// Whether `m` holds exactly the records `s`, each under its id.
pub open spec fn holds_ideas(m: Map<u64, IdeaView>, s: Seq<IdeaView>) -> bool {
    &&& forall|i: int|
        0 <= i < s.len() ==> m.contains_key((#[trigger] s[i]).id) && m[s[i].id] == s[i]
    &&& forall|k: u64| #[trigger]
        m.contains_key(k) ==> exists|i: int| 0 <= i < s.len() && (#[trigger] s[i]).id == k
}

/// Whether `m` holds exactly the records `s`, each under its id.
pub open spec fn holds_projects(m: Map<u64, ProjectView>, s: Seq<ProjectView>) -> bool {
    &&& forall|i: int|
        0 <= i < s.len() ==> m.contains_key((#[trigger] s[i]).id) && m[s[i].id] == s[i]
    &&& forall|k: u64| #[trigger]
        m.contains_key(k) ==> exists|i: int| 0 <= i < s.len() && (#[trigger] s[i]).id == k
}

/// The ids of the ideas `s`.
pub open spec fn idea_ids(s: Seq<Idea>) -> Seq<u64> {
    s.map_values(|i: Idea| i.id)
}

/// The ids of the projects `s`.
pub open spec fn project_ids(s: Seq<Project>) -> Seq<u64> {
    s.map_values(|p: Project| p.id)
}

/// Puts saved ideas into a map, where their ids are acceptable.
fn load_ideas(ideas: &Vec<Idea>, next: u64) -> (r: Option<BTreeMap<u64, Idea>>)
    ensures
        r is Some == ids_acceptable(idea_ids(ideas@), next),
        r is Some ==> holds_ideas(r->Some_0@.map_values(|i: Idea| i@), idea_views(ideas@)),
{
    broadcast use group_btree_axioms;

    proof {
        lemma_u64_keys_ordered();
    }
    let ghost ids = idea_ids(ideas@);
    let ghost views = idea_views(ideas@);
    let mut m: BTreeMap<u64, Idea> = BTreeMap::new();
    let mut i: usize = 0;
    while i < ideas.len()
        invariant
            i <= ideas@.len(),
            ids == idea_ids(ideas@),
            views == idea_views(ideas@),
            ids_acceptable(ids.subrange(0, i as int), next),
            holds_ideas(m@.map_values(|i: Idea| i@), views.subrange(0, i as int)),
        decreases ideas@.len() - i,
    {
        let id = ideas[i].id;
        assert(ids[i as int] == id);
        if !(id < next || next == u64::MAX) {
            return None;
        }
        if i > 0 && ideas[i - 1].id >= id {
            assert(ids[i - 1] >= ids[i as int]);
            return None;
        }
        let ghost before = m@.map_values(|i: Idea| i@);
        proof {
            lemma_u64_keys_ordered();
        }
        m.insert(id, ideas[i].clone());
        proof {
            let after = m@.map_values(|i: Idea| i@);
            let seen = views.subrange(0, i as int);
            let now = views.subrange(0, i + 1);
            assert(after =~= before.insert(id, views[i as int]));
            assert(now =~= seen.push(views[i as int]));
            assert(ids.subrange(0, i + 1) =~= ids.subrange(0, i as int).push(id));
            assert forall|a: int, b: int| 0 <= a < b < i + 1 implies #[trigger] ids.subrange(
                0,
                i + 1,
            )[a] < #[trigger] ids.subrange(0, i + 1)[b] by {
                if b < i {
                    assert(ids.subrange(0, i as int)[a] < ids.subrange(0, i as int)[b]);
                } else if a < i - 1 {
                    assert(ids.subrange(0, i as int)[a] < ids.subrange(0, i as int)[i - 1]);
                }
            }
            assert forall|a: int| 0 <= a < now.len() implies after.contains_key(
                (#[trigger] now[a]).id,
            ) && after[now[a].id] == now[a] by {
                if a < i {
                    assert(seen[a] == now[a]);
                    assert(ids.subrange(0, i + 1)[a] < ids.subrange(0, i + 1)[i as int]);
                }
            }
            assert forall|k: u64| #[trigger] after.contains_key(k) implies exists|a: int|
                0 <= a < now.len() && (#[trigger] now[a]).id == k by {
                if k == id {
                    assert(now[i as int].id == k);
                } else {
                    assert(before.contains_key(k));
                    let a = choose|a: int| 0 <= a < seen.len() && (#[trigger] seen[a]).id == k;
                    assert(now[a].id == k);
                }
            }
        }
        i += 1;
    }
    assert(ids.subrange(0, i as int) =~= ids);
    assert(views.subrange(0, i as int) =~= views);
    Some(m)
}

/// Puts saved projects into a map, where their ids are acceptable.
fn load_projects(projects: &Vec<Project>, next: u64) -> (r: Option<BTreeMap<u64, Project>>)
    ensures
        r is Some == ids_acceptable(project_ids(projects@), next),
        r is Some ==> holds_projects(
            r->Some_0@.map_values(|p: Project| p@),
            project_views(projects@),
        ),
{
    broadcast use group_btree_axioms;

    proof {
        lemma_u64_keys_ordered();
    }
    let ghost ids = project_ids(projects@);
    let ghost views = project_views(projects@);
    let mut m: BTreeMap<u64, Project> = BTreeMap::new();
    let mut i: usize = 0;
    while i < projects.len()
        invariant
            i <= projects@.len(),
            ids == project_ids(projects@),
            views == project_views(projects@),
            ids_acceptable(ids.subrange(0, i as int), next),
            holds_projects(m@.map_values(|p: Project| p@), views.subrange(0, i as int)),
        decreases projects@.len() - i,
    {
        let id = projects[i].id;
        assert(ids[i as int] == id);
        if !(id < next || next == u64::MAX) {
            return None;
        }
        if i > 0 && projects[i - 1].id >= id {
            assert(ids[i - 1] >= ids[i as int]);
            return None;
        }
        let ghost before = m@.map_values(|p: Project| p@);
        proof {
            lemma_u64_keys_ordered();
        }
        m.insert(id, projects[i].clone());
        proof {
            let after = m@.map_values(|p: Project| p@);
            let seen = views.subrange(0, i as int);
            let now = views.subrange(0, i + 1);
            assert(after =~= before.insert(id, views[i as int]));
            assert(now =~= seen.push(views[i as int]));
            assert(ids.subrange(0, i + 1) =~= ids.subrange(0, i as int).push(id));
            assert forall|a: int, b: int| 0 <= a < b < i + 1 implies #[trigger] ids.subrange(
                0,
                i + 1,
            )[a] < #[trigger] ids.subrange(0, i + 1)[b] by {
                if b < i {
                    assert(ids.subrange(0, i as int)[a] < ids.subrange(0, i as int)[b]);
                } else if a < i - 1 {
                    assert(ids.subrange(0, i as int)[a] < ids.subrange(0, i as int)[i - 1]);
                }
            }
            assert forall|a: int| 0 <= a < now.len() implies after.contains_key(
                (#[trigger] now[a]).id,
            ) && after[now[a].id] == now[a] by {
                if a < i {
                    assert(seen[a] == now[a]);
                    assert(ids.subrange(0, i + 1)[a] < ids.subrange(0, i + 1)[i as int]);
                }
            }
            assert forall|k: u64| #[trigger] after.contains_key(k) implies exists|a: int|
                0 <= a < now.len() && (#[trigger] now[a]).id == k by {
                if k == id {
                    assert(now[i as int].id == k);
                } else {
                    assert(before.contains_key(k));
                    let a = choose|a: int| 0 <= a < seen.len() && (#[trigger] seen[a]).id == k;
                    assert(now[a].id == k);
                }
            }
        }
        i += 1;
    }
    assert(ids.subrange(0, i as int) =~= ids);
    assert(views.subrange(0, i as int) =~= views);
    Some(m)
}

impl ReviewBoard {
    /// The id that the next idea will get.
    pub fn next_idea_id(&self) -> (n: u64)
        ensures
            n == self@.next_idea_id,
    {
        self.next_idea_id
    }

    /// The id that the next project will get.
    pub fn next_project_id(&self) -> (n: u64)
        ensures
            n == self@.next_project_id,
    {
        self.next_project_id
    }

    /// Rebuilds the board from what was saved of it: the ideas and the
    /// projects by ascending id, and the two counters. Records whose ids do
    /// not increase, or that the counters cannot have handed out, are
    /// refused.
    pub fn restore(
        ideas: Vec<Idea>,
        projects: Vec<Project>,
        next_idea_id: u64,
        next_project_id: u64,
    ) -> (r: Option<Self>)
        ensures
            r is Some == (ids_acceptable(idea_ids(ideas@), next_idea_id) && ids_acceptable(
                project_ids(projects@),
                next_project_id,
            )),
            r is Some ==> r->Some_0.wf() && r->Some_0@.next_idea_id == next_idea_id
                && r->Some_0@.next_project_id == next_project_id && holds_ideas(
                r->Some_0@.ideas,
                idea_views(ideas@),
            ) && holds_projects(r->Some_0@.projects, project_views(projects@)),
    {
        let idea_map = match load_ideas(&ideas, next_idea_id) {
            Some(m) => m,
            None => {
                return None;
            },
        };
        let project_map = match load_projects(&projects, next_project_id) {
            Some(m) => m,
            None => {
                return None;
            },
        };
        let s = ReviewBoard {
            ideas: idea_map,
            projects: project_map,
            next_idea_id,
            next_project_id,
        };
        proof {
            let iv = idea_views(ideas@);
            let pv = project_views(projects@);
            assert forall|k: u64| #[trigger] s@.ideas.contains_key(k) implies s@.ideas[k].id == k
                && (k < s@.next_idea_id || s@.next_idea_id == u64::MAX) by {
                let a = choose|a: int| 0 <= a < iv.len() && (#[trigger] iv[a]).id == k;
                assert(idea_ids(ideas@)[a] == k);
                assert(s@.ideas[iv[a].id] == iv[a]);
            }
            assert forall|k: u64| #[trigger] s@.projects.contains_key(k) implies s@.projects[k].id
                == k && (k < s@.next_project_id || s@.next_project_id == u64::MAX) by {
                let a = choose|a: int| 0 <= a < pv.len() && (#[trigger] pv[a]).id == k;
                assert(project_ids(projects@)[a] == k);
                assert(s@.projects[pv[a].id] == pv[a]);
            }
        }
        Some(s)
    }
}

} // verus!
