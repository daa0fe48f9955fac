//! PlanActor: hierarchical plans P0 (epic) → P1 (story) → P2 (task) → P3 (subtask), their
//! life cycle and their decomposition.

use vstd::prelude::*;
use crate::clock::{Timestamp, now, new_uuid};
use crate::graph::node::{opt_view, copy_opt, strings_view};
use crate::keyed::{keys_unique, find_by_key, has_key, lemma_find_at, lemma_replace, lemma_append, lemma_remove,
    lemma_filter_step, lemma_take_full};
use crate::text::{chars_of, split_words, views_of, words, lowercase, to_lowercase, string_from_chars,
    has_prefix, is_substring, starts_with_chars, contains_chars, same_text};
use super::config::str_views;
use super::orchestrator::{OrchestratorActor, SizeCategory, size_of, depth_of, children_of, parse_children};

verus! {

/// Level of a plan.
#[derive(Debug, Clone, Copy, PartialEq, Eq, Hash, Structural)]
pub enum PlanLevel {
    P0,
    P1,
    P2,
    P3,
}

/// The name of a level.
pub open spec fn level_name(l: PlanLevel) -> Seq<char> {
    match l {
        PlanLevel::P0 => "P0"@,
        PlanLevel::P1 => "P1"@,
        PlanLevel::P2 => "P2"@,
        PlanLevel::P3 => "P3"@,
    }
}

impl PlanLevel {
    /// The level's name: `P0` … `P3`.
    pub fn as_str(&self) -> (s: &'static str)
        ensures
            s@ == level_name(*self),
    {
        match self {
            PlanLevel::P0 => "P0",
            PlanLevel::P1 => "P1",
            PlanLevel::P2 => "P2",
            PlanLevel::P3 => "P3",
        }
    }
}

/// Life-cycle status of a plan.
#[derive(Debug, Clone, Copy, PartialEq, Eq, Hash, Structural)]
pub enum PlanStatus {
    Created,
    InProgress,
    PendingReview,
    Approved,
    Rejected,
    Problem,
    Done,
    Deleted,
    Archived,
}

/// The storage name of a status.
pub open spec fn status_text(s: PlanStatus) -> Seq<char> {
    match s {
        PlanStatus::Created => "created"@,
        PlanStatus::InProgress => "in_progress"@,
        PlanStatus::PendingReview => "pending_review"@,
        PlanStatus::Approved => "approved"@,
        PlanStatus::Rejected => "rejected"@,
        PlanStatus::Problem => "problem"@,
        PlanStatus::Done => "done"@,
        PlanStatus::Deleted => "deleted"@,
        PlanStatus::Archived => "archived"@,
    }
}

/// The storage name of a status.
pub fn status_name(s: PlanStatus) -> (r: &'static str)
    ensures
        r@ == status_text(s),
{
    match s {
        PlanStatus::Created => "created",
        PlanStatus::InProgress => "in_progress",
        PlanStatus::PendingReview => "pending_review",
        PlanStatus::Approved => "approved",
        PlanStatus::Rejected => "rejected",
        PlanStatus::Problem => "problem",
        PlanStatus::Done => "done",
        PlanStatus::Deleted => "deleted",
        PlanStatus::Archived => "archived",
    }
}

/// The status a storage name names.
pub open spec fn status_named(s: Seq<char>) -> Option<PlanStatus> {
    if s == "created"@ { Some(PlanStatus::Created) }
    else if s == "in_progress"@ { Some(PlanStatus::InProgress) }
    else if s == "pending_review"@ { Some(PlanStatus::PendingReview) }
    else if s == "approved"@ { Some(PlanStatus::Approved) }
    else if s == "rejected"@ { Some(PlanStatus::Rejected) }
    else if s == "problem"@ { Some(PlanStatus::Problem) }
    else if s == "done"@ { Some(PlanStatus::Done) }
    else if s == "deleted"@ { Some(PlanStatus::Deleted) }
    else if s == "archived"@ { Some(PlanStatus::Archived) }
    else { None }
}

/// The status named by a storage name, if any.
pub fn parse_status(s: &str) -> (r: Option<PlanStatus>)
    ensures
        r == status_named(s@),
{
    if same_text(s, "created") { Some(PlanStatus::Created) }
    else if same_text(s, "in_progress") { Some(PlanStatus::InProgress) }
    else if same_text(s, "pending_review") { Some(PlanStatus::PendingReview) }
    else if same_text(s, "approved") { Some(PlanStatus::Approved) }
    else if same_text(s, "rejected") { Some(PlanStatus::Rejected) }
    else if same_text(s, "problem") { Some(PlanStatus::Problem) }
    else if same_text(s, "done") { Some(PlanStatus::Done) }
    else if same_text(s, "deleted") { Some(PlanStatus::Deleted) }
    else if same_text(s, "archived") { Some(PlanStatus::Archived) }
    else { None }
}

/// The storage prefix of a level.
pub open spec fn level_prefix(l: PlanLevel) -> Seq<char> {
    level_name(l) + ":"@
}

/// The storage key prefix of plans of a level: `P0:` … `P3:`.
pub fn prefix_for_level(level: PlanLevel) -> (r: &'static str)
    ensures
        r@ == level_prefix(level),
{
    proof {
        reveal_strlit("P0:");
        reveal_strlit("P1:");
        reveal_strlit("P2:");
        reveal_strlit("P3:");
        reveal_strlit("P0");
        reveal_strlit("P1");
        reveal_strlit("P2");
        reveal_strlit("P3");
        reveal_strlit(":");
        assert(level_prefix(level) =~= match level {
            PlanLevel::P0 => "P0:"@,
            PlanLevel::P1 => "P1:"@,
            PlanLevel::P2 => "P2:"@,
            PlanLevel::P3 => "P3:"@,
        });
    }
    match level {
        PlanLevel::P0 => "P0:",
        PlanLevel::P1 => "P1:",
        PlanLevel::P2 => "P2:",
        PlanLevel::P3 => "P3:",
    }
}

/// The storage key of plan `id` of a level: its prefix followed by the id.
pub fn key_for_level(level: PlanLevel, id: &str) -> (r: String)
    ensures
        r@ == level_prefix(level) + id@,
{
    let mut k = prefix_for_level(level).to_owned();
    k.append(id);
    k
}

/// A plan.
#[derive(Debug)]
pub struct Plan {
    pub id: String,
    pub level: PlanLevel,
    pub status: PlanStatus,
    pub description: String,
    /// The parent plan (none only for P0).
    pub parent_id: Option<String>,
    /// P0: whether an agent may approve its P1 stories itself.
    pub autonomous_mode: bool,
    /// P1: the heuristic quality score, in tenths (0 to 10).
    pub quality_tenths: u8,
    /// P3: the agent that claimed it.
    pub claimed_by: Option<String>,
    /// P3: the result reported on completion.
    pub result: Option<String>,
    /// The comment of a problem (or of a rejection).
    pub problem_comment: Option<String>,
    pub created_at: Timestamp,
    pub updated_at: Timestamp,
}

/// The content of a plan.
pub struct PlanView {
    pub id: Seq<char>,
    pub level: PlanLevel,
    pub status: PlanStatus,
    pub description: Seq<char>,
    pub parent_id: Option<Seq<char>>,
    pub autonomous_mode: bool,
    pub quality_tenths: u8,
    pub claimed_by: Option<Seq<char>>,
    pub result: Option<Seq<char>>,
    pub problem_comment: Option<Seq<char>>,
    pub created_at: Timestamp,
    pub updated_at: Timestamp,
}

impl View for Plan {
    type V = PlanView;

    open spec fn view(&self) -> PlanView {
        PlanView {
            id: self.id@,
            level: self.level,
            status: self.status,
            description: self.description@,
            parent_id: opt_view(self.parent_id),
            autonomous_mode: self.autonomous_mode,
            quality_tenths: self.quality_tenths,
            claimed_by: opt_view(self.claimed_by),
            result: opt_view(self.result),
            problem_comment: opt_view(self.problem_comment),
            created_at: self.created_at,
            updated_at: self.updated_at,
        }
    }
}

impl Clone for Plan {
    fn clone(&self) -> (r: Self)
        ensures
            r@ == self@,
    {
        Plan {
            id: self.id.clone(),
            level: self.level,
            status: self.status,
            description: self.description.clone(),
            parent_id: copy_opt(&self.parent_id),
            autonomous_mode: self.autonomous_mode,
            quality_tenths: self.quality_tenths,
            claimed_by: copy_opt(&self.claimed_by),
            result: copy_opt(&self.result),
            problem_comment: copy_opt(&self.problem_comment),
            created_at: self.created_at,
            updated_at: self.updated_at,
        }
    }
}

/// The views of a list of plans.
pub open spec fn plans_view(v: Seq<Plan>) -> Seq<PlanView> {
    v.map_values(|p: Plan| p@)
}

impl Plan {
    /// A new plan of a level: status `Created`, id `<level>-<random uuid>`, created and
    /// updated now, the other fields empty.
    pub fn new(level: PlanLevel, description: String, parent_id: Option<String>) -> (p: Self)
        ensures
            has_prefix(p@.id, level_name(level) + "-"@),
            p@.level == level,
            p@.status == PlanStatus::Created,
            p@.description == description@,
            p@.parent_id == opt_view(parent_id),
            !p@.autonomous_mode,
            p@.quality_tenths == 0,
            p@.claimed_by is None,
            p@.result is None,
            p@.problem_comment is None,
            p@.created_at == p@.updated_at,
    {
        let t = now();
        let mut id = level.as_str().to_owned();
        id.append("-");
        let u = new_uuid();
        id.append(u.as_str());
        assert(id@.subrange(0, (level_name(level) + "-"@).len() as int) =~= level_name(level) + "-"@);
        Plan {
            id,
            level,
            status: PlanStatus::Created,
            description,
            parent_id,
            autonomous_mode: false,
            quality_tenths: 0,
            claimed_by: None,
            result: None,
            problem_comment: None,
            created_at: t,
            updated_at: t,
        }
    }
}

/// Verbs that make a story actionable (word prefixes, in lower case).
pub open spec fn quality_verbs() -> Seq<Seq<char>> {
    seq!["implement"@, "add"@, "fix"@, "refactor"@, "create"@, "build"@]
}

/// Words that make a story measurable (word parts, in lower case).
pub open spec fn quality_measures() -> Seq<Seq<char>> {
    seq!["test"@, "metric"@, "benchmark"@, "kpi"@]
}

/// Some word, in lower case, begins with one of the verbs.
pub open spec fn has_verb(ws: Seq<Seq<char>>) -> bool {
    exists|i: int, j: int| 0 <= i < ws.len() && 0 <= j < quality_verbs().len()
        && has_prefix(lowercase(#[trigger] ws[i]), #[trigger] quality_verbs()[j])
}

/// Some word, in lower case, holds one of the measures.
pub open spec fn has_measure(ws: Seq<Seq<char>>) -> bool {
    exists|i: int, j: int| 0 <= i < ws.len() && 0 <= j < quality_measures().len()
        && is_substring(lowercase(#[trigger] ws[i]), #[trigger] quality_measures()[j])
}

/// The heuristic quality of a story description, in tenths: 4 for a length of 20 to 200
/// bytes (2 for other lengths above 10), 3 for an actionable verb, 3 for a measurable
/// word.
pub open spec fn quality_of(d: Seq<char>) -> u8 {
    let len = (vstd::utf8::encode_utf8(d).len() as usize) as nat;
    let ws = words(d);
    let base: u8 = if 20 <= len <= 200 { 4 } else if len > 10 { 2 } else { 0 };
    (base + (if has_verb(ws) { 3u8 } else { 0u8 }) + (if has_measure(ws) { 3u8 } else { 0u8 })) as u8
}

/// Whether one word, in lower case, begins with a verb (`verbs`) or holds a measure.
fn word_flags(w: &Vec<char>) -> (r: (bool, bool))
    ensures
        r.0 == exists|j: int| 0 <= j < quality_verbs().len() && has_prefix(lowercase(w@), #[trigger] quality_verbs()[j]),
        r.1 == exists|j: int| 0 <= j < quality_measures().len() && is_substring(lowercase(w@), #[trigger] quality_measures()[j]),
{
    let lw = chars_of(to_lowercase(string_from_chars(w.as_slice()).as_str()).as_str());
    let verbs: [&str; 6] = ["implement", "add", "fix", "refactor", "create", "build"];
    let measures: [&str; 4] = ["test", "metric", "benchmark", "kpi"];
    assert(str_views(verbs@) =~= quality_verbs());
    assert(str_views(measures@) =~= quality_measures());
    let mut verb = false;
    let mut i: usize = 0;
    while i < 6
        invariant
            i <= 6,
            verbs@.len() == 6,
            str_views(verbs@) == quality_verbs(),
            lw@ == lowercase(w@),
            verb == exists|j: int| 0 <= j < i && has_prefix(lowercase(w@), #[trigger] quality_verbs()[j]),
        decreases 6 - i,
    {
        assert(quality_verbs()[i as int] == verbs@[i as int]@);
        let v = chars_of(verbs[i]);
        if starts_with_chars(&lw, &v) {
            verb = true;
        }
        i += 1;
    }
    let mut meas = false;
    let mut k: usize = 0;
    while k < 4
        invariant
            k <= 4,
            measures@.len() == 4,
            str_views(measures@) == quality_measures(),
            lw@ == lowercase(w@),
            meas == exists|j: int| 0 <= j < k && is_substring(lowercase(w@), #[trigger] quality_measures()[j]),
        decreases 4 - k,
    {
        assert(quality_measures()[k as int] == measures@[k as int]@);
        let m = chars_of(measures[k]);
        if contains_chars(&lw, &m) {
            meas = true;
        }
        k += 1;
    }
    (verb, meas)
}

/// The heuristic quality of a story description, in tenths.
pub fn heuristic_quality(description: &str) -> (q: u8)
    ensures
        q == quality_of(description@),
{
    let ws = split_words(&chars_of(description));
    let ghost wv = words(description@);
    let mut verb = false;
    let mut meas = false;
    let mut i: usize = 0;
    while i < ws.len()
        invariant
            i <= ws.len(),
            views_of(ws@) == wv,
            verb == exists|a: int, j: int| 0 <= a < i && 0 <= j < quality_verbs().len()
                && has_prefix(lowercase(#[trigger] wv[a]), #[trigger] quality_verbs()[j]),
            meas == exists|a: int, j: int| 0 <= a < i && 0 <= j < quality_measures().len()
                && is_substring(lowercase(#[trigger] wv[a]), #[trigger] quality_measures()[j]),
        decreases ws.len() - i,
    {
        let (v, m) = word_flags(&ws[i]);
        assert(wv[i as int] == ws@[i as int]@);
        if v {
            verb = true;
        }
        if m {
            meas = true;
        }
        i += 1;
    }
    let len = description.len();
    let base: u8 = if 20 <= len && len <= 200 { 4 } else if len > 10 { 2 } else { 0 };
    base + (if verb { 3 } else { 0 }) + (if meas { 3 } else { 0 })
}

/// The key of a plan: its id.
pub open spec fn plan_key() -> spec_fn(PlanView) -> Seq<char> {
    |p: PlanView| p.id
}

/// The plan with id `id`.
pub open spec fn find_plan(ps: Seq<PlanView>, id: Seq<char>) -> Option<PlanView> {
    find_by_key(ps, plan_key(), id)
}

/// The position of the plan with id `id`.
pub open spec fn plan_index(ps: Seq<PlanView>, id: Seq<char>) -> int {
    choose|i: int| 0 <= i < ps.len() && ps[i].id == id
}

/// The plans after storing `p`: it replaces the plan with its id, or is appended.
pub open spec fn store_plan(ps: Seq<PlanView>, p: PlanView) -> Seq<PlanView> {
    if has_key(ps, plan_key(), p.id) { ps.update(plan_index(ps, p.id), p) } else { ps.push(p) }
}

/// The plans without the one with id `id`.
pub open spec fn remove_plan(ps: Seq<PlanView>, id: Seq<char>) -> Seq<PlanView> {
    if has_key(ps, plan_key(), id) { ps.remove(plan_index(ps, id)) } else { ps }
}

/// `q` is `p` with status `st`, comment `c` and a new update time.
pub open spec fn with_status(p: PlanView, st: PlanStatus, c: Option<Seq<char>>, q: PlanView) -> bool {
    q == PlanView { status: st, problem_comment: c, updated_at: q.updated_at, ..p }
}

/// The plan has status `s`.
pub open spec fn status_is(s: PlanStatus) -> spec_fn(PlanView) -> bool {
    |p: PlanView| p.status == s
}

/// The plan is of level `l`.
pub open spec fn level_is(l: PlanLevel) -> spec_fn(PlanView) -> bool {
    |p: PlanView| p.level == l
}

/// The plan has status `st` (when given) and level `lv` (when given).
pub open spec fn selects(st: Option<PlanStatus>, lv: Option<PlanLevel>) -> spec_fn(PlanView) -> bool {
    |p: PlanView| (st matches Some(s) ==> p.status == s) && (lv matches Some(l) ==> p.level == l)
}

/// Why a plan operation was refused.
#[derive(Debug, Clone, Copy, PartialEq, Eq, Structural)]
pub enum PlanError {
    /// No plan has the given id.
    NotFound,
    /// The parent of a P1 story is not a P0 epic.
    NotP0,
    /// The plan is not a P1 story.
    NotP1,
    /// The plan is not a P3 subtask.
    NotP3,
    /// A P3 subtask cannot be decomposed.
    CannotDecomposeP3,
    /// The LLM gave no usable subtasks.
    EmptyDecomposition,
    /// No LLM answer was available.
    LlmUnavailable,
}

/// The message of a plan error.
pub open spec fn plan_error_text(e: PlanError) -> Seq<char> {
    match e {
        PlanError::NotFound => "plan not found"@,
        PlanError::NotP0 => "parent is not P0"@,
        PlanError::NotP1 => "plan is not P1"@,
        PlanError::NotP3 => "plan is not P3"@,
        PlanError::CannotDecomposeP3 => "P3 cannot be decomposed"@,
        PlanError::EmptyDecomposition => "LLM returned no subtasks"@,
        PlanError::LlmUnavailable => "LLM unavailable"@,
    }
}

impl PlanError {
    /// The error's message (see `plan_error_text`).
    pub fn message(&self) -> (s: String)
        ensures
            s@ == plan_error_text(*self),
    {
        match self {
            PlanError::NotFound => "plan not found".to_owned(),
            PlanError::NotP0 => "parent is not P0".to_owned(),
            PlanError::NotP1 => "plan is not P1".to_owned(),
            PlanError::NotP3 => "plan is not P3".to_owned(),
            PlanError::CannotDecomposeP3 => "P3 cannot be decomposed".to_owned(),
            PlanError::EmptyDecomposition => "LLM returned no subtasks".to_owned(),
            PlanError::LlmUnavailable => "LLM unavailable".to_owned(),
        }
    }
}

/// The depth a plan is decomposed to: for an epic, the depth of its size category; for a
/// story and a task, the next level; a subtask is refused.
pub open spec fn decompose_depth(p: PlanView) -> Result<nat, PlanError> {
    match p.level {
        PlanLevel::P0 => Ok(depth_of(size_of(p.description))),
        PlanLevel::P1 => Ok(2),
        PlanLevel::P2 => Ok(3),
        PlanLevel::P3 => Err(PlanError::CannotDecomposeP3),
    }
}

/// The level of the children made at a decomposition depth (1 to 3).
pub open spec fn child_level_of(depth: nat) -> PlanLevel {
    if depth == 1 { PlanLevel::P1 } else if depth == 2 { PlanLevel::P2 } else { PlanLevel::P3 }
}

/// The plans after storing each of `kids` in turn.
pub open spec fn store_all(ps: Seq<PlanView>, kids: Seq<PlanView>) -> Seq<PlanView>
    decreases kids.len(),
{
    if kids.len() == 0 { ps } else { store_plan(store_all(ps, kids.drop_last()), kids.last()) }
}

/// `kid` is a fresh child of plan `parent_id` at level `cl` with description `d`: it
/// awaits review and, as a story, carries its quality score.
pub open spec fn fresh_child(kid: PlanView, parent_id: Seq<char>, cl: PlanLevel, d: Seq<char>) -> bool {
    &&& has_prefix(kid.id, level_name(cl) + "-"@)
    &&& kid.level == cl
    &&& kid.status == PlanStatus::PendingReview
    &&& kid.description == d
    &&& kid.parent_id == Some(parent_id)
    &&& !kid.autonomous_mode
    &&& kid.quality_tenths == (if cl == PlanLevel::P1 { quality_of(d) } else { 0 })
    &&& kid.claimed_by is None && kid.result is None && kid.problem_comment is None
}

/// `kids` are the children made from `descs`, one each in order, and `after` is `ps` with
/// them stored.
pub open spec fn children_made(
    ps: Seq<PlanView>,
    parent_id: Seq<char>,
    cl: PlanLevel,
    descs: Seq<Seq<char>>,
    kids: Seq<PlanView>,
    after: Seq<PlanView>,
) -> bool {
    &&& kids.len() == descs.len()
    &&& forall|k: int| 0 <= k < kids.len() ==> fresh_child(#[trigger] kids[k], parent_id, cl, descs[k])
    &&& after == store_all(ps, kids)
}

/// Lines joined with line feeds between them.
pub open spec fn joined(ls: Seq<Seq<char>>) -> Seq<char>
    decreases ls.len(),
{
    if ls.len() == 0 {
        Seq::empty()
    } else if ls.len() == 1 {
        ls[0]
    } else {
        joined(ls.drop_last()) + seq!['\n'] + ls.last()
    }
}

/// Lines joined with line feeds between them.
pub fn join_lines(v: &Vec<String>) -> (r: String)
    ensures
        r@ == joined(strings_view(v@)),
{
    let ghost sv = strings_view(v@);
    let mut out = String::new();
    let mut i: usize = 0;
    while i < v.len()
        invariant
            i <= v.len(),
            sv == strings_view(v@),
            out@ == joined(sv.take(i as int)),
        decreases v.len() - i,
    {
        let ghost t1 = sv.take(i + 1);
        assert(t1.drop_last() =~= sv.take(i as int));
        assert(t1.last() == v@[i as int]@);
        if i > 0 {
            out.append("\n");
            proof {
                reveal_strlit("\n");
            }
        } else {
            assert(t1 =~= seq![v@[0]@]);
        }
        out.append(v[i].as_str());
        i += 1;
    }
    assert(sv.take(v.len() as int) =~= sv);
    out
}

/// What a decomposition still needs from the LLM.
pub struct DecomposeRequest {
    pub parent_description: String,
    pub depth: usize,
    pub child_level: PlanLevel,
}

/// PlanActor: the plans P0–P3, kept in the order they were first stored, with unique
/// ids, and the orchestrator that decomposes them.
pub struct PlanActor {
    plans: Vec<Plan>,
    orchestrator: OrchestratorActor,
}

impl PlanActor {
    /// The stored plans, in order.
    pub closed spec fn plans(&self) -> Seq<PlanView> {
        plans_view(self.plans@)
    }

    /// The plans have unique ids.
    pub open spec fn wf(&self) -> bool {
        keys_unique(self.plans(), plan_key())
    }

    /// The orchestrator's prepared answers.
    pub closed spec fn prepared(&self) -> Seq<Vec<String>> {
        self.orchestrator.prepared()
    }

    /// The settings of the orchestrator's LLM client.
    pub closed spec fn client(&self) -> super::llm_client::LlmClientView {
        self.orchestrator.client()
    }

    /// A plan actor with no plans and an orchestrator for the default local endpoint
    /// (`http://localhost:8000`, model `kat-coder-pro-v2`, no API key).
    pub fn new() -> (a: Self)
        ensures
            a.wf(),
            a.plans() == Seq::<PlanView>::empty(),
            a.prepared().len() == 0,
            a.client().provider == super::config::LlmProvider::OpenAICompatible,
            a.client().base_url == "http://localhost:8000"@,
            a.client().api_key is None,
            a.client().model == "kat-coder-pro-v2"@,
            a.client().timeout_secs == 30,
    {
        let o = OrchestratorActor::new("http://localhost:8000".to_owned(), None, "kat-coder-pro-v2".to_owned());
        let a = PlanActor { plans: Vec::new(), orchestrator: o };
        assert(a.plans() =~= Seq::<PlanView>::empty());
        a
    }

    /// A plan actor with no plans and the given orchestrator.
    pub fn with_orchestrator(orchestrator: OrchestratorActor) -> (a: Self)
        ensures
            a.wf(),
            a.plans() == Seq::<PlanView>::empty(),
            a.prepared() == orchestrator.prepared(),
            a.client() == orchestrator.client(),
    {
        let a = PlanActor { plans: Vec::new(), orchestrator };
        assert(a.plans() =~= Seq::<PlanView>::empty());
        a
    }

    /// The orchestrator.
    pub fn orchestrator(&self) -> (o: &OrchestratorActor)
        ensures
            o.prepared() == self.prepared(),
            o.client() == self.client(),
    {
        &self.orchestrator
    }

    fn position(&self, id: &str) -> (r: Option<usize>)
        requires
            self.wf(),
        ensures
            match r {
                Some(i) => i < self.plans().len() && self.plans()[i as int].id == id@
                    && plan_index(self.plans(), id@) == i
                    && find_plan(self.plans(), id@) == Some(self.plans()[i as int]),
                None => !has_key(self.plans(), plan_key(), id@) && find_plan(self.plans(), id@) is None,
            },
    {
        let mut i: usize = 0;
        while i < self.plans.len()
            invariant
                self.wf(),
                i <= self.plans.len(),
                forall|k: int| 0 <= k < i ==> self.plans()[k].id != id@,
            decreases self.plans.len() - i,
        {
            assert(self.plans()[i as int] == self.plans@[i as int]@);
            if same_text(self.plans[i].id.as_str(), id) {
                proof {
                    lemma_find_at(self.plans(), plan_key(), i as int);
                    let j = plan_index(self.plans(), id@);
                    assert(0 <= j < self.plans().len() && self.plans()[j].id == id@);
                    assert(plan_key()(self.plans()[j]) == plan_key()(self.plans()[i as int]));
                    assert(j == i);
                }
                return Some(i);
            }
            i += 1;
        }
        None
    }

    /// Store a plan: it replaces the plan with its id, or is appended.
    fn store(&mut self, p: Plan)
        requires
            old(self).wf(),
        ensures
            final(self).wf(),
            final(self).plans() == store_plan(old(self).plans(), p@),
            final(self).prepared() == old(self).prepared(),
    {
        let ghost ps = self.plans();
        let ghost pv = p@;
        match self.position(p.id.as_str()) {
            Some(i) => {
                proof {
                    lemma_replace(ps, plan_key(), i as int, pv);
                }
                self.plans.set(i, p);
                assert(self.plans() =~= ps.update(i as int, pv));
            },
            None => {
                proof {
                    lemma_append(ps, plan_key(), pv);
                }
                self.plans.push(p);
                assert(self.plans() =~= ps.push(pv));
            },
        }
    }

    /// The plan with id `id`, if any.
    pub fn get_plan(&self, id: &str) -> (r: Option<Plan>)
        requires
            self.wf(),
        ensures
            match r {
                Some(p) => find_plan(self.plans(), id@) == Some(p@),
                None => find_plan(self.plans(), id@) is None,
            },
    {
        match self.position(id) {
            Some(i) => Some(self.plans[i].clone()),
            None => None,
        }
    }

    /// Store `updated` in place of the plan with its id (or as a new plan).
    pub fn update_plan(&mut self, id: &str, updated: Plan)
        requires
            old(self).wf(),
        ensures
            final(self).wf(),
            final(self).plans() == store_plan(old(self).plans(), updated@),
    {
        self.store(updated);
    }

    /// Set the status of the plan with id `id`.
    pub fn set_status(&mut self, id: &str, new_status: PlanStatus) -> (r: Result<(), PlanError>)
        requires
            old(self).wf(),
        ensures
            final(self).wf(),
            final(self).prepared() == old(self).prepared(),
            match find_plan(old(self).plans(), id@) {
                None => r == Err::<(), PlanError>(PlanError::NotFound) && final(self).plans() == old(self).plans(),
                Some(p) => r is Ok && exists|q: PlanView| with_status(p, new_status, p.problem_comment, q)
                    && #[trigger] final(self).plans() == store_plan(old(self).plans(), q),
            },
    {
        match self.position(id) {
            None => Err(PlanError::NotFound),
            Some(i) => {
                let mut q = self.plans[i].clone();
                q.status = new_status;
                q.updated_at = now();
                let ghost qv = q@;
                self.store(q);
                Ok(())
            },
        }
    }
    /// Move the plan at `i` to status `st`; with `comment`, its problem comment becomes
    /// it. Returns the plan as stored.
    fn move_to(&mut self, i: usize, st: PlanStatus, comment: Option<String>) -> (q: Plan)
        requires
            old(self).wf(),
            i < old(self).plans().len(),
        ensures
            final(self).wf(),
            final(self).prepared() == old(self).prepared(),
            with_status(old(self).plans()[i as int], st,
                match comment { Some(c) => Some(c@), None => old(self).plans()[i as int].problem_comment }, q@),
            final(self).plans() == store_plan(old(self).plans(), q@),
    {
        let mut q = self.plans[i].clone();
        q.status = st;
        match comment {
            Some(c) => {
                q.problem_comment = Some(c);
            },
            None => {},
        }
        q.updated_at = now();
        let out = q.clone();
        self.store(q);
        out
    }

    /// P0: create an epic.
    pub fn plan_create_p0(&mut self, description: String, autonomous_mode: bool) -> (p: Plan)
        requires
            old(self).wf(),
        ensures
            final(self).wf(),
            final(self).prepared() == old(self).prepared(),
            has_prefix(p@.id, "P0-"@),
            p@.level == PlanLevel::P0,
            p@.status == PlanStatus::Created,
            p@.description == description@,
            p@.parent_id is None,
            p@.autonomous_mode == autonomous_mode,
            p@.quality_tenths == 0,
            p@.claimed_by is None && p@.result is None && p@.problem_comment is None,
            final(self).plans() == store_plan(old(self).plans(), p@),
    {
        let mut plan = Plan::new(PlanLevel::P0, description, None);
        proof {
            reveal_strlit("P0-");
            reveal_strlit("P0");
            reveal_strlit("-");
            assert(level_name(PlanLevel::P0) + "-"@ =~= "P0-"@);
        }
        plan.autonomous_mode = autonomous_mode;
        let out = plan.clone();
        self.store(plan);
        out
    }

    /// P1: propose a story under epic `p0_id`; it awaits review and gets its quality
    /// score.
    pub fn plan_propose_p1(&mut self, p0_id: &str, description: String) -> (r: Result<Plan, PlanError>)
        requires
            old(self).wf(),
        ensures
            final(self).wf(),
            final(self).prepared() == old(self).prepared(),
            match find_plan(old(self).plans(), p0_id@) {
                None => r == Err::<Plan, PlanError>(PlanError::NotFound) && final(self).plans() == old(self).plans(),
                Some(parent) => if parent.level != PlanLevel::P0 {
                    r == Err::<Plan, PlanError>(PlanError::NotP0) && final(self).plans() == old(self).plans()
                } else {
                    r matches Ok(p) && has_prefix(p@.id, "P1-"@) && p@.level == PlanLevel::P1
                        && p@.status == PlanStatus::PendingReview && p@.description == description@
                        && p@.parent_id == Some(p0_id@) && !p@.autonomous_mode
                        && p@.quality_tenths == quality_of(description@)
                        && p@.claimed_by is None && p@.result is None && p@.problem_comment is None
                        && final(self).plans() == store_plan(old(self).plans(), p@)
                },
            },
    {
        match self.position(p0_id) {
            None => Err(PlanError::NotFound),
            Some(i) => {
                if self.plans[i].level != PlanLevel::P0 {
                    return Err(PlanError::NotP0);
                }
                let q = heuristic_quality(description.as_str());
                let mut plan = Plan::new(PlanLevel::P1, description, Some(p0_id.to_owned()));
                proof {
                    reveal_strlit("P1-");
                    reveal_strlit("P1");
                    reveal_strlit("-");
                    assert(level_name(PlanLevel::P1) + "-"@ =~= "P1-"@);
                }
                plan.status = PlanStatus::PendingReview;
                plan.quality_tenths = q;
                let out = plan.clone();
                self.store(plan);
                Ok(out)
            },
        }
    }

    /// P1: approve a story.
    pub fn plan_approve_p1(&mut self, p1_id: &str) -> (r: Result<Plan, PlanError>)
        requires
            old(self).wf(),
        ensures
            final(self).wf(),
            final(self).prepared() == old(self).prepared(),
            match find_plan(old(self).plans(), p1_id@) {
                None => r == Err::<Plan, PlanError>(PlanError::NotFound) && final(self).plans() == old(self).plans(),
                Some(p) => if p.level != PlanLevel::P1 {
                    r == Err::<Plan, PlanError>(PlanError::NotP1) && final(self).plans() == old(self).plans()
                } else {
                    r matches Ok(q) && with_status(p, PlanStatus::Approved, p.problem_comment, q@)
                        && final(self).plans() == store_plan(old(self).plans(), q@)
                },
            },
    {
        match self.position(p1_id) {
            None => Err(PlanError::NotFound),
            Some(i) => {
                if self.plans[i].level != PlanLevel::P1 {
                    return Err(PlanError::NotP1);
                }
                Ok(self.move_to(i, PlanStatus::Approved, None))
            },
        }
    }

    /// P1: reject a story, with the reason as its comment.
    pub fn plan_reject_p1(&mut self, p1_id: &str, reason: String) -> (r: Result<Plan, PlanError>)
        requires
            old(self).wf(),
        ensures
            final(self).wf(),
            final(self).prepared() == old(self).prepared(),
            match find_plan(old(self).plans(), p1_id@) {
                None => r == Err::<Plan, PlanError>(PlanError::NotFound) && final(self).plans() == old(self).plans(),
                Some(p) => if p.level != PlanLevel::P1 {
                    r == Err::<Plan, PlanError>(PlanError::NotP1) && final(self).plans() == old(self).plans()
                } else {
                    r matches Ok(q) && with_status(p, PlanStatus::Rejected, Some(reason@), q@)
                        && final(self).plans() == store_plan(old(self).plans(), q@)
                },
            },
    {
        match self.position(p1_id) {
            None => Err(PlanError::NotFound),
            Some(i) => {
                if self.plans[i].level != PlanLevel::P1 {
                    return Err(PlanError::NotP1);
                }
                Ok(self.move_to(i, PlanStatus::Rejected, Some(reason)))
            },
        }
    }

    /// P3: an agent claims a subtask.
    pub fn plan_claim(&mut self, p3_id: &str, agent_id: String) -> (r: Result<Plan, PlanError>)
        requires
            old(self).wf(),
        ensures
            final(self).wf(),
            final(self).prepared() == old(self).prepared(),
            match find_plan(old(self).plans(), p3_id@) {
                None => r == Err::<Plan, PlanError>(PlanError::NotFound) && final(self).plans() == old(self).plans(),
                Some(p) => if p.level != PlanLevel::P3 {
                    r == Err::<Plan, PlanError>(PlanError::NotP3) && final(self).plans() == old(self).plans()
                } else {
                    r matches Ok(q) && q@ == (PlanView { status: PlanStatus::InProgress, claimed_by: Some(agent_id@),
                        updated_at: q@.updated_at, ..p })
                        && final(self).plans() == store_plan(old(self).plans(), q@)
                },
            },
    {
        match self.position(p3_id) {
            None => Err(PlanError::NotFound),
            Some(i) => {
                if self.plans[i].level != PlanLevel::P3 {
                    return Err(PlanError::NotP3);
                }
                let mut q = self.plans[i].clone();
                q.status = PlanStatus::InProgress;
                q.claimed_by = Some(agent_id);
                q.updated_at = now();
                let out = q.clone();
                self.store(q);
                Ok(out)
            },
        }
    }

    /// P3: complete a subtask with its result.
    pub fn plan_complete(&mut self, p3_id: &str, result: String) -> (r: Result<Plan, PlanError>)
        requires
            old(self).wf(),
        ensures
            final(self).wf(),
            final(self).prepared() == old(self).prepared(),
            match find_plan(old(self).plans(), p3_id@) {
                None => r == Err::<Plan, PlanError>(PlanError::NotFound) && final(self).plans() == old(self).plans(),
                Some(p) => if p.level != PlanLevel::P3 {
                    r == Err::<Plan, PlanError>(PlanError::NotP3) && final(self).plans() == old(self).plans()
                } else {
                    r matches Ok(q) && q@ == (PlanView { status: PlanStatus::Done, result: Some(result@),
                        updated_at: q@.updated_at, ..p })
                        && final(self).plans() == store_plan(old(self).plans(), q@)
                },
            },
    {
        match self.position(p3_id) {
            None => Err(PlanError::NotFound),
            Some(i) => {
                if self.plans[i].level != PlanLevel::P3 {
                    return Err(PlanError::NotP3);
                }
                let mut q = self.plans[i].clone();
                q.status = PlanStatus::Done;
                q.result = Some(result);
                q.updated_at = now();
                let out = q.clone();
                self.store(q);
                Ok(out)
            },
        }
    }

    /// Mark any plan as having a problem, with a comment.
    pub fn plan_set_problem(&mut self, plan_id: &str, comment: String) -> (r: Result<Plan, PlanError>)
        requires
            old(self).wf(),
        ensures
            final(self).wf(),
            final(self).prepared() == old(self).prepared(),
            match find_plan(old(self).plans(), plan_id@) {
                None => r == Err::<Plan, PlanError>(PlanError::NotFound) && final(self).plans() == old(self).plans(),
                Some(p) => r matches Ok(q) && with_status(p, PlanStatus::Problem, Some(comment@), q@)
                    && final(self).plans() == store_plan(old(self).plans(), q@),
            },
    {
        match self.position(plan_id) {
            None => Err(PlanError::NotFound),
            Some(i) => Ok(self.move_to(i, PlanStatus::Problem, Some(comment))),
        }
    }

    /// Resolve a plan's problem: it is in progress again, its comment `RESOLVED: ` and
    /// the resolution.
    pub fn plan_resolve_problem(&mut self, plan_id: &str, resolution: String) -> (r: Result<Plan, PlanError>)
        requires
            old(self).wf(),
        ensures
            final(self).wf(),
            final(self).prepared() == old(self).prepared(),
            match find_plan(old(self).plans(), plan_id@) {
                None => r == Err::<Plan, PlanError>(PlanError::NotFound) && final(self).plans() == old(self).plans(),
                Some(p) => r matches Ok(q) && with_status(p, PlanStatus::InProgress, Some("RESOLVED: "@ + resolution@), q@)
                    && final(self).plans() == store_plan(old(self).plans(), q@),
            },
    {
        match self.position(plan_id) {
            None => Err(PlanError::NotFound),
            Some(i) => {
                let mut c = "RESOLVED: ".to_owned();
                c.append(resolution.as_str());
                Ok(self.move_to(i, PlanStatus::InProgress, Some(c)))
            },
        }
    }

    /// Archive a plan (soft delete).
    pub fn plan_archive(&mut self, plan_id: &str) -> (r: Result<Plan, PlanError>)
        requires
            old(self).wf(),
        ensures
            final(self).wf(),
            final(self).prepared() == old(self).prepared(),
            match find_plan(old(self).plans(), plan_id@) {
                None => r == Err::<Plan, PlanError>(PlanError::NotFound) && final(self).plans() == old(self).plans(),
                Some(p) => r matches Ok(q) && with_status(p, PlanStatus::Archived, p.problem_comment, q@)
                    && final(self).plans() == store_plan(old(self).plans(), q@),
            },
    {
        match self.position(plan_id) {
            None => Err(PlanError::NotFound),
            Some(i) => Ok(self.move_to(i, PlanStatus::Archived, None)),
        }
    }

    /// Delete a plan for good (`force` makes no difference); whether it existed.
    pub fn plan_delete(&mut self, plan_id: &str, force: bool) -> (r: bool)
        requires
            old(self).wf(),
        ensures
            final(self).wf(),
            final(self).prepared() == old(self).prepared(),
            r == has_key(old(self).plans(), plan_key(), plan_id@),
            final(self).plans() == remove_plan(old(self).plans(), plan_id@),
    {
        let ghost ps = self.plans();
        match self.position(plan_id) {
            None => false,
            Some(i) => {
                proof {
                    lemma_remove(ps, plan_key(), i as int);
                }
                self.plans.remove(i);
                assert(self.plans() =~= ps.remove(i as int));
                true
            },
        }
    }

    /// The plans with a status, in storage order; without a status, every plan, level by
    /// level (P0 first), each level in storage order.
    pub fn plan_status(&self, status_filter: Option<PlanStatus>) -> (r: Vec<Plan>)
        requires
            self.wf(),
        ensures
            plans_view(r@) == (match status_filter {
                Some(s) => self.plans().filter(status_is(s)),
                None => self.plans().filter(level_is(PlanLevel::P0)) + self.plans().filter(level_is(PlanLevel::P1))
                    + self.plans().filter(level_is(PlanLevel::P2)) + self.plans().filter(level_is(PlanLevel::P3)),
            }),
    {
        match status_filter {
            Some(s) => {
                assert(selects(Some(s), None) =~= status_is(s));
                self.select(Some(s), None)
            },
            None => {
                assert(selects(None, Some(PlanLevel::P0)) =~= level_is(PlanLevel::P0));
                assert(selects(None, Some(PlanLevel::P1)) =~= level_is(PlanLevel::P1));
                assert(selects(None, Some(PlanLevel::P2)) =~= level_is(PlanLevel::P2));
                assert(selects(None, Some(PlanLevel::P3)) =~= level_is(PlanLevel::P3));
                let mut all = self.select(None, Some(PlanLevel::P0));
                let mut l1 = self.select(None, Some(PlanLevel::P1));
                let mut l2 = self.select(None, Some(PlanLevel::P2));
                let mut l3 = self.select(None, Some(PlanLevel::P3));
                let ghost a0 = plans_view(all@);
                let ghost a1 = plans_view(l1@);
                let ghost a2 = plans_view(l2@);
                let ghost a3 = plans_view(l3@);
                all.append(&mut l1);
                all.append(&mut l2);
                all.append(&mut l3);
                assert(plans_view(all@) =~= a0 + a1 + a2 + a3);
                all
            },
        }
    }

    /// The plans with status `st` (when given) and level `lv` (when given), in order.
    fn select(&self, st: Option<PlanStatus>, lv: Option<PlanLevel>) -> (r: Vec<Plan>)
        ensures
            plans_view(r@) == self.plans().filter(selects(st, lv)),
    {
        let ghost ps = self.plans();
        let ghost f = selects(st, lv);
        let mut r: Vec<Plan> = Vec::new();
        let mut i: usize = 0;
        while i < self.plans.len()
            invariant
                i <= self.plans.len(),
                ps == self.plans(),
                f == selects(st, lv),
                plans_view(r@) == ps.take(i as int).filter(f),
            decreases self.plans.len() - i,
        {
            proof {
                lemma_filter_step(ps, f, i as int);
            }
            assert(ps[i as int] == self.plans@[i as int]@);
            let ok_s = match st {
                Some(s) => self.plans[i].status == s,
                None => true,
            };
            let ok_l = match lv {
                Some(l) => self.plans[i].level == l,
                None => true,
            };
            if ok_s && ok_l {
                let ghost before = plans_view(r@);
                r.push(self.plans[i].clone());
                assert(plans_view(r@) =~= before.push(ps[i as int]));
            }
            i += 1;
        }
        proof {
            lemma_take_full(ps);
        }
        r
    }
    /// What decomposing plan `parent_id` needs: nothing at depth 0, else the parent's
    /// description, the depth and the children's level.
    pub fn decompose_request(&self, parent_id: &str) -> (r: Result<Option<DecomposeRequest>, PlanError>)
        requires
            self.wf(),
        ensures
            match find_plan(self.plans(), parent_id@) {
                None => r == Err::<Option<DecomposeRequest>, PlanError>(PlanError::NotFound),
                Some(p) => match decompose_depth(p) {
                    Err(e) => r == Err::<Option<DecomposeRequest>, PlanError>(e),
                    Ok(d) => if d == 0 {
                        r matches Ok(None)
                    } else {
                        r matches Ok(Some(q)) && q.depth == d && q.child_level == child_level_of(d)
                            && q.parent_description@ == p.description
                    },
                },
            },
    {
        match self.position(parent_id) {
            None => Err(PlanError::NotFound),
            Some(i) => {
                let p = &self.plans[i];
                let depth: usize = match p.level {
                    PlanLevel::P0 => {
                        let size = self.orchestrator.estimate_size(p.description.as_str());
                        self.orchestrator.depth_for_size(size)
                    },
                    PlanLevel::P1 => 2,
                    PlanLevel::P2 => 3,
                    PlanLevel::P3 => {
                        return Err(PlanError::CannotDecomposeP3);
                    },
                };
                if depth == 0 {
                    return Ok(None);
                }
                let child_level = if depth == 1 {
                    PlanLevel::P1
                } else if depth == 2 {
                    PlanLevel::P2
                } else {
                    PlanLevel::P3
                };
                Ok(Some(DecomposeRequest { parent_description: p.description.clone(), depth, child_level }))
            },
        }
    }

    /// Store the children of plan `parent_id` at level `cl`, one per description, in order.
    fn add_children(&mut self, parent_id: &str, cl: PlanLevel, descs: &Vec<String>) -> (r: Vec<Plan>)
        requires
            old(self).wf(),
        ensures
            final(self).wf(),
            final(self).prepared() == old(self).prepared(),
            children_made(old(self).plans(), parent_id@, cl, strings_view(descs@), plans_view(r@), final(self).plans()),
    {
        let ghost ps0 = self.plans();
        let ghost dv = strings_view(descs@);
        let mut kids: Vec<Plan> = Vec::new();
        let mut i: usize = 0;
        proof {
            reveal_strlit("-");
        }
        while i < descs.len()
            invariant
                i <= descs.len(),
                self.wf(),
                self.prepared() == old(self).prepared(),
                ps0 == old(self).plans(),
                dv == strings_view(descs@),
                children_made(ps0, parent_id@, cl, dv.take(i as int), plans_view(kids@), self.plans()),
            decreases descs.len() - i,
        {
            let d = descs[i].clone();
            let q = if cl == PlanLevel::P1 { heuristic_quality(d.as_str()) } else { 0 };
            let mut plan = Plan::new(cl, d, Some(parent_id.to_owned()));
            plan.status = PlanStatus::PendingReview;
            plan.quality_tenths = q;
            let ghost kv = plans_view(kids@);
            let ghost pv = plan@;
            let ghost before = self.plans();
            self.store(plan.clone());
            kids.push(plan);
            proof {
                assert(plans_view(kids@) =~= kv.push(pv));
                assert(dv.take(i + 1) =~= dv.take(i as int).push(dv[i as int]));
                assert(plans_view(kids@).drop_last() =~= kv);
                assert forall|k: int| 0 <= k < plans_view(kids@).len() implies
                    fresh_child(#[trigger] plans_view(kids@)[k], parent_id@, cl, dv.take(i + 1)[k]) by {
                    if k < kv.len() {
                        assert(plans_view(kids@)[k] == kv[k]);
                    }
                }
            }
            i += 1;
        }
        assert(dv.take(descs.len() as int) =~= dv);
        kids
    }

    /// Decompose plan `parent_id` into the subtasks `generated` (as the LLM gave them):
    /// nothing to do at depth 0; no subtasks is refused; else one child per subtask at the
    /// next level, awaiting review.
    pub fn plan_decompose_from(&mut self, parent_id: &str, generated: &Vec<String>) -> (r: Result<Vec<Plan>, PlanError>)
        requires
            old(self).wf(),
        ensures
            final(self).wf(),
            final(self).prepared() == old(self).prepared(),
            match find_plan(old(self).plans(), parent_id@) {
                None => r == Err::<Vec<Plan>, PlanError>(PlanError::NotFound) && final(self).plans() == old(self).plans(),
                Some(p) => match decompose_depth(p) {
                    Err(e) => r == Err::<Vec<Plan>, PlanError>(e) && final(self).plans() == old(self).plans(),
                    Ok(d) => if d == 0 {
                        r matches Ok(v) && v@.len() == 0 && final(self).plans() == old(self).plans()
                    } else if generated@.len() == 0 {
                        r == Err::<Vec<Plan>, PlanError>(PlanError::EmptyDecomposition) && final(self).plans() == old(self).plans()
                    } else {
                        r matches Ok(v) && children_made(old(self).plans(), parent_id@, child_level_of(d),
                            strings_view(generated@), plans_view(v@), final(self).plans())
                    },
                },
            },
    {
        match self.decompose_request(parent_id) {
            Err(e) => Err(e),
            Ok(None) => Ok(Vec::new()),
            Ok(Some(req)) => {
                if generated.len() == 0 {
                    return Err(PlanError::EmptyDecomposition);
                }
                Ok(self.add_children(parent_id, req.child_level, generated))
            },
        }
    }

    /// Decompose plan `parent_id` with the orchestrator's next prepared answer, the oldest
    /// queued one: with none, the LLM is unavailable; its subtasks are parsed as `children_of` says.
    pub fn plan_decompose(&mut self, parent_id: &str) -> (r: Result<Vec<Plan>, PlanError>)
        requires
            old(self).wf(),
        ensures
            final(self).wf(),
            match find_plan(old(self).plans(), parent_id@) {
                None => r == Err::<Vec<Plan>, PlanError>(PlanError::NotFound) && final(self).plans() == old(self).plans()
                    && final(self).prepared() == old(self).prepared(),
                Some(p) => match decompose_depth(p) {
                    Err(e) => r == Err::<Vec<Plan>, PlanError>(e) && final(self).plans() == old(self).plans()
                        && final(self).prepared() == old(self).prepared(),
                    Ok(d) => if d == 0 {
                        r matches Ok(v) && v@.len() == 0 && final(self).plans() == old(self).plans()
                            && final(self).prepared() == old(self).prepared()
                    } else if old(self).prepared().len() == 0 {
                        r == Err::<Vec<Plan>, PlanError>(PlanError::LlmUnavailable) && final(self).plans() == old(self).plans()
                            && final(self).prepared() == old(self).prepared()
                    } else {
                        let ans = children_of(joined(strings_view(old(self).prepared()[0]@)));
                        &&& final(self).prepared() == old(self).prepared().drop_first()
                        &&& ans.len() == 0 ==> r == Err::<Vec<Plan>, PlanError>(PlanError::EmptyDecomposition)
                            && final(self).plans() == old(self).plans()
                        &&& ans.len() > 0 ==> (r matches Ok(v) && children_made(old(self).plans(), parent_id@,
                            child_level_of(d), ans, plans_view(v@), final(self).plans()))
                    },
                },
            },
    {
        match self.decompose_request(parent_id) {
            Err(e) => Err(e),
            Ok(None) => Ok(Vec::new()),
            Ok(Some(req)) => {
                let ghost ps = self.plans();
                let answer = match self.orchestrator.next_test_response() {
                    None => {
                        return Err(PlanError::LlmUnavailable);
                    },
                    Some(a) => a,
                };
                let text = join_lines(&answer);
                let children = parse_children(text.as_str());
                if children.len() == 0 {
                    return Err(PlanError::EmptyDecomposition);
                }
                Ok(self.add_children(parent_id, req.child_level, &children))
            },
        }
    }
}

impl super::Actor for PlanActor {
    fn name(&self) -> &'static str {
        "PlanActor"
    }

    /// The number of stored plans.
    fn size(&self) -> (r: usize)
        ensures
            r == self.plans().len(),
    {
        self.plans.len()
    }
}

} // verus!
