//! MemoryOrchestrator: the decisions of the memory coordinator — per-workspace counters
//! of new nodes and last activity, when a consolidation is due (enough new nodes, or idle
//! with some), the in-flight guard, and a bounded log of decisions (newest first).
//! Receiving events, the clock and running a consolidation are the caller's.

use vstd::prelude::*;
use crate::keyed::{keys_unique, has_key, find_by_key, lemma_find_at, lemma_replace, lemma_append,
    remove_value, lemma_remove_value};
use crate::text::string_from_chars;
use super::summary::{decimal, decimal_of};
use super::consolidate::ConsolidateStats;

verus! {

/// An event of the memory domain.
#[derive(Debug)]
pub enum MemoryEvent {
    /// A new L2 node was written; counts toward the cycle trigger.
    NodeWritten { workspace: String },
    /// An action was recorded; refreshes the last activity.
    ActionRecorded { workspace: String },
    /// The trust firewall refused a write (logged).
    TrustFirewallBlock { source_id: String, reason: String },
    /// A periodic tick: the idle sweep.
    Tick,
}

/// Settings of the cycle trigger.
#[derive(Debug, Clone, Copy)]
pub struct CoordinatorCfg {
    pub min_new_nodes: usize,
    pub max_idle_secs: u64,
    pub tick_secs: u64,
    pub max_decisions: usize,
}

impl Default for CoordinatorCfg {
    fn default() -> (r: Self)
        ensures
            r.min_new_nodes == 10,
            r.max_idle_secs == 3600,
            r.tick_secs == 60,
            r.max_decisions == 50,
    {
        CoordinatorCfg { min_new_nodes: 10, max_idle_secs: 3600, tick_secs: 60, max_decisions: 50 }
    }
}

/// A logged decision of the coordinator.
#[derive(Debug)]
pub struct DecisionLog {
    pub at: String,
    pub workspace: String,
    pub action: String,
    pub detail: String,
}

/// The content of a logged decision.
pub struct DecisionView {
    pub at: Seq<char>,
    pub workspace: Seq<char>,
    pub action: Seq<char>,
    pub detail: Seq<char>,
}

impl View for DecisionLog {
    type V = DecisionView;

    open spec fn view(&self) -> DecisionView {
        DecisionView { at: self.at@, workspace: self.workspace@, action: self.action@, detail: self.detail@ }
    }
}

impl Clone for DecisionLog {
    fn clone(&self) -> (r: Self)
        ensures
            r@ == self@,
    {
        DecisionLog { at: self.at.clone(), workspace: self.workspace.clone(), action: self.action.clone(),
            detail: self.detail.clone() }
    }
}

/// The views of a list of decisions.
pub open spec fn decisions_view(v: Seq<DecisionLog>) -> Seq<DecisionView> {
    v.map_values(|d: DecisionLog| d@)
}

/// The counters of one workspace.
#[derive(Debug)]
pub struct WsCounters {
    pub workspace: String,
    pub new_since_consolidation: usize,
    pub last_activity: u64,
}

/// The counters of a workspace as a (workspace, new nodes, last activity) triple.
pub open spec fn counters_view(v: Seq<WsCounters>) -> Seq<(Seq<char>, usize, u64)> {
    v.map_values(|c: WsCounters| (c.workspace@, c.new_since_consolidation, c.last_activity))
}

/// The key of a counter triple: its workspace.
pub open spec fn counter_key() -> spec_fn((Seq<char>, usize, u64)) -> Seq<char> {
    |c: (Seq<char>, usize, u64)| c.0
}

/// The position of the counters of `ws`.
pub open spec fn counter_index(cs: Seq<(Seq<char>, usize, u64)>, ws: Seq<char>) -> int {
    choose|i: int| 0 <= i < cs.len() && cs[i].0 == ws
}

/// `n + 1`, staying at `usize::MAX`.
pub open spec fn bumped(n: usize) -> usize {
    if n < usize::MAX { (n + 1) as usize } else { n }
}

/// The counters after activity in `ws` at `now`: its last activity becomes `now`, and its
/// new-node count grows by one when `new_node`; an unknown workspace starts from zero.
pub open spec fn touched(cs: Seq<(Seq<char>, usize, u64)>, ws: Seq<char>, now: u64, new_node: bool) -> Seq<(Seq<char>, usize, u64)> {
    if has_key(cs, counter_key(), ws) {
        let c = cs[counter_index(cs, ws)];
        cs.update(counter_index(cs, ws), (ws, if new_node { bumped(c.1) } else { c.1 }, now))
    } else {
        cs.push((ws, if new_node { 1usize } else { 0usize }, now))
    }
}

/// The counters after a consolidation of `ws` at `now`: its count restarts from zero.
pub open spec fn reset(cs: Seq<(Seq<char>, usize, u64)>, ws: Seq<char>, now: u64) -> Seq<(Seq<char>, usize, u64)> {
    if has_key(cs, counter_key(), ws) { cs.update(counter_index(cs, ws), (ws, 0usize, now)) } else { cs }
}

/// Seconds from `then` to `now` (zero if `now` is earlier).
pub open spec fn elapsed(then: u64, now: u64) -> u64 {
    if now >= then { (now - then) as u64 } else { 0 }
}

/// The workspace has new nodes and has been idle for at least `max_idle` seconds.
pub open spec fn idle_due(now: u64, max_idle: u64) -> spec_fn((Seq<char>, usize, u64)) -> bool {
    |c: (Seq<char>, usize, u64)| c.1 > 0 && elapsed(c.2, now) >= max_idle
}

/// The log after recording `d`: newest first, at most `max` entries.
pub open spec fn logged(log: Seq<DecisionView>, d: DecisionView, max: usize) -> Seq<DecisionView> {
    let l = seq![d] + log;
    l.take(if l.len() <= max { l.len() as int } else { max as int })
}

/// The request for an idle workspace.
pub open spec fn idle_request() -> spec_fn((Seq<char>, usize, u64)) -> (Seq<char>, Seq<char>) {
    |c: (Seq<char>, usize, u64)| (c.0, "cycle:idle"@)
}

/// A consolidation the coordinator asks for, and why.
#[derive(Debug)]
pub struct ConsolidationRequest {
    pub workspace: String,
    pub reason: String,
}

/// The views of a list of requests.
pub open spec fn requests_view(v: Seq<ConsolidationRequest>) -> Seq<(Seq<char>, Seq<char>)> {
    v.map_values(|r: ConsolidationRequest| (r.workspace@, r.reason@))
}

/// The detail logged for a finished consolidation.
pub open spec fn stats_detail(s: ConsolidateStats) -> Seq<char> {
    "l2_atoms="@ + decimal_of(s.l2_atoms as nat) + ", new_l1="@ + decimal_of(s.new_l1_count as nat)
        + ", new_l0="@ + decimal_of(s.new_l0_count as nat) + ", drained="@ + decimal_of(s.drained_from_queue as nat)
}

/// A workspace's counters in a status snapshot.
#[derive(Debug)]
pub struct CounterStatus {
    pub workspace: String,
    pub new_since_consolidation: usize,
    pub idle_secs: u64,
}

/// A snapshot of the coordinator.
#[derive(Debug)]
pub struct OrchestratorStatus {
    pub cfg: CoordinatorCfg,
    pub workspaces: Vec<CounterStatus>,
    pub consolidating: Vec<String>,
    pub recent_decisions: Vec<DecisionLog>,
}

/// Append the decimal notation of `n`.
fn push_decimal(out: &mut String, n: usize)
    ensures
        final(out)@ == old(out)@ + decimal_of(n as nat),
{
    let d = decimal(n);
    out.append(string_from_chars(d.as_slice()).as_str());
}

/// MemoryOrchestrator: the settings, the counters of each workspace (one per workspace),
/// the workspaces being consolidated, and the decision log (newest first).
pub struct MemoryOrchestrator {
    cfg: CoordinatorCfg,
    state: Vec<WsCounters>,
    consolidating: Vec<String>,
    decisions: Vec<DecisionLog>,
}

impl MemoryOrchestrator {
    /// The settings.
    pub closed spec fn config(&self) -> CoordinatorCfg {
        self.cfg
    }

    /// The counters, one (workspace, new nodes, last activity) triple per workspace.
    pub closed spec fn counters(&self) -> Seq<(Seq<char>, usize, u64)> {
        counters_view(self.state@)
    }

    /// The workspaces being consolidated.
    pub closed spec fn in_flight(&self) -> Seq<Seq<char>> {
        self.consolidating@.map_values(|s: String| s@)
    }

    /// The decision log, newest first.
    pub closed spec fn log(&self) -> Seq<DecisionView> {
        decisions_view(self.decisions@)
    }

    /// One counter per workspace, no workspace consolidated twice at once, and no more
    /// logged decisions than the settings keep.
    pub open spec fn wf(&self) -> bool {
        &&& keys_unique(self.counters(), counter_key())
        &&& self.in_flight().no_duplicates()
        &&& self.log().len() <= self.config().max_decisions
    }

    /// A coordinator with no counters, nothing in flight and an empty log.
    pub fn new(cfg: CoordinatorCfg) -> (o: Self)
        ensures
            o.wf(),
            o.config() == cfg,
            o.counters().len() == 0,
            o.in_flight().len() == 0,
            o.log().len() == 0,
    {
        let o = MemoryOrchestrator { cfg, state: Vec::new(), consolidating: Vec::new(), decisions: Vec::new() };
        assert(o.counters() =~= Seq::<(Seq<char>, usize, u64)>::empty());
        assert(o.in_flight() =~= Seq::<Seq<char>>::empty());
        assert(o.log() =~= Seq::<DecisionView>::empty());
        o
    }

    /// The settings.
    pub fn cfg(&self) -> (r: CoordinatorCfg)
        ensures
            r == self.config(),
    {
        self.cfg
    }

    fn position(&self, ws: &str) -> (r: Option<usize>)
        requires
            self.wf(),
        ensures
            match r {
                Some(i) => i < self.counters().len() && self.counters()[i as int].0 == ws@
                    && counter_index(self.counters(), ws@) == i && has_key(self.counters(), counter_key(), ws@),
                None => !has_key(self.counters(), counter_key(), ws@),
            },
    {
        let mut i: usize = 0;
        while i < self.state.len()
            invariant
                self.wf(),
                i <= self.state.len(),
                forall|k: int| 0 <= k < i ==> self.counters()[k].0 != ws@,
            decreases self.state.len() - i,
        {
            assert(self.counters()[i as int].0 == self.state@[i as int].workspace@);
            if crate::text::same_text(self.state[i].workspace.as_str(), ws) {
                proof {
                    assert(counter_key()(self.counters()[i as int]) == ws@);
                    let j = counter_index(self.counters(), ws@);
                    assert(counter_key()(self.counters()[j]) == counter_key()(self.counters()[i as int]));
                    assert(j == i);
                }
                return Some(i);
            }
            i += 1;
        }
        None
    }

    /// Record activity in `ws` at `now` (see `touched`); the workspace's new-node count.
    fn touch(&mut self, ws: &str, now: u64, new_node: bool) -> (count: usize)
        requires
            old(self).wf(),
        ensures
            final(self).wf(),
            final(self).config() == old(self).config(),
            final(self).in_flight() == old(self).in_flight(),
            final(self).log() == old(self).log(),
            final(self).counters() == touched(old(self).counters(), ws@, now, new_node),
            count == final(self).counters()[counter_index(final(self).counters(), ws@)].1,
            has_key(final(self).counters(), counter_key(), ws@),
    {
        let ghost cs = self.counters();
        match self.position(ws) {
            Some(i) => {
                let c = self.state[i].new_since_consolidation;
                let n = if new_node { c.saturating_add(1) } else { c };
                let ghost entry = (ws@, n, now);
                proof {
                    lemma_replace(cs, counter_key(), i as int, entry);
                }
                self.state.set(i, WsCounters { workspace: ws.to_owned(), new_since_consolidation: n, last_activity: now });
                assert(self.counters() =~= cs.update(i as int, entry));
                proof {
                    let t = self.counters();
                    assert(t[i as int].0 == ws@);
                    assert(has_key(t, counter_key(), ws@));
                    let j = counter_index(t, ws@);
                    assert(counter_key()(t[j]) == counter_key()(t[i as int]));
                }
                n
            },
            None => {
                let n: usize = if new_node { 1 } else { 0 };
                let ghost entry = (ws@, n, now);
                proof {
                    lemma_append(cs, counter_key(), entry);
                }
                self.state.push(WsCounters { workspace: ws.to_owned(), new_since_consolidation: n, last_activity: now });
                assert(self.counters() =~= cs.push(entry));
                proof {
                    let t = self.counters();
                    let i = cs.len() as int;
                    assert(t[i].0 == ws@);
                    assert(has_key(t, counter_key(), ws@));
                    let j = counter_index(t, ws@);
                    assert(counter_key()(t[j]) == counter_key()(t[i]));
                }
                n
            },
        }
    }

    /// Log a decision (newest first, keeping at most `max_decisions`).
    pub fn record_decision(&mut self, workspace: &str, action: &str, detail: &str, at: &str)
        requires
            old(self).wf(),
        ensures
            final(self).wf(),
            final(self).config() == old(self).config(),
            final(self).counters() == old(self).counters(),
            final(self).in_flight() == old(self).in_flight(),
            final(self).log() == logged(old(self).log(),
                DecisionView { at: at@, workspace: workspace@, action: action@, detail: detail@ },
                old(self).config().max_decisions),
    {
        let ghost l0 = self.log();
        let d = DecisionLog { at: at.to_owned(), workspace: workspace.to_owned(), action: action.to_owned(),
            detail: detail.to_owned() };
        let ghost dv = d@;
        self.decisions.insert(0, d);
        assert(self.log() =~= seq![dv] + l0);
        if self.decisions.len() > self.cfg.max_decisions {
            let ghost full = self.log();
            self.decisions.truncate(self.cfg.max_decisions);
            assert(self.log() =~= full.take(self.cfg.max_decisions as int));
        } else {
            assert(self.log().take(self.log().len() as int) =~= self.log());
        }
    }

    /// Take an event at time `now` (seconds) and `at` (its text form): update the counters
    /// and log, and return the consolidations now due, in order.
    /// - `NodeWritten`: the workspace is touched with a new node; due when its count
    ///   reaches `min_new_nodes` (reason `cycle:min_new_nodes`).
    /// - `ActionRecorded`: the workspace is touched; nothing is due.
    /// - `TrustFirewallBlock`: logged as `trust_block` under `(firewall)`; nothing is due.
    /// - `Tick`: every workspace with new nodes idle for `max_idle_secs` is due (reason
    ///   `cycle:idle`), in counter order.
    pub fn handle_event(&mut self, ev: &MemoryEvent, now: u64, at: &str) -> (r: Vec<ConsolidationRequest>)
        requires
            old(self).wf(),
        ensures
            final(self).wf(),
            final(self).config() == old(self).config(),
            final(self).in_flight() == old(self).in_flight(),
            match ev {
                MemoryEvent::NodeWritten { workspace } => {
                    let cs = touched(old(self).counters(), workspace@, now, true);
                    &&& final(self).counters() == cs
                    &&& final(self).log() == old(self).log()
                    &&& requests_view(r@) == (if cs[counter_index(cs, workspace@)].1 >= old(self).config().min_new_nodes {
                        seq![(workspace@, "cycle:min_new_nodes"@)]
                    } else {
                        Seq::empty()
                    })
                },
                MemoryEvent::ActionRecorded { workspace } => {
                    &&& final(self).counters() == touched(old(self).counters(), workspace@, now, false)
                    &&& final(self).log() == old(self).log()
                    &&& r@.len() == 0
                },
                MemoryEvent::TrustFirewallBlock { source_id, reason } => {
                    &&& final(self).counters() == old(self).counters()
                    &&& final(self).log() == logged(old(self).log(), DecisionView { at: at@,
                        workspace: "(firewall)"@, action: "trust_block"@, detail: source_id@ + ": "@ + reason@ },
                        old(self).config().max_decisions)
                    &&& r@.len() == 0
                },
                MemoryEvent::Tick => {
                    &&& final(self).counters() == old(self).counters()
                    &&& final(self).log() == old(self).log()
                    &&& requests_view(r@) == old(self).counters().filter(idle_due(now, old(self).config().max_idle_secs))
                        .map_values(idle_request())
                },
            },
    {
        let mut r: Vec<ConsolidationRequest> = Vec::new();
        match ev {
            MemoryEvent::NodeWritten { workspace } => {
                let n = self.touch(workspace.as_str(), now, true);
                if n >= self.cfg.min_new_nodes {
                    r.push(ConsolidationRequest { workspace: workspace.clone(), reason: "cycle:min_new_nodes".to_owned() });
                    assert(requests_view(r@) =~= seq![(workspace@, "cycle:min_new_nodes"@)]);
                } else {
                    assert(requests_view(r@) =~= Seq::<(Seq<char>, Seq<char>)>::empty());
                }
            },
            MemoryEvent::ActionRecorded { workspace } => {
                self.touch(workspace.as_str(), now, false);
            },
            MemoryEvent::TrustFirewallBlock { source_id, reason } => {
                let mut detail = source_id.clone();
                detail.append(": ");
                detail.append(reason.as_str());
                self.record_decision("(firewall)", "trust_block", detail.as_str(), at);
            },
            MemoryEvent::Tick => {
                let ghost cs = self.counters();
                let ghost pred = idle_due(now, self.cfg.max_idle_secs);
                let mut i: usize = 0;
                while i < self.state.len()
                    invariant
                        i <= self.state.len(),
                        cs == self.counters(),
                        pred == idle_due(now, self.cfg.max_idle_secs),
                        requests_view(r@) == cs.take(i as int).filter(pred).map_values(idle_request()),
                    decreases self.state.len() - i,
                {
                    proof {
                        crate::keyed::lemma_filter_step(cs, pred, i as int);
                    }
                    assert(cs[i as int] == (self.state@[i as int].workspace@, self.state@[i as int].new_since_consolidation,
                        self.state@[i as int].last_activity));
                    let c = &self.state[i];
                    let idle: u64 = if now >= c.last_activity { now - c.last_activity } else { 0 };
                    assert(pred(cs[i as int]) == (c.new_since_consolidation > 0 && idle >= self.cfg.max_idle_secs));
                    if c.new_since_consolidation > 0 && idle >= self.cfg.max_idle_secs {
                        let ghost before = cs.take(i as int).filter(pred);
                        let ghost rv = requests_view(r@);
                        r.push(ConsolidationRequest { workspace: c.workspace.clone(), reason: "cycle:idle".to_owned() });
                        assert(requests_view(r@) =~= rv.push(idle_request()(cs[i as int])));
                        assert(before.push(cs[i as int]).map_values(idle_request()) =~= before.map_values(idle_request()).push(idle_request()(cs[i as int])));
                    }
                    i += 1;
                }
                proof {
                    crate::keyed::lemma_take_full(cs);
                }
            },
        }
        r
    }

    /// Mark `ws` as being consolidated; false (and nothing changes) if it already is.
    pub fn begin_consolidation(&mut self, ws: &str) -> (started: bool)
        requires
            old(self).wf(),
        ensures
            final(self).wf(),
            final(self).config() == old(self).config(),
            final(self).counters() == old(self).counters(),
            final(self).log() == old(self).log(),
            started == !old(self).in_flight().contains(ws@),
            started ==> final(self).in_flight() == old(self).in_flight().push(ws@),
            !started ==> final(self).in_flight() == old(self).in_flight(),
    {
        let ghost f = self.in_flight();
        let mut i: usize = 0;
        while i < self.consolidating.len()
            invariant
                self.wf(),
                *self == *old(self),
                i <= self.consolidating.len(),
                f == self.in_flight(),
                forall|k: int| 0 <= k < i ==> f[k] != ws@,
            decreases self.consolidating.len() - i,
        {
            assert(f[i as int] == self.consolidating@[i as int]@);
            if crate::text::same_text(self.consolidating[i].as_str(), ws) {
                assert(f.contains(ws@));
                return false;
            }
            i += 1;
        }
        self.consolidating.push(ws.to_owned());
        assert(self.in_flight() =~= f.push(ws@));
        true
    }

    /// Record the outcome of a consolidation of `ws` begun for `reason` at `now` / `at`:
    /// `ws` is no longer in flight; on success its count restarts from zero and the counts
    /// are logged under `reason`; on failure the error is logged under `<reason>:error`.
    pub fn finish_consolidation(&mut self, ws: &str, reason: &str, outcome: &Result<ConsolidateStats, String>,
        now: u64, at: &str)
        requires
            old(self).wf(),
        ensures
            final(self).wf(),
            final(self).config() == old(self).config(),
            final(self).in_flight() == remove_value(old(self).in_flight(), ws@),
            match outcome {
                Ok(s) => final(self).counters() == reset(old(self).counters(), ws@, now)
                    && final(self).log() == logged(old(self).log(), DecisionView { at: at@, workspace: ws@,
                        action: reason@, detail: stats_detail(*s) }, old(self).config().max_decisions),
                Err(e) => final(self).counters() == old(self).counters()
                    && final(self).log() == logged(old(self).log(), DecisionView { at: at@, workspace: ws@,
                        action: reason@ + ":error"@, detail: e@ }, old(self).config().max_decisions),
            },
    {
        match outcome {
            Ok(s) => {
                self.note_consolidated(ws, now);
                let mut detail = "l2_atoms=".to_owned();
                push_decimal(&mut detail, s.l2_atoms);
                detail.append(", new_l1=");
                push_decimal(&mut detail, s.new_l1_count);
                detail.append(", new_l0=");
                push_decimal(&mut detail, s.new_l0_count);
                detail.append(", drained=");
                push_decimal(&mut detail, s.drained_from_queue);
                self.record_decision(ws, reason, detail.as_str(), at);
            },
            Err(e) => {
                let mut action = reason.to_owned();
                action.append(":error");
                self.record_decision(ws, action.as_str(), e.as_str(), at);
            },
        }
        let ghost f = self.in_flight();
        let ghost mid = *self;
        let mut i: usize = 0;
        while i < self.consolidating.len()
            invariant
                self.wf(),
                *self == mid,
                mid.config() == old(self).config(),
                f == old(self).in_flight(),
                match outcome {
                    Ok(s) => mid.counters() == reset(old(self).counters(), ws@, now)
                        && mid.log() == logged(old(self).log(), DecisionView { at: at@, workspace: ws@,
                            action: reason@, detail: stats_detail(*s) }, old(self).config().max_decisions),
                    Err(e) => mid.counters() == old(self).counters()
                        && mid.log() == logged(old(self).log(), DecisionView { at: at@, workspace: ws@,
                            action: reason@ + ":error"@, detail: e@ }, old(self).config().max_decisions),
                },
                i <= self.consolidating.len(),
                f == self.in_flight(),
                f.no_duplicates(),
                forall|k: int| 0 <= k < i ==> f[k] != ws@,
            decreases self.consolidating.len() - i,
        {
            assert(f[i as int] == self.consolidating@[i as int]@);
            if crate::text::same_text(self.consolidating[i].as_str(), ws) {
                proof {
                    lemma_remove_value(f, i as int);
                }
                self.consolidating.remove(i);
                assert(self.in_flight() =~= f.remove(i as int));
                return;
            }
            i += 1;
        }
        assert(!f.contains(ws@));
    }

    /// Restart the new-node count of `ws` from zero at `now` (after a consolidation run by
    /// other means), if it has counters.
    pub fn note_consolidated(&mut self, ws: &str, now: u64)
        requires
            old(self).wf(),
        ensures
            final(self).wf(),
            final(self).config() == old(self).config(),
            final(self).in_flight() == old(self).in_flight(),
            final(self).log() == old(self).log(),
            final(self).counters() == reset(old(self).counters(), ws@, now),
    {
        let ghost cs = self.counters();
        match self.position(ws) {
            Some(i) => {
                let ghost entry = (ws@, 0usize, now);
                proof {
                    lemma_replace(cs, counter_key(), i as int, entry);
                }
                self.state.set(i, WsCounters { workspace: ws.to_owned(), new_since_consolidation: 0, last_activity: now });
                assert(self.counters() =~= cs.update(i as int, entry));
            },
            None => {},
        }
    }

    /// A snapshot at `now`: the settings, each workspace's count and idle seconds, the
    /// workspaces in flight and the 20 newest decisions.
    pub fn status(&self, now: u64) -> (r: OrchestratorStatus)
        ensures
            r.cfg == self.config(),
            r.workspaces@.len() == self.counters().len(),
            forall|i: int| 0 <= i < r.workspaces@.len() ==> {
                &&& (#[trigger] r.workspaces@[i]).workspace@ == self.counters()[i].0
                &&& r.workspaces@[i].new_since_consolidation == self.counters()[i].1
                &&& r.workspaces@[i].idle_secs == elapsed(self.counters()[i].2, now)
            },
            r.consolidating@.map_values(|s: String| s@) == self.in_flight(),
            decisions_view(r.recent_decisions@) == self.log().take(if self.log().len() < 20 {
                self.log().len() as int
            } else {
                20
            }),
    {
        let ghost cs = self.counters();
        let mut ws: Vec<CounterStatus> = Vec::new();
        let mut i: usize = 0;
        while i < self.state.len()
            invariant
                i <= self.state.len(),
                cs == self.counters(),
                ws@.len() == i,
                forall|k: int| 0 <= k < i ==> {
                    &&& (#[trigger] ws@[k]).workspace@ == cs[k].0
                    &&& ws@[k].new_since_consolidation == cs[k].1
                    &&& ws@[k].idle_secs == elapsed(cs[k].2, now)
                },
            decreases self.state.len() - i,
        {
            let c = &self.state[i];
            let idle: u64 = if now >= c.last_activity { now - c.last_activity } else { 0 };
            ws.push(CounterStatus { workspace: c.workspace.clone(), new_since_consolidation: c.new_since_consolidation,
                idle_secs: idle });
            i += 1;
        }
        let mut inf: Vec<String> = Vec::new();
        let mut j: usize = 0;
        while j < self.consolidating.len()
            invariant
                j <= self.consolidating.len(),
                inf@.map_values(|s: String| s@) == self.in_flight().take(j as int),
            decreases self.consolidating.len() - j,
        {
            let ghost before = inf@.map_values(|s: String| s@);
            inf.push(self.consolidating[j].clone());
            assert(inf@.map_values(|s: String| s@) =~= before.push(self.in_flight()[j as int]));
            assert(self.in_flight().take(j + 1) =~= self.in_flight().take(j as int).push(self.in_flight()[j as int]));
            j += 1;
        }
        assert(self.in_flight().take(self.consolidating.len() as int) =~= self.in_flight());
        let n: usize = if self.decisions.len() < 20 { self.decisions.len() } else { 20 };
        let mut rec: Vec<DecisionLog> = Vec::new();
        let mut k: usize = 0;
        while k < n
            invariant
                k <= n,
                n <= self.decisions.len(),
                decisions_view(rec@) == self.log().take(k as int),
            decreases n - k,
        {
            let ghost before = decisions_view(rec@);
            rec.push(self.decisions[k].clone());
            assert(decisions_view(rec@) =~= before.push(self.log()[k as int]));
            assert(self.log().take(k + 1) =~= self.log().take(k as int).push(self.log()[k as int]));
            k += 1;
        }
        OrchestratorStatus { cfg: self.cfg, workspaces: ws, consolidating: inf, recent_decisions: rec }
    }
}

} // verus!
