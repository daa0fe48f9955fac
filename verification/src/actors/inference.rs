//! InferenceActor: the autonomous causal scenarios — grouping causes into patterns,
//! rating the severity of effects and reading relation names.

use vstd::prelude::*;
use crate::graph::node::{Node, NodeId, NodeView, NodeType, nodes_view, strings_view};
use crate::graph::find_node;
use crate::order::{sorted_unique, strictly_sorted};
use super::chain::{ChainEntryView, entries_view, exists_node, is_cause};
use super::forward::{ChainError, forward_chain};
use crate::graph::edge::Relation;
use crate::text::{chars_of, split_words, views_of, words, lowercase, to_lowercase, string_from_chars,
    is_substring, str_contains, same_text};
use super::config::str_views;
use super::chain::ChainActor;
use super::l2::{L2Actor, type_members};
use super::llm_client::LlmClient;
use super::l2::opt_owned_node_view;
use super::causal_engine::{CausalEngine, Contradiction, ConflictType, InferenceContext, contradictions_view,
    contradictions_upto, inferred_relation};
use super::answers::{contradictions_answer, stated_view, parse_contradictions_response, relation_answer,
    parse_relation_response, RelationAnswer, rule_answer, parse_rule_response};

verus! {

/// How widely a generated rule applies.
#[derive(Debug, Clone, Copy, PartialEq, Eq, Structural)]
pub enum GeneralizationLevel {
    /// Specific to one workspace.
    Narrow,
    /// Applies to several projects.
    Medium,
    /// A universal rule.
    Broad,
}

/// The generalization of a rule drawn from `count` causes: broad from 10, medium from 5.
pub open spec fn generalization_of(count: nat) -> GeneralizationLevel {
    if count >= 10 { GeneralizationLevel::Broad } else if count >= 5 { GeneralizationLevel::Medium } else { GeneralizationLevel::Narrow }
}

/// The generalization of a rule drawn from `count` causes.
pub fn generalization_for(count: usize) -> (g: GeneralizationLevel)
    ensures
        g == generalization_of(count as nat),
{
    if count >= 10 {
        GeneralizationLevel::Broad
    } else if count >= 5 {
        GeneralizationLevel::Medium
    } else {
        GeneralizationLevel::Narrow
    }
}

/// Level of a risk (and of the severity of one effect).
#[derive(Debug, Clone, Copy, PartialEq, Eq, Structural)]
pub enum RiskLevel {
    Low,
    Medium,
    High,
    Critical,
}

/// The rank of a level, Low lowest.
pub open spec fn risk_rank(r: RiskLevel) -> nat {
    match r {
        RiskLevel::Low => 0,
        RiskLevel::Medium => 1,
        RiskLevel::High => 2,
        RiskLevel::Critical => 3,
    }
}

/// Words of critical effects (compared in lower case).
pub open spec fn critical_words() -> Seq<Seq<char>> {
    seq!["crash"@, "outage"@, "data loss"@, "security"@, "авария"@, "потеря данных"@]
}

/// Words of serious effects.
pub open spec fn high_words() -> Seq<Seq<char>> {
    seq!["error"@, "fail"@, "bug"@, "broken"@, "ошибка"@, "сломан"@]
}

/// Words of moderate effects.
pub open spec fn medium_words() -> Seq<Seq<char>> {
    seq!["slow"@, "delay"@, "warning"@, "медленно"@, "предупреждение"@]
}

/// Some word of `ws` occurs in `low`.
pub open spec fn mentions_any(low: Seq<char>, ws: Seq<Seq<char>>) -> bool {
    exists|i: int| 0 <= i < ws.len() && is_substring(low, #[trigger] ws[i])
}

/// The severity of an effect from its text: critical, high or medium when it mentions a
/// word of that class (checked in that order), low otherwise.
pub open spec fn severity_of(content: Seq<char>) -> RiskLevel {
    let low = lowercase(content);
    if mentions_any(low, critical_words()) {
        RiskLevel::Critical
    } else if mentions_any(low, high_words()) {
        RiskLevel::High
    } else if mentions_any(low, medium_words()) {
        RiskLevel::Medium
    } else {
        RiskLevel::Low
    }
}

/// Whether some of `kws` occurs in `low`.
fn any_occurs(low: &str, kws: &[&str]) -> (b: bool)
    ensures
        b == mentions_any(low@, str_views(kws@)),
{
    let mut i: usize = 0;
    while i < kws.len()
        invariant
            i <= kws@.len(),
            forall|k: int| 0 <= k < i ==> !is_substring(low@, #[trigger] str_views(kws@)[k]),
        decreases kws@.len() - i,
    {
        assert(str_views(kws@)[i as int] == kws@[i as int]@);
        if str_contains(low, kws[i]) {
            return true;
        }
        i += 1;
    }
    false
}

/// The severity of an effect from its text (see `severity_of`).
pub fn severity_level(content: &str) -> (r: RiskLevel)
    ensures
        r == severity_of(content@),
{
    let low = to_lowercase(content);
    let critical: [&str; 6] = ["crash", "outage", "data loss", "security", "авария", "потеря данных"];
    let high: [&str; 6] = ["error", "fail", "bug", "broken", "ошибка", "сломан"];
    let medium: [&str; 5] = ["slow", "delay", "warning", "медленно", "предупреждение"];
    assert(str_views(critical@) =~= critical_words());
    assert(str_views(high@) =~= high_words());
    assert(str_views(medium@) =~= medium_words());
    if any_occurs(low.as_str(), critical.as_slice()) {
        RiskLevel::Critical
    } else if any_occurs(low.as_str(), high.as_slice()) {
        RiskLevel::High
    } else if any_occurs(low.as_str(), medium.as_slice()) {
        RiskLevel::Medium
    } else {
        RiskLevel::Low
    }
}

/// The highest of a list of levels (low for none).
pub open spec fn max_level(ls: Seq<RiskLevel>) -> RiskLevel
    decreases ls.len(),
{
    if ls.len() == 0 {
        RiskLevel::Low
    } else {
        let m = max_level(ls.drop_last());
        if risk_rank(ls.last()) > risk_rank(m) { ls.last() } else { m }
    }
}

/// The risk of a set of predicted effects: the highest of their severities.
pub fn overall_risk(levels: &Vec<RiskLevel>) -> (r: RiskLevel)
    ensures
        r == max_level(levels@),
{
    let mut m = RiskLevel::Low;
    let mut i: usize = 0;
    while i < levels.len()
        invariant
            i <= levels.len(),
            m == max_level(levels@.take(i as int)),
        decreases levels.len() - i,
    {
        assert(levels@.take(i + 1).drop_last() =~= levels@.take(i as int));
        let l = levels[i];
        let rank_l: u8 = match l { RiskLevel::Low => 0, RiskLevel::Medium => 1, RiskLevel::High => 2, RiskLevel::Critical => 3 };
        let rank_m: u8 = match m { RiskLevel::Low => 0, RiskLevel::Medium => 1, RiskLevel::High => 2, RiskLevel::Critical => 3 };
        if rank_l > rank_m {
            m = l;
        }
        i += 1;
    }
    assert(levels@.take(levels.len() as int) =~= levels@);
    m
}

/// The first `n` words joined with `sep`.
pub open spec fn join_first(ws: Seq<Seq<char>>, n: nat, sep: char) -> Seq<char>
    decreases n,
{
    let k = if n < ws.len() { n } else { ws.len() };
    if k == 0 {
        Seq::empty()
    } else if k == 1 {
        ws[0]
    } else {
        join_first(ws, (k - 1) as nat, sep) + seq![sep] + ws[k - 1]
    }
}

/// The pattern key of a cause: its first three lower-case words joined by `_`.
pub open spec fn pattern_key_of(content: Seq<char>) -> Seq<char> {
    join_first(words(lowercase(content)), 3, '_')
}

/// The first `n` words of `ws`, joined with `sep`.
pub fn join_words(ws: &Vec<Vec<char>>, n: usize, sep: char) -> (r: Vec<char>)
    ensures
        r@ == join_first(views_of(ws@), n as nat, sep),
{
    let k = if n < ws.len() { n } else { ws.len() };
    let mut out: Vec<char> = Vec::new();
    let mut i: usize = 0;
    while i < k
        invariant
            k <= ws.len(),
            k <= n,
            i <= k,
            out@ == join_first(views_of(ws@), i as nat, sep),
        decreases k - i,
    {
        if i > 0 {
            out.push(sep);
        }
        let mut j: usize = 0;
        let ghost base = out@;
        while j < ws[i].len()
            invariant
                i < ws.len(),
                j <= ws@[i as int]@.len(),
                out@ == base + ws@[i as int]@.take(j as int),
            decreases ws@[i as int]@.len() - j,
        {
            out.push(ws[i][j]);
            assert(ws@[i as int]@.take(j + 1) =~= ws@[i as int]@.take(j as int).push(ws@[i as int]@[j as int]));
            j += 1;
        }
        assert(ws@[i as int]@.take(ws@[i as int]@.len() as int) =~= ws@[i as int]@);
        assert(views_of(ws@)[i as int] == ws@[i as int]@);
        if i == 0 {
            assert(out@ =~= join_first(views_of(ws@), 1, sep));
        } else {
            assert(out@ =~= join_first(views_of(ws@), i as nat, sep) + seq![sep] + views_of(ws@)[i as int]);
        }
        i += 1;
    }
    out
}

/// The pattern key of a cause (see `pattern_key_of`).
pub fn extract_pattern_key(content: &str) -> (r: String)
    ensures
        r@ == pattern_key_of(content@),
{
    let low = chars_of(to_lowercase(content).as_str());
    let ws = split_words(&low);
    let k = join_words(&ws, 3, '_');
    string_from_chars(k.as_slice())
}

/// The relation an LLM named: lower case, `-` read as `_`; unknown names are `related_to`.
pub open spec fn relation_named(name: Seq<char>) -> Relation {
    let n = lowercase(name).map_values(|c: char| if c == '-' { '_' } else { c });
    if n == "leads_to"@ || n == "leadsto"@ {
        Relation::LeadsTo
    } else if n == "explained_by"@ || n == "explainedby"@ {
        Relation::ExplainedBy
    } else if n == "inhibits"@ {
        Relation::Inhibits
    } else if n == "derived_from"@ || n == "derivedfrom"@ {
        Relation::DerivedFrom
    } else if n == "contradicts"@ {
        Relation::Contradicts
    } else {
        Relation::RelatedTo
    }
}

/// The relation an LLM named (see `relation_named`).
pub fn parse_relation_name(name: &str) -> (r: Relation)
    ensures
        r == relation_named(name@),
{
    let low = chars_of(to_lowercase(name).as_str());
    let mut v: Vec<char> = Vec::new();
    let mut i: usize = 0;
    while i < low.len()
        invariant
            i <= low.len(),
            v@ == low@.take(i as int).map_values(|c: char| if c == '-' { '_' } else { c }),
        decreases low.len() - i,
    {
        let c = low[i];
        v.push(if c == '-' { '_' } else { c });
        assert(low@.take(i + 1).map_values(|c: char| if c == '-' { '_' } else { c })
            =~= low@.take(i as int).map_values(|c: char| if c == '-' { '_' } else { c }).push(if c == '-' { '_' } else { c }));
        i += 1;
    }
    assert(low@.take(low.len() as int) =~= low@);
    let n = string_from_chars(v.as_slice());
    let s = n.as_str();
    if same_text(s, "leads_to") || same_text(s, "leadsto") {
        Relation::LeadsTo
    } else if same_text(s, "explained_by") || same_text(s, "explainedby") {
        Relation::ExplainedBy
    } else if same_text(s, "inhibits") {
        Relation::Inhibits
    } else if same_text(s, "derived_from") || same_text(s, "derivedfrom") {
        Relation::DerivedFrom
    } else if same_text(s, "contradicts") {
        Relation::Contradicts
    } else {
        Relation::RelatedTo
    }
}

/// Causes grouped by pattern key: one group per key, in order of first appearance, each
/// holding its causes' ids in order.
pub open spec fn grouped(items: Seq<(Seq<char>, Seq<char>)>) -> Seq<(Seq<char>, Seq<Seq<char>>)>
    decreases items.len(),
{
    if items.len() == 0 {
        Seq::empty()
    } else {
        let g = grouped(items.drop_last());
        let (k, id) = items.last();
        if exists|j: int| 0 <= j < g.len() && (#[trigger] g[j]).0 == k {
            let j = group_pos(g, k);
            g.update(j, (k, g[j].1.push(id)))
        } else {
            g.push((k, seq![id]))
        }
    }
}

/// The position of a group with key `k`.
pub open spec fn group_pos(g: Seq<(Seq<char>, Seq<Seq<char>>)>, k: Seq<char>) -> int {
    choose|j: int| 0 <= j < g.len() && (#[trigger] g[j]).0 == k
}

/// A group of causes sharing a pattern key.
pub struct PatternGroup {
    pub key: String,
    pub causes: Vec<NodeId>,
}

/// The content of a group.
pub open spec fn group_view(g: PatternGroup) -> (Seq<char>, Seq<Seq<char>>) {
    (g.key@, ids_of(g.causes@))
}

/// The views of a list of ids.
pub open spec fn ids_of(v: Seq<NodeId>) -> Seq<Seq<char>> {
    v.map_values(|i: NodeId| i@)
}

/// The contents of a list of groups.
pub open spec fn groups_view(v: Seq<PatternGroup>) -> Seq<(Seq<char>, Seq<Seq<char>>)> {
    v.map_values(|g: PatternGroup| group_view(g))
}

/// The (key, id) pairs of a list of nodes.
pub open spec fn keyed_causes(ns: Seq<NodeView>) -> Seq<(Seq<char>, Seq<char>)> {
    ns.map_values(|n: NodeView| (pattern_key_of(n.content), n.id))
}

/// InferenceActor: causal scenarios over an L2 store, with an optional LLM.
pub struct InferenceActor {
    chain: ChainActor,
    llm: Option<LlmClient>,
}

impl InferenceActor {
    /// The LLM client set on the actor, if any.
    pub closed spec fn llm_client(&self) -> Option<LlmClient> {
        self.llm
    }

    /// An actor without LLM.
    pub fn new() -> (a: Self)
        ensures
            a.llm_client() is None,
    {
        InferenceActor { chain: ChainActor::new(), llm: None }
    }

    /// The same actor with an LLM.
    pub fn with_llm(self, llm: LlmClient) -> (a: Self)
        ensures
            a.llm_client() matches Some(c) && c@ == llm@,
    {
        InferenceActor { chain: self.chain, llm: Some(llm) }
    }

    /// The LLM, when one is set and enabled.
    pub fn llm(&self) -> (r: Option<&LlmClient>)
        ensures
            match r {
                Some(c) => self.llm_client() matches Some(d) && c@ == d@ && c.is_enabled_spec(),
                None => self.llm_client() matches Some(d) ==> !d.is_enabled_spec(),
            },
    {
        match &self.llm {
            Some(c) => if c.is_enabled() { Some(c) } else { None },
            None => None,
        }
    }

    /// The traversal actor the inference runs on.
    pub closed spec fn chain_actor(&self) -> ChainActor {
        self.chain
    }

    /// The traversal actor.
    pub fn chain(&self) -> (r: &ChainActor)
        ensures
            *r == self.chain_actor(),
    {
        &self.chain
    }

    /// The stored causes grouped by pattern key (the first step of dream reflection).
    pub fn cause_patterns(&self, l2: &L2Actor) -> (r: Vec<PatternGroup>)
        requires
            l2.wf(),
        ensures
            groups_view(r@) == grouped(keyed_causes(type_members(l2.type_index(), NodeType::Cause, l2.node_views()))),
    {
        let causes = l2.list_by_type(NodeType::Cause);
        let ghost items = keyed_causes(nodes_view(causes@));
        let mut groups: Vec<PatternGroup> = Vec::new();
        let mut i: usize = 0;
        while i < causes.len()
            invariant
                i <= causes.len(),
                items == keyed_causes(nodes_view(causes@)),
                groups_view(groups@) == grouped(items.take(i as int)),
            decreases causes.len() - i,
        {
            let key = extract_pattern_key(causes[i].content.as_str());
            let ghost g0 = groups_view(groups@);
            let ghost t1 = items.take(i + 1);
            assert(t1.drop_last() =~= items.take(i as int));
            assert(t1.last() == (key@, causes@[i as int].id@));
            let fg = find_group(&groups, key.as_str());
            if let Some(j) = fg {
                proof {
                    assert(g0[j as int].0 == key@);
                    let jj = group_pos(g0, key@);
                    assert(jj == j as int) by {
                        if jj < j as int {
                            groups_keys_distinct(items.take(i as int), jj, j as int);
                        }
                        if jj > j as int {
                            groups_keys_distinct(items.take(i as int), j as int, jj);
                        }
                    }
                }
                let ghost old_groups = groups@;
                let mut g = groups.remove(j);
                let ghost gv = group_view(g);
                let ghost c0 = g.causes@;
                g.causes.push(causes[i].id.clone());
                assert(ids_of(g.causes@) =~= ids_of(c0).push(causes@[i as int].id@));
                let ghost gnew = g;
                groups.insert(j, g);
                assert(groups@ =~= old_groups.update(j as int, gnew));
                assert(gv == g0[j as int]);
                assert(groups_view(groups@) =~= g0.update(j as int, (key@, gv.1.push(causes@[i as int].id@))));
                assert(grouped(t1) == g0.update(j as int, (key@, g0[j as int].1.push(causes@[i as int].id@))));
            } else {
                let mut ids: Vec<NodeId> = Vec::new();
                ids.push(causes[i].id.clone());
                assert(ids_of(ids@) =~= seq![causes@[i as int].id@]);
                groups.push(PatternGroup { key, causes: ids });
                assert(groups_view(groups@) =~= g0.push((t1.last().0, seq![causes@[i as int].id@])));
                assert(!exists|x: int| 0 <= x < g0.len() && (#[trigger] g0[x]).0 == key@);
                assert(grouped(t1) == g0.push((key@, seq![causes@[i as int].id@])));
            }
            i += 1;
        }
        assert(items.take(causes.len() as int) =~= items);
        groups
    }
}

/// The position of the group with key `key`, if any.
fn find_group(groups: &Vec<PatternGroup>, key: &str) -> (r: Option<usize>)
    ensures
        match r {
            Some(j) => j < groups.len() && groups_view(groups@)[j as int].0 == key@,
            None => forall|x: int| 0 <= x < groups.len() ==> (#[trigger] groups_view(groups@)[x]).0 != key@,
        },
{
    let mut j: usize = 0;
    while j < groups.len()
        invariant
            j <= groups.len(),
            forall|x: int| 0 <= x < j ==> (#[trigger] groups_view(groups@)[x]).0 != key@,
        decreases groups.len() - j,
    {
        assert(groups_view(groups@)[j as int] == group_view(groups@[j as int]));
        if same_text(groups[j].key.as_str(), key) {
            return Some(j);
        }
        j += 1;
    }
    None
}

/// The keys of the groups are distinct.
proof fn groups_keys_distinct(items: Seq<(Seq<char>, Seq<char>)>, a: int, b: int)
    requires
        0 <= a < b < grouped(items).len(),
    ensures
        grouped(items)[a].0 != grouped(items)[b].0,
    decreases items.len(),
{
    let g = grouped(items.drop_last());
    let (k, id) = items.last();
    if exists|j: int| 0 <= j < g.len() && (#[trigger] g[j]).0 == k {
        let j = group_pos(g, k);
        assert(grouped(items) == g.update(j, (k, g[j].1.push(id))));
        assert(grouped(items)[a].0 == g[a].0);
        assert(grouped(items)[b].0 == g[b].0);
        groups_keys_distinct(items.drop_last(), a, b);
    } else {
        if b < g.len() {
            groups_keys_distinct(items.drop_last(), a, b);
        } else {
            assert(grouped(items)[b].0 == k);
            assert(grouped(items)[a] == g[a]);
        }
    }
}

/// The condition drawn from a cause: its first two words joined by a space.
pub open spec fn condition_of(content: Seq<char>) -> Seq<char> {
    join_first(words(content), 2, ' ')
}

/// The conditions drawn from the causes that have words, in order.
pub open spec fn conditions_of(cs: Seq<NodeView>) -> Seq<Seq<char>>
    decreases cs.len(),
{
    if cs.len() == 0 {
        Seq::empty()
    } else if words(cs.last().content).len() > 0 {
        conditions_of(cs.drop_last()).push(condition_of(cs.last().content))
    } else {
        conditions_of(cs.drop_last())
    }
}

/// A rule generalised from a pattern of causes (its confidence is a score kept beside it).
#[derive(Debug)]
pub struct GeneratedRule {
    pub source_chain: String,
    pub if_conditions: Vec<String>,
    pub then_effect: String,
    pub generalization_level: GeneralizationLevel,
}

/// The rule drawn from the causes of a pattern without an LLM: named `pattern_<key>`, its
/// conditions the distinct first two words of the causes in increasing order, its effect
/// `IF <key> THEN potential issue detected`, generalised by the number of causes.
pub fn heuristic_rule(pattern_key: &str, causes: &Vec<Node>) -> (r: GeneratedRule)
    ensures
        r.source_chain@ == "pattern_"@ + pattern_key@,
        strictly_sorted(strings_view(r.if_conditions@)),
        strings_view(r.if_conditions@).to_set() == conditions_of(nodes_view(causes@)).to_set(),
        r.then_effect@ == "IF "@ + pattern_key@ + " THEN potential issue detected"@,
        r.generalization_level == generalization_of(causes@.len() as nat),
{
    let ghost cv = nodes_view(causes@);
    let mut conds: Vec<Vec<char>> = Vec::new();
    let mut i: usize = 0;
    while i < causes.len()
        invariant
            i <= causes.len(),
            cv == nodes_view(causes@),
            views_of(conds@) == conditions_of(cv.take(i as int)),
        decreases causes.len() - i,
    {
        assert(cv.take(i + 1).drop_last() =~= cv.take(i as int));
        assert(cv.take(i + 1).last() == causes@[i as int]@);
        let ws = split_words(&chars_of(causes[i].content.as_str()));
        if ws.len() > 0 {
            let ghost before = views_of(conds@);
            let c = join_words(&ws, 2, ' ');
            conds.push(c);
            assert(views_of(conds@) =~= before.push(condition_of(causes@[i as int].content@)));
        }
        i += 1;
    }
    assert(cv.take(causes.len() as int) =~= cv);
    let sorted = sorted_unique(&conds);
    let mut if_conditions: Vec<String> = Vec::new();
    let mut k: usize = 0;
    while k < sorted.len()
        invariant
            k <= sorted.len(),
            strings_view(if_conditions@) == views_of(sorted@).take(k as int),
        decreases sorted.len() - k,
    {
        let ghost before = strings_view(if_conditions@);
        let t = string_from_chars(sorted[k].as_slice());
        if_conditions.push(t);
        assert(strings_view(if_conditions@) =~= before.push(views_of(sorted@)[k as int]));
        assert(views_of(sorted@).take(k + 1) =~= views_of(sorted@).take(k as int).push(views_of(sorted@)[k as int]));
        k += 1;
    }
    assert(views_of(sorted@).take(sorted.len() as int) =~= views_of(sorted@));
    let mut source_chain = "pattern_".to_owned();
    source_chain.append(pattern_key);
    let mut then_effect = "IF ".to_owned();
    then_effect.append(pattern_key);
    then_effect.append(" THEN potential issue detected");
    GeneratedRule {
        source_chain,
        if_conditions,
        then_effect,
        generalization_level: generalization_for(causes.len()),
    }
}

/// The pattern has at least three causes.
pub open spec fn frequent() -> spec_fn((Seq<char>, Seq<Seq<char>>)) -> bool {
    |g: (Seq<char>, Seq<Seq<char>>)| g.1.len() >= 3
}

/// An effect predicted from a cause: the effect node, its text, how far down the chain it
/// lies, and the severity its text suggests.
#[derive(Debug)]
pub struct PredictedEffect {
    pub node_id: NodeId,
    pub description: String,
    pub depth: usize,
    pub severity: RiskLevel,
}

/// The content of a predicted effect.
pub open spec fn effect_view(e: PredictedEffect) -> (Seq<char>, Seq<char>, nat, RiskLevel) {
    (e.node_id@, e.description@, e.depth as nat, e.severity)
}

/// The effects among chain entries, in order: each entry whose node is a stored effect,
/// with that node's text and the severity it suggests.
pub open spec fn effects_of(nodes: Seq<NodeView>, es: Seq<ChainEntryView>) -> Seq<(Seq<char>, Seq<char>, nat, RiskLevel)>
    decreases es.len(),
{
    if es.len() == 0 {
        Seq::empty()
    } else {
        let r = effects_of(nodes, es.drop_last());
        let e = es.last();
        match find_node(nodes, e.node_id) {
            Some(n) => if n.node_type == NodeType::Effect {
                r.push((e.node_id, n.content, e.depth, severity_of(n.content)))
            } else {
                r
            },
            None => r,
        }
    }
}

impl InferenceActor {
    /// The patterns of stored causes that rules are drawn from: the groups of
    /// `cause_patterns` with at least three causes, in the same order. (Every stored cause
    /// starts a forward chain of its own, so every cause counts.)
    pub fn rule_patterns(&self, l2: &L2Actor) -> (r: Vec<PatternGroup>)
        requires
            l2.wf(),
        ensures
            groups_view(r@) == grouped(keyed_causes(type_members(l2.type_index(), NodeType::Cause, l2.node_views())))
                .filter(frequent()),
    {
        let all = self.cause_patterns(l2);
        let ghost gv = groups_view(all@);
        let mut r: Vec<PatternGroup> = Vec::new();
        let mut i: usize = 0;
        while i < all.len()
            invariant
                i <= all.len(),
                gv == groups_view(all@),
                groups_view(r@) == gv.take(i as int).filter(frequent()),
            decreases all.len() - i,
        {
            proof {
                crate::keyed::lemma_filter_step(gv, frequent(), i as int);
            }
            assert(gv[i as int] == group_view(all@[i as int]));
            if all[i].causes.len() >= 3 {
                let ghost before = groups_view(r@);
                let mut ids: Vec<NodeId> = Vec::new();
                let mut k: usize = 0;
                while k < all[i].causes.len()
                    invariant
                        i < all.len(),
                        k <= all@[i as int].causes@.len(),
                        ids_of(ids@) == ids_of(all@[i as int].causes@).take(k as int),
                    decreases all@[i as int].causes@.len() - k,
                {
                    let ghost b = ids_of(ids@);
                    ids.push(all[i].causes[k].clone());
                    assert(ids_of(ids@) =~= b.push(all@[i as int].causes@[k as int]@));
                    assert(ids_of(all@[i as int].causes@).take(k + 1) =~= ids_of(all@[i as int].causes@).take(k as int)
                        .push(all@[i as int].causes@[k as int]@));
                    k += 1;
                }
                assert(ids_of(all@[i as int].causes@).take(all@[i as int].causes@.len() as int) =~= ids_of(all@[i as int].causes@));
                let key = all[i].key.clone();
                r.push(PatternGroup { key, causes: ids });
                assert(groups_view(r@) =~= before.push(gv[i as int]));
            }
            i += 1;
        }
        proof {
            crate::keyed::lemma_take_full(gv);
        }
        r
    }

    /// The effects predicted from a cause: the stored effects its forward chain (depth 3)
    /// reaches, with their severities. A start that is not a cause is refused; a start
    /// that is not stored has none.
    pub fn predicted_effects(&self, l2: &L2Actor, cause_id: &NodeId) -> (r: Result<Vec<PredictedEffect>, ChainError>)
        requires
            l2.wf(),
        ensures
            exists_node(l2.node_views(), cause_id@) && !is_cause(l2.node_views(), cause_id@)
                ==> r == Err::<Vec<PredictedEffect>, ChainError>(ChainError::NotACause),
            !exists_node(l2.node_views(), cause_id@) ==> (r matches Ok(v) && v@.len() == 0),
            is_cause(l2.node_views(), cause_id@) ==> (r matches Ok(v) && exists|es: Seq<ChainEntryView>, m: bool|
                #[trigger] forward_chain(l2.node_views(), l2.edge_views(), cause_id@, 3, es, m)
                && v@.map_values(|e: PredictedEffect| effect_view(e)) == effects_of(l2.node_views(), es)),
    {
        let res = match self.chain.chain_forward_pre(l2, cause_id, 3) {
            Ok(res) => res,
            Err(e) => {
                return Err(e);
            },
        };
        let ghost ev = entries_view(res.entries@);
        let mut out: Vec<PredictedEffect> = Vec::new();
        let mut i: usize = 0;
        while i < res.entries.len()
            invariant
                l2.wf(),
                i <= res.entries.len(),
                ev == entries_view(res.entries@),
                out@.map_values(|e: PredictedEffect| effect_view(e)) == effects_of(l2.node_views(), ev.take(i as int)),
            decreases res.entries.len() - i,
        {
            assert(ev.take(i + 1).drop_last() =~= ev.take(i as int));
            assert(ev.take(i + 1).last() == res.entries@[i as int]@);
            let ghost before = out@.map_values(|e: PredictedEffect| effect_view(e));
            match l2.get_node(&res.entries[i].node_id) {
                Some(n) => {
                    if n.node_type == NodeType::Effect {
                        let sev = severity_level(n.content.as_str());
                        let pe = PredictedEffect {
                            node_id: res.entries[i].node_id.clone(),
                            description: n.content,
                            depth: res.entries[i].depth,
                            severity: sev,
                        };
                        let ghost pv = effect_view(pe);
                        out.push(pe);
                        assert(out@.map_values(|e: PredictedEffect| effect_view(e)) =~= before.push(pv));
                    }
                },
                None => {},
            }
            i += 1;
        }
        assert(ev.take(res.entries.len() as int) =~= ev);
        proof {
            if !exists_node(l2.node_views(), cause_id@) {
                assert(ev.len() == 0);
                assert(out@.len() == 0);
            }
        }
        Ok(out)
    }
}


// ---------------- the decisions around the LLM's answers ----------------

/// The text of an answer, if there is one.
pub open spec fn answer_text(answer: Option<&str>) -> Option<Seq<char>> {
    match answer {
        Some(t) => Some(t@),
        None => None,
    }
}

/// The statements searched for contradictions: the stored atoms, causes, effects and
/// rules, in that order.
pub open spec fn statements_of(l2: L2Actor) -> Seq<NodeView> {
    type_members(l2.type_index(), NodeType::Atom, l2.node_views())
        + type_members(l2.type_index(), NodeType::Cause, l2.node_views())
        + type_members(l2.type_index(), NodeType::Effect, l2.node_views())
        + type_members(l2.type_index(), NodeType::Rule, l2.node_views())
}

/// The statements put to the LLM: the first forty.
pub open spec fn question_subset(ns: Seq<NodeView>) -> Seq<NodeView> {
    if ns.len() <= 40 {
        ns
    } else {
        ns.take(40)
    }
}

/// The contradictions the LLM's answer states among the statements put to it; none when
/// fewer than two were put to it or there is no answer.
pub open spec fn answered_contradictions(ns: Seq<NodeView>, answer: Option<Seq<char>>) -> Seq<(Seq<char>, Seq<char>, Seq<char>)> {
    let sub = question_subset(ns);
    match answer {
        Some(t) => if sub.len() >= 2 {
            contradictions_answer(t, sub)
        } else {
            Seq::empty()
        },
        None => Seq::empty(),
    }
}

/// The statements put to the LLM (see `question_subset`).
pub fn question_nodes(nodes: &Vec<Node>) -> (r: Vec<Node>)
    ensures
        nodes_view(r@) == question_subset(nodes_view(nodes@)),
{
    let mut r: Vec<Node> = Vec::new();
    let mut i: usize = 0;
    while i < nodes.len() && i < 40
        invariant
            i <= nodes.len(),
            i <= 40,
            nodes_view(r@) == nodes_view(nodes@).take(i as int),
        decreases nodes.len() - i,
    {
        let ghost before = nodes_view(r@);
        r.push(nodes[i].clone());
        assert(nodes_view(r@) =~= before.push(nodes@[i as int]@));
        assert(nodes_view(nodes@).take(i + 1) =~= nodes_view(nodes@).take(i as int).push(nodes@[i as int]@));
        i += 1;
    }
    assert(nodes_view(nodes@).take(nodes.len() as int) =~= nodes_view(nodes@));
    r
}

/// Why a causal link cannot be proposed.
#[derive(Debug, Clone, Copy, PartialEq, Eq, Structural)]
pub enum LinkError {
    /// The source node is not stored.
    SourceNotFound,
    /// The target node is not stored.
    TargetNotFound,
}

/// A proposed causal link: the LLM's answer, or the relation inferred from the kinds of
/// the two nodes when there is no usable answer (its confidence is scored beside it).
#[derive(Debug, Clone)]
pub enum RelationProposal {
    Answered(RelationAnswer),
    Inferred(Relation),
}

impl InferenceActor {
    /// The statements searched for contradictions (see `statements_of`).
    pub fn statements(&self, l2: &L2Actor) -> (r: Vec<Node>)
        requires
            l2.wf(),
        ensures
            nodes_view(r@) == statements_of(*l2),
    {
        let mut r = l2.list_by_type(NodeType::Atom);
        let mut c = l2.list_by_type(NodeType::Cause);
        let mut e = l2.list_by_type(NodeType::Effect);
        let mut u = l2.list_by_type(NodeType::Rule);
        let ghost (a0, c0, e0, u0) = (r@, c@, e@, u@);
        r.append(&mut c);
        r.append(&mut e);
        r.append(&mut u);
        assert(nodes_view(r@) =~= nodes_view(a0) + nodes_view(c0) + nodes_view(e0) + nodes_view(u0));
        r
    }

    /// The contradictions among the stored statements: those the LLM's answer states
    /// (see `answered_contradictions`) when it states any, else those the heuristic finds
    /// among all the statements.
    pub fn find_contradictions(&self, l2: &L2Actor, answer: Option<&str>) -> (r: Vec<Contradiction>)
        requires
            l2.wf(),
        ensures
            ({
                let found = answered_contradictions(statements_of(*l2), answer_text(answer));
                if found.len() > 0 {
                    &&& stated_view(r@) == found
                    &&& forall|i: int| 0 <= i < r@.len() ==> (#[trigger] r@[i]).conflict_type == ConflictType::SemanticOpposition
                } else {
                    contradictions_view(r@) == contradictions_upto(statements_of(*l2), statements_of(*l2).len())
                }
            }),
    {
        let nodes = self.statements(l2);
        let sub = question_nodes(&nodes);
        if sub.len() >= 2 {
            if let Some(t) = answer {
                let found = parse_contradictions_response(t, &sub);
                if found.len() > 0 {
                    return found;
                }
            }
        }
        CausalEngine::find_contradictions(nodes.as_slice())
    }

    /// Propose the causal link from one stored node to another: the relation the LLM's
    /// answer proposes (see `relation_answer`) when it proposes one, else the relation
    /// inferred from the kinds of the nodes. Either node missing is refused.
    pub fn propose_causal_link(&self, l2: &L2Actor, source_id: &NodeId, target_id: &NodeId, answer: Option<&str>)
        -> (r: Result<RelationProposal, LinkError>)
        requires
            l2.wf(),
        ensures
            match (find_node(l2.node_views(), source_id@), find_node(l2.node_views(), target_id@)) {
                (None, _) => r matches Err(LinkError::SourceNotFound),
                (Some(_), None) => r matches Err(LinkError::TargetNotFound),
                (Some(s), Some(t)) => match (match answer {
                    Some(a) => relation_answer(a@),
                    None => None,
                }) {
                    Some((rel, conf, reason)) => r matches Ok(RelationProposal::Answered(x)) && x.relation == rel
                        && x.reasoning@ == reason && (match x.confidence {
                            Some(c) => Some(c@),
                            None => None::<Seq<char>>,
                        }) == conf,
                    None => r matches Ok(RelationProposal::Inferred(k)) && k == inferred_relation(s, t),
                },
            },
    {
        let source = match l2.get_node(source_id) {
            Some(n) => n,
            None => return Err(LinkError::SourceNotFound),
        };
        let target = match l2.get_node(target_id) {
            Some(n) => n,
            None => return Err(LinkError::TargetNotFound),
        };
        if let Some(a) = answer {
            if let Some(x) = parse_relation_response(a) {
                return Ok(RelationProposal::Answered(x));
            }
        }
        let ctx = InferenceContext { source_node: source, target_node: target, context: None };
        Ok(RelationProposal::Inferred(CausalEngine::infer_relation_kind(&ctx)))
    }

    /// The rule generalised from the causes of a pattern: the conditions and effect the
    /// LLM's answer states (see `rule_answer`) when it states a rule, else the heuristic
    /// rule (see `heuristic_rule`); named and generalised as `heuristic_rule` is.
    pub fn generate_rule_from_pattern(pattern_key: &str, causes: &Vec<Node>, answer: Option<&str>) -> (r: GeneratedRule)
        ensures
            r.source_chain@ == "pattern_"@ + pattern_key@,
            r.generalization_level == generalization_of(causes@.len() as nat),
            match (match answer {
                Some(a) => rule_answer(a@),
                None => None,
            }) {
                Some((ifs, then)) => strings_view(r.if_conditions@) == ifs && r.then_effect@ == then,
                None => {
                    &&& strictly_sorted(strings_view(r.if_conditions@))
                    &&& strings_view(r.if_conditions@).to_set() == conditions_of(nodes_view(causes@)).to_set()
                    &&& r.then_effect@ == "IF "@ + pattern_key@ + " THEN potential issue detected"@
                },
            },
    {
        if let Some(a) = answer {
            if let Some((ifs, then)) = parse_rule_response(a) {
                let mut source_chain = "pattern_".to_owned();
                source_chain.append(pattern_key);
                return GeneratedRule {
                    source_chain,
                    if_conditions: ifs,
                    then_effect: then,
                    generalization_level: generalization_for(causes.len()),
                };
            }
        }
        heuristic_rule(pattern_key, causes)
    }
}

} // verus!
