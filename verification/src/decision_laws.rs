//! Properties of the rule-based decisions: which relation two node kinds give, how the
//! write filter treats untrusted input on the strict path, which working directories a
//! workspace is detected from, how an effect's severity follows its keywords, and that
//! opposite statements oppose each other whichever comes first.

use vstd::prelude::*;
use crate::text::{is_substring, lowercase};
use crate::graph::node::{NodeView, NodeType, Status};
use crate::graph::edge::Relation;
use crate::actors::causal_engine::{inferred_relation, is_preventive, opposite, opposed_by, pair_conflict,
    ConflictType, contradictions_upto, row_contradictions, opposition_firsts, opposition_seconds, prevention_keywords};
use crate::actors::trust::{gate_choice_of, GateChoice, TrustDecision};
use crate::actors::workspace_manager::{WorkspaceView, WorkspaceStatus, detects, path_matches};
use crate::actors::inference::{severity_of, RiskLevel, critical_words, high_words, medium_words, mentions_any};

verus! {

// ---------------- relations inferred from node kinds ----------------

/// The relation between two nodes follows their kinds: a cause leads to an effect, an
/// effect is explained by a cause, a rule is derived from an effect it describes, a rule
/// inhibits a cause when it names a prevention and is derived from it otherwise; pairs of
/// any other kinds are only related.
pub proof fn law_relation_by_kinds(source: NodeView, target: NodeView)
    ensures
        source.node_type == NodeType::Cause && target.node_type == NodeType::Effect
            ==> inferred_relation(source, target) == Relation::LeadsTo,
        source.node_type == NodeType::Effect && target.node_type == NodeType::Cause
            ==> inferred_relation(source, target) == Relation::ExplainedBy,
        source.node_type == NodeType::Rule && target.node_type == NodeType::Effect
            ==> inferred_relation(source, target) == Relation::DerivedFrom,
        source.node_type == NodeType::Rule && target.node_type == NodeType::Cause && is_preventive(source.content)
            ==> inferred_relation(source, target) == Relation::Inhibits,
        source.node_type == NodeType::Rule && target.node_type == NodeType::Cause && !is_preventive(source.content)
            ==> inferred_relation(source, target) == Relation::DerivedFrom,
        source.node_type != NodeType::Rule && !(source.node_type == NodeType::Cause && target.node_type == NodeType::Effect)
            && !(source.node_type == NodeType::Effect && target.node_type == NodeType::Cause)
            ==> inferred_relation(source, target) == Relation::RelatedTo,
{
}

/// Swapping the two nodes turns "leads to" into "explained by" and back; only a rule is
/// ever derived from or inhibits something.
pub proof fn law_relation_reversal(a: NodeView, b: NodeView)
    ensures
        inferred_relation(a, b) == Relation::LeadsTo <==> inferred_relation(b, a) == Relation::ExplainedBy,
        inferred_relation(a, b) == Relation::DerivedFrom ==> a.node_type == NodeType::Rule,
        inferred_relation(a, b) == Relation::Inhibits ==> a.node_type == NodeType::Rule
            && b.node_type == NodeType::Cause,
{
}

// ---------------- the write filter on the strict path ----------------

/// On the strict path only an accepted input is written as active; one to verify is
/// written as a draft, and a blocked one as a draft unless it looks manipulative, when it
/// is refused. Off the strict path an input is active exactly when it does not look
/// manipulative.
pub proof fn law_strict_gate_statuses(d: TrustDecision, manipulative: bool)
    ensures
        gate_choice_of(true, d, manipulative) == GateChoice::Write(Status::Active) <==> d == TrustDecision::Accept,
        d == TrustDecision::Verify ==> gate_choice_of(true, d, manipulative) == GateChoice::Write(Status::Draft),
        d == TrustDecision::Block && !manipulative ==> gate_choice_of(true, d, manipulative) == GateChoice::Write(Status::Draft),
        d == TrustDecision::Block && manipulative ==> gate_choice_of(true, d, manipulative) == GateChoice::Refuse,
        gate_choice_of(false, d, manipulative) == GateChoice::Write(Status::Active) <==> !manipulative,
        manipulative ==> gate_choice_of(false, d, manipulative) == GateChoice::Write(Status::Draft),
{
}

// ---------------- workspace detection ----------------

/// A workspace that is not archived is detected from a working directory whose lower
/// case equals its path's, lies inside it, or holds it; an archived workspace, or one
/// without a path, never is. Matching does not depend on which of the two texts is the
/// path.
pub proof fn law_detection_by_path(w: WorkspaceView, cwd: Seq<char>)
    ensures
        w.status != WorkspaceStatus::Archived && w.path is Some && (
            lowercase(w.path->0) == lowercase(cwd)
            || is_substring(lowercase(cwd), lowercase(w.path->0))
            || is_substring(lowercase(w.path->0), lowercase(cwd))) ==> detects(w, cwd),
        w.status == WorkspaceStatus::Archived ==> !detects(w, cwd),
        w.path is None ==> !detects(w, cwd),
        detects(w, cwd) ==> (w.path matches Some(p) && (lowercase(p) == lowercase(cwd)
            || is_substring(lowercase(cwd), lowercase(p)) || is_substring(lowercase(p), lowercase(cwd)))),
{
}

/// Path matching is symmetric in the path and the working directory.
pub proof fn law_path_match_symmetric(a: Seq<char>, b: Seq<char>)
    ensures
        path_matches(a, b) == path_matches(b, a),
{
}

// ---------------- severity of effects ----------------

/// An effect's severity is that of the most severe keyword class its lower case
/// mentions: any critical keyword makes it critical whatever else it mentions; else any
/// high keyword makes it high; else any medium keyword medium; else it is low.
pub proof fn law_severity_by_keywords(c: Seq<char>)
    ensures
        forall|i: int| 0 <= i < critical_words().len() && #[trigger] is_substring(lowercase(c), critical_words()[i])
            ==> severity_of(c) == RiskLevel::Critical,
        !mentions_any(lowercase(c), critical_words()) ==> forall|i: int| 0 <= i < high_words().len()
            && #[trigger] is_substring(lowercase(c), high_words()[i]) ==> severity_of(c) == RiskLevel::High,
        !mentions_any(lowercase(c), critical_words()) && !mentions_any(lowercase(c), high_words())
            ==> forall|i: int| 0 <= i < medium_words().len() && #[trigger] is_substring(lowercase(c), medium_words()[i])
            ==> severity_of(c) == RiskLevel::Medium,
        !mentions_any(lowercase(c), critical_words()) && !mentions_any(lowercase(c), high_words())
            && !mentions_any(lowercase(c), medium_words()) ==> severity_of(c) == RiskLevel::Low,
        severity_of(c) == RiskLevel::Critical ==> mentions_any(lowercase(c), critical_words()),
        severity_of(c) == RiskLevel::High ==> mentions_any(lowercase(c), high_words()),
{
}

// ---------------- opposite statements ----------------

/// Opposition is symmetric: if one text holds one side of an opposite pair and the other
/// text holds the other side, the two oppose each other whichever is named first; so a
/// pair of opposed nodes conflicts as a semantic opposition in either order.
pub proof fn law_opposition_symmetric(a: Seq<char>, b: Seq<char>)
    ensures
        opposite(a, b) == opposite(b, a),
{
    if opposite(a, b) {
        let i = choose|i: int| 0 <= i < 5 && #[trigger] opposed_by(lowercase(a), lowercase(b), i);
        assert(opposed_by(lowercase(b), lowercase(a), i));
    }
    if opposite(b, a) {
        let i = choose|i: int| 0 <= i < 5 && #[trigger] opposed_by(lowercase(b), lowercase(a), i);
        assert(opposed_by(lowercase(a), lowercase(b), i));
    }
}

/// Two nodes whose texts are opposed conflict as a semantic opposition in either order,
/// and the contradiction search over the two of them finds exactly that one conflict,
/// whichever comes first.
pub proof fn law_opposed_pair_found(a: NodeView, b: NodeView)
    requires
        opposite(a.content, b.content),
    ensures
        pair_conflict(a, b) == Some(ConflictType::SemanticOpposition),
        pair_conflict(b, a) == Some(ConflictType::SemanticOpposition),
        contradictions_upto(seq![a, b], 2).len() == 1,
        contradictions_upto(seq![b, a], 2).len() == 1,
        contradictions_upto(seq![a, b], 2)[0].conflict_type == ConflictType::SemanticOpposition,
        contradictions_upto(seq![b, a], 2)[0].conflict_type == ConflictType::SemanticOpposition,
{
    law_opposition_symmetric(a.content, b.content);
    lemma_pair_search(a, b);
    lemma_pair_search(b, a);
}

proof fn lemma_pair_search(a: NodeView, b: NodeView)
    requires
        pair_conflict(a, b) == Some(ConflictType::SemanticOpposition),
    ensures
        contradictions_upto(seq![a, b], 2).len() == 1,
        contradictions_upto(seq![a, b], 2)[0].conflict_type == ConflictType::SemanticOpposition,
{
    let ns = seq![a, b];
    assert(ns[0] == a && ns[1] == b);
    assert(row_contradictions(ns, 1, 2).len() == 0);
    assert(row_contradictions(ns, 0, 1).len() == 0);
    assert(row_contradictions(ns, 0, 2) == row_contradictions(ns, 0, 1).push(
        crate::actors::causal_engine::ContradictionView {
            node_a: a.id,
            node_b: b.id,
            conflict_type: ConflictType::SemanticOpposition,
            explanation: crate::actors::causal_engine::explanation_of(ConflictType::SemanticOpposition),
        }));
    assert(contradictions_upto(ns, 0).len() == 0);
    assert(contradictions_upto(ns, 1) == contradictions_upto(ns, 0) + row_contradictions(ns, 0, 2));
    assert(contradictions_upto(ns, 2) == contradictions_upto(ns, 1) + row_contradictions(ns, 1, 2));
}

/// Two texts are opposed when, in lower case, one holds a side of an opposite pair and
/// the other holds the other side of the same pair, in either order; and they are
/// opposed only then.
pub proof fn law_opposition_by_pairs(a: Seq<char>, b: Seq<char>)
    ensures
        forall|i: int| 0 <= i < 5 && #[trigger] is_substring(lowercase(a), opposition_firsts()[i])
            && is_substring(lowercase(b), opposition_seconds()[i]) ==> opposite(a, b) && opposite(b, a),
        forall|i: int| 0 <= i < 5 && #[trigger] is_substring(lowercase(a), opposition_seconds()[i])
            && is_substring(lowercase(b), opposition_firsts()[i]) ==> opposite(a, b) && opposite(b, a),
        opposite(a, b) ==> exists|i: int| 0 <= i < 5 && (
            (is_substring(lowercase(a), #[trigger] opposition_firsts()[i]) && is_substring(lowercase(b), opposition_seconds()[i]))
            || (is_substring(lowercase(a), opposition_seconds()[i]) && is_substring(lowercase(b), opposition_firsts()[i]))),
{
    law_opposition_symmetric(a, b);
    assert forall|i: int| 0 <= i < 5 && #[trigger] is_substring(lowercase(a), opposition_firsts()[i])
        && is_substring(lowercase(b), opposition_seconds()[i]) implies opposite(a, b) && opposite(b, a) by {
        assert(opposed_by(lowercase(a), lowercase(b), i));
    }
    assert forall|i: int| 0 <= i < 5 && #[trigger] is_substring(lowercase(a), opposition_seconds()[i])
        && is_substring(lowercase(b), opposition_firsts()[i]) implies opposite(a, b) && opposite(b, a) by {
        assert(opposed_by(lowercase(a), lowercase(b), i));
    }
    if opposite(a, b) {
        let i = choose|i: int| 0 <= i < 5 && #[trigger] opposed_by(lowercase(a), lowercase(b), i);
        assert(opposition_firsts()[i] == opposition_firsts()[i]);
    }
}

/// A rule that names a prevention (one of the prevention phrases occurs in its lower
/// case) conflicts with a cause as a violation, unless the two texts are already opposed.
pub proof fn law_preventive_rule_against_cause(rule: NodeView, cause: NodeView)
    requires
        rule.node_type == NodeType::Rule,
        cause.node_type == NodeType::Cause,
        !opposite(rule.content, cause.content),
    ensures
        forall|i: int| 0 <= i < prevention_keywords().len()
            && #[trigger] is_substring(lowercase(rule.content), prevention_keywords()[i])
            ==> pair_conflict(rule, cause) == Some(ConflictType::RuleViolatesCause),
        pair_conflict(rule, cause) is Some <==> is_preventive(rule.content),
        pair_conflict(cause, rule) is None,
{
    law_opposition_symmetric(rule.content, cause.content);
}

} // verus!
