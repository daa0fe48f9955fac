//! CausalEngine: the causal reading of pairs of nodes — which relation links them,
//! which pairs contradict each other, and the word overlap their similarity rests on.

use vstd::prelude::*;
use crate::graph::node::{Node, NodeId, NodeView, NodeType, nodes_view};
use crate::graph::edge::Relation;
use crate::text::{str_contains, to_lowercase, is_substring, lowercase, chars_of, distinct_words,
    overlap_counts, word_set, capped};
use super::config::str_views;
use super::summary::{decimal, decimal_of};

verus! {

/// The nodes and optional context a relation is inferred for.
#[derive(Debug, Clone)]
pub struct InferenceContext {
    pub source_node: Node,
    pub target_node: Node,
    pub context: Option<String>,
}

/// Kind of contradiction between two nodes.
#[derive(Debug, Clone, Copy, PartialEq, Eq, Structural)]
pub enum ConflictType {
    /// The nodes state opposite things.
    SemanticOpposition,
    /// One cause leads to different effects.
    DivergentEffects,
    /// Different causes explain one effect.
    CompetingCauses,
    /// A rule inhibits a cause.
    RuleViolatesCause,
}

/// A contradiction found between two nodes.
#[derive(Debug, Clone)]
pub struct Contradiction {
    pub node_a: NodeId,
    pub node_b: NodeId,
    pub conflict_type: ConflictType,
    pub explanation: String,
}

/// The mathematical content of a contradiction.
pub struct ContradictionView {
    pub node_a: Seq<char>,
    pub node_b: Seq<char>,
    pub conflict_type: ConflictType,
    pub explanation: Seq<char>,
}

impl View for Contradiction {
    type V = ContradictionView;

    open spec fn view(&self) -> ContradictionView {
        ContradictionView {
            node_a: self.node_a@,
            node_b: self.node_b@,
            conflict_type: self.conflict_type,
            explanation: self.explanation@,
        }
    }
}

/// The explanation that the rule-based checks give for each kind of conflict.
pub open spec fn explanation_of(t: ConflictType) -> Seq<char> {
    match t {
        ConflictType::SemanticOpposition => "Узлы содержат противоположные утверждения"@,
        ConflictType::RuleViolatesCause => "Rule ингибирует Cause"@,
        _ => Seq::empty(),
    }
}

/// The views of a list of contradictions.
pub open spec fn contradictions_view(v: Seq<Contradiction>) -> Seq<ContradictionView> {
    v.map_values(|c: Contradiction| c@)
}

/// Phrases that mark a rule as preventive (compared in lower case).
pub open spec fn prevention_keywords() -> Seq<Seq<char>> {
    seq!["всегда добавляй"@, "никогда не"@, "обязательно"@, "запрети"@, "избегай"@, "предотврати"@,
        "не используй"@, "always"@, "never"@, "avoid"@, "prevent"@, "don't use"@, "must not"@]
}

/// The text names a prevention: one of the prevention phrases occurs in its lower case.
pub open spec fn is_preventive(content: Seq<char>) -> bool {
    exists|i: int| 0 <= i < prevention_keywords().len()
        && is_substring(lowercase(content), #[trigger] prevention_keywords()[i])
}

/// The first sides of the pairs of opposite statements (compared in lower case).
pub open spec fn opposition_firsts() -> Seq<Seq<char>> {
    seq!["работает"@, "успех"@, "исправлен"@, "включён"@, "есть"@]
}

/// The second sides of the pairs of opposite statements, in the same order.
pub open spec fn opposition_seconds() -> Seq<Seq<char>> {
    seq!["не работает"@, "провал"@, "сломан"@, "выключен"@, "нет"@]
}

/// Pair `i` of opposite statements is held by the two lower-case texts, one side each.
pub open spec fn opposed_by(la: Seq<char>, lb: Seq<char>, i: int) -> bool {
    (is_substring(la, opposition_firsts()[i]) && is_substring(lb, opposition_seconds()[i]))
        || (is_substring(la, opposition_seconds()[i]) && is_substring(lb, opposition_firsts()[i]))
}

/// The two texts state opposite things: for some pair, one text holds one side and the
/// other text the other side, in lower case.
pub open spec fn opposite(a: Seq<char>, b: Seq<char>) -> bool {
    exists|i: int| 0 <= i < 5 && #[trigger] opposed_by(lowercase(a), lowercase(b), i)
}

/// The contradiction between two nodes, if any: opposite statements first, then a
/// preventive rule against a cause.
pub open spec fn pair_conflict(a: NodeView, b: NodeView) -> Option<ConflictType> {
    if opposite(a.content, b.content) {
        Some(ConflictType::SemanticOpposition)
    } else if a.node_type == NodeType::Rule && b.node_type == NodeType::Cause && is_preventive(a.content) {
        Some(ConflictType::RuleViolatesCause)
    } else {
        None
    }
}

/// The contradictions of the pairs `(i, j)` with `i < j` among the first `n` rows of
/// `nodes` (row `i` against every later node), in order.
pub open spec fn contradictions_upto(nodes: Seq<NodeView>, n: nat) -> Seq<ContradictionView>
    decreases n,
{
    if n == 0 {
        Seq::empty()
    } else {
        contradictions_upto(nodes, (n - 1) as nat) + row_contradictions(nodes, n - 1, nodes.len() as int)
    }
}

/// The contradictions between node `i` and the nodes after it, up to (not including) `m`.
pub open spec fn row_contradictions(nodes: Seq<NodeView>, i: int, m: int) -> Seq<ContradictionView>
    decreases m - i,
{
    if m <= i + 1 {
        Seq::empty()
    } else {
        let r = row_contradictions(nodes, i, m - 1);
        match pair_conflict(nodes[i], nodes[m - 1]) {
            Some(t) => r.push(ContradictionView {
                node_a: nodes[i].id,
                node_b: nodes[m - 1].id,
                conflict_type: t,
                explanation: explanation_of(t),
            }),
            None => r,
        }
    }
}

/// The relation inferred from a source node to a target node: a cause leads to an
/// effect, an effect is explained by a cause, a preventive rule inhibits a cause (other
/// rules derive from it), a rule derives from an effect, and anything else is related.
pub open spec fn inferred_relation(source: NodeView, target: NodeView) -> Relation {
    if source.node_type == NodeType::Cause && target.node_type == NodeType::Effect {
        Relation::LeadsTo
    } else if source.node_type == NodeType::Effect && target.node_type == NodeType::Cause {
        Relation::ExplainedBy
    } else if source.node_type == NodeType::Rule && target.node_type == NodeType::Cause {
        if is_preventive(source.content) { Relation::Inhibits } else { Relation::DerivedFrom }
    } else if source.node_type == NodeType::Rule && target.node_type == NodeType::Effect {
        Relation::DerivedFrom
    } else {
        Relation::RelatedTo
    }
}

/// CausalEngine: stateless causal reasoning over nodes.
pub struct CausalEngine;

impl CausalEngine {
    /// Whether the text names a prevention ("always", "never", "avoid", …; compared in
    /// lower case).
    pub fn contains_prevention_keywords(content: &str) -> (b: bool)
        ensures
            b == is_preventive(content@),
    {
        let lower = to_lowercase(content);
        let kws: [&str; 13] = ["всегда добавляй", "никогда не", "обязательно", "запрети", "избегай",
            "предотврати", "не используй", "always", "never", "avoid", "prevent", "don't use", "must not"];
        assert(str_views(kws@) =~= prevention_keywords());
        let mut i: usize = 0;
        while i < kws.len()
            invariant
                i <= kws@.len(),
                str_views(kws@) == prevention_keywords(),
                lower@ == lowercase(content@),
                forall|k: int| 0 <= k < i ==> !is_substring(lower@, #[trigger] prevention_keywords()[k]),
            decreases kws@.len() - i,
        {
            assert(prevention_keywords()[i as int] == kws@[i as int]@);
            if str_contains(lower.as_str(), kws[i]) {
                return true;
            }
            i += 1;
        }
        false
    }

    /// Whether two texts state opposite things ("работает" / "не работает", …).
    pub fn are_semantically_opposite(a: &str, b: &str) -> (r: bool)
        ensures
            r == opposite(a@, b@),
    {
        let la = to_lowercase(a);
        let lb = to_lowercase(b);
        let firsts: [&str; 5] = ["работает", "успех", "исправлен", "включён", "есть"];
        let seconds: [&str; 5] = ["не работает", "провал", "сломан", "выключен", "нет"];
        assert(str_views(firsts@) =~= opposition_firsts());
        assert(str_views(seconds@) =~= opposition_seconds());
        let mut i: usize = 0;
        while i < 5
            invariant
                i <= 5,
                firsts@.len() == 5,
                seconds@.len() == 5,
                str_views(firsts@) == opposition_firsts(),
                str_views(seconds@) == opposition_seconds(),
                la@ == lowercase(a@),
                lb@ == lowercase(b@),
                forall|k: int| 0 <= k < i ==> !#[trigger] opposed_by(la@, lb@, k),
            decreases 5 - i,
        {
            let w1 = firsts[i];
            let w2 = seconds[i];
            assert(w1@ == opposition_firsts()[i as int]);
            assert(w2@ == opposition_seconds()[i as int]);
            if (str_contains(la.as_str(), w1) && str_contains(lb.as_str(), w2))
                || (str_contains(la.as_str(), w2) && str_contains(lb.as_str(), w1)) {
                assert(opposed_by(la@, lb@, i as int));
                return true;
            }
            i += 1;
        }
        false
    }

    /// The contradiction between two nodes, if any.
    pub fn check_pair(a: &Node, b: &Node) -> (r: Option<Contradiction>)
        ensures
            match r {
                Some(c) => pair_conflict(a@, b@) == Some(c@.conflict_type) && c@.node_a == a@.id && c@.node_b == b@.id
                    && c@.explanation == explanation_of(c@.conflict_type),
                None => pair_conflict(a@, b@) is None,
            },
    {
        if Self::are_semantically_opposite(a.content.as_str(), b.content.as_str()) {
            return Some(Contradiction {
                node_a: a.id.clone(),
                node_b: b.id.clone(),
                conflict_type: ConflictType::SemanticOpposition,
                explanation: "Узлы содержат противоположные утверждения".to_owned(),
            });
        }
        if a.node_type == NodeType::Rule && b.node_type == NodeType::Cause {
            if Self::contains_prevention_keywords(a.content.as_str()) {
                return Some(Contradiction {
                    node_a: a.id.clone(),
                    node_b: b.id.clone(),
                    conflict_type: ConflictType::RuleViolatesCause,
                    explanation: "Rule ингибирует Cause".to_owned(),
                });
            }
        }
        None
    }

    /// The contradictions among a list of nodes: every pair `(i, j)` with `i < j` is
    /// checked, in order.
    pub fn find_contradictions(nodes: &[Node]) -> (r: Vec<Contradiction>)
        ensures
            contradictions_view(r@) == contradictions_upto(nodes_view(nodes@), nodes@.len()),
    {
        let ghost nv = nodes_view(nodes@);
        let mut out: Vec<Contradiction> = Vec::new();
        let mut i: usize = 0;
        while i < nodes.len()
            invariant
                i <= nodes@.len(),
                nv == nodes_view(nodes@),
                contradictions_view(out@) == contradictions_upto(nv, i as nat),
            decreases nodes@.len() - i,
        {
            let ghost base = contradictions_view(out@);
            let mut j: usize = i + 1;
            proof {
                assert(row_contradictions(nv, i as int, j as int) =~= Seq::<ContradictionView>::empty());
            }
            while j < nodes.len()
                invariant
                    i < nodes@.len(),
                    i + 1 <= j <= nodes@.len(),
                    nv == nodes_view(nodes@),
                    contradictions_view(out@) == base + row_contradictions(nv, i as int, j as int),
                decreases nodes@.len() - j,
            {
                let ghost pre = contradictions_view(out@);
                assert(nv[i as int] == nodes@[i as int]@);
                assert(nv[j as int] == nodes@[j as int]@);
                match Self::check_pair(&nodes[i], &nodes[j]) {
                    Some(c) => {
                        out.push(c);
                        assert(contradictions_view(out@) =~= pre.push(c@));
                    },
                    None => {},
                }
                j += 1;
            }
            i += 1;
        }
        out
    }

    /// The relation inferred between the two nodes of a context.
    pub fn infer_relation_kind(context: &InferenceContext) -> (r: Relation)
        ensures
            r == inferred_relation(context.source_node@, context.target_node@),
    {
        let s = context.source_node.node_type;
        let t = context.target_node.node_type;
        if s == NodeType::Cause && t == NodeType::Effect {
            Relation::LeadsTo
        } else if s == NodeType::Effect && t == NodeType::Cause {
            Relation::ExplainedBy
        } else if s == NodeType::Rule && t == NodeType::Cause {
            if Self::contains_prevention_keywords(context.source_node.content.as_str()) {
                Relation::Inhibits
            } else {
                Relation::DerivedFrom
            }
        } else if s == NodeType::Rule && t == NodeType::Effect {
            Relation::DerivedFrom
        } else {
            Relation::RelatedTo
        }
    }

    /// The numbers of distinct lower-case words two texts share and hold between them
    /// (the parts of their Jaccard similarity; the second at most `usize::MAX`).
    pub fn word_overlap(a: &str, b: &str) -> (r: (usize, usize))
        ensures
            r.0 == word_set(lowercase(a@)).intersect(word_set(lowercase(b@))).len(),
            r.1 == capped(word_set(lowercase(a@)).union(word_set(lowercase(b@))).len()),
    {
        let la = chars_of(to_lowercase(a).as_str());
        let lb = chars_of(to_lowercase(b).as_str());
        let wa = distinct_words(&la);
        let wb = distinct_words(&lb);
        overlap_counts(&wa, &wb)
    }
}

// ---------------- calibration factors ----------------

/// A calibration factor: what it says and how much it scales the confidence, in percent.
pub struct CalibrationFactor {
    pub label: String,
    pub percent: u32,
}

/// The factor of the kind of source: observed (+20%), derived (+10%), hypothesized
/// (−20%), any other or none (×1).
pub open spec fn source_factor(source: Option<Seq<char>>) -> (Seq<char>, u32) {
    match source {
        Some(s) => if s == "observed"@ {
            ("source=observed (+0.2)"@, 120u32)
        } else if s == "derived"@ {
            ("source=derived (+0.1)"@, 110u32)
        } else if s == "hypothesized"@ {
            ("source=hypothesized (-0.2)"@, 80u32)
        } else {
            ("source=unknown (×1.0)"@, 100u32)
        },
        None => ("source=unknown (×1.0)"@, 100u32),
    }
}

/// The factor of the evidence: three pieces or more +15%, one or two +5%, none −10%.
pub open spec fn evidence_factor(n: nat) -> (Seq<char>, u32) {
    if n >= 3 {
        ("evidence_count="@ + decimal_of(n) + " (+0.15)"@, 115u32)
    } else if n >= 1 {
        ("evidence_count="@ + decimal_of(n) + " (+0.05)"@, 105u32)
    } else {
        ("evidence_count=0 (−0.1)"@, 90u32)
    }
}

/// The factor of consistency: consistent +10%, inconsistent −15%.
pub open spec fn consistency_factor(consistent: bool) -> (Seq<char>, u32) {
    if consistent { ("consistent (+0.1)"@, 110u32) } else { ("inconsistent (−0.15)"@, 85u32) }
}

/// The labels and percentages of a list of factors.
pub open spec fn factors_view(v: Seq<CalibrationFactor>) -> Seq<(Seq<char>, u32)> {
    v.map_values(|f: CalibrationFactor| (f.label@, f.percent))
}

impl CausalEngine {
    /// The factors a confidence is calibrated by, in order: the kind of source, the
    /// evidence, and consistency (see `source_factor`, `evidence_factor`,
    /// `consistency_factor`). The confidence is scaled by their product.
    pub fn calibration_factors(source: Option<&str>, evidence_count: usize, is_consistent: bool)
        -> (r: Vec<CalibrationFactor>)
        ensures
            factors_view(r@) == seq![
                source_factor(match source {
                    Some(s) => Some(s@),
                    None => None::<Seq<char>>,
                }),
                evidence_factor(evidence_count as nat),
                consistency_factor(is_consistent),
            ],
    {
        let src = match source {
            Some(s) => if crate::text::same_text(s, "observed") {
                CalibrationFactor { label: "source=observed (+0.2)".to_owned(), percent: 120 }
            } else if crate::text::same_text(s, "derived") {
                CalibrationFactor { label: "source=derived (+0.1)".to_owned(), percent: 110 }
            } else if crate::text::same_text(s, "hypothesized") {
                CalibrationFactor { label: "source=hypothesized (-0.2)".to_owned(), percent: 80 }
            } else {
                CalibrationFactor { label: "source=unknown (×1.0)".to_owned(), percent: 100 }
            },
            None => CalibrationFactor { label: "source=unknown (×1.0)".to_owned(), percent: 100 },
        };
        let evidence = if evidence_count >= 1 {
            let mut label = "evidence_count=".to_owned();
            let digits = decimal(evidence_count);
            label.append(crate::text::string_from_chars(digits.as_slice()).as_str());
            if evidence_count >= 3 {
                label.append(" (+0.15)");
                CalibrationFactor { label, percent: 115 }
            } else {
                label.append(" (+0.05)");
                CalibrationFactor { label, percent: 105 }
            }
        } else {
            CalibrationFactor { label: "evidence_count=0 (−0.1)".to_owned(), percent: 90 }
        };
        let consistency = if is_consistent {
            CalibrationFactor { label: "consistent (+0.1)".to_owned(), percent: 110 }
        } else {
            CalibrationFactor { label: "inconsistent (−0.15)".to_owned(), percent: 85 }
        };
        let mut r: Vec<CalibrationFactor> = Vec::new();
        r.push(src);
        r.push(evidence);
        r.push(consistency);
        assert(factors_view(r@) =~= seq![
            source_factor(match source {
                Some(s) => Some(s@),
                None => None::<Seq<char>>,
            }),
            evidence_factor(evidence_count as nat),
            consistency_factor(is_consistent),
        ]);
        r
    }
}

} // verus!
