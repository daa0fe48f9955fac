//! Properties that span the library's operations: what a read gives back after a write
//! or a delete, the bounds the buffers keep, how keyword results are ordered, that
//! textual similarity is symmetric, that generated clusters lose no domain, and that an
//! LLM's answer can only name the nodes it was shown.

use vstd::prelude::*;
use crate::keyed::{keys_unique, has_key, find_by_key, lemma_replace, lemma_append, lemma_remove,
    lemma_filter_members};
use crate::graph::node::NodeView;
use crate::components::{components_of, seeds_met, comps_disjoint, met};
use crate::actors::l1::{L1DomainView, domain_key, find_domain, domain_index, store_domain, singles, multis};
use crate::actors::l0::{L0NodeView, l0_key, find_l0, l0_index, store_l0, similar, sim_words, cluster_plan};
use crate::actors::plan_actor::{PlanView, plan_key, find_plan, plan_index, store_plan, remove_plan};
use crate::actors::workspace_manager::{WorkspaceView, ws_key, find_ws, ws_index, store_ws};
use crate::actors::gkl::{GklNodeView, gkl_key, find_gkl, gkl_index, store_gkl};
use crate::actors::search::{SearchFilters, node_key, node_index, store_node, ranked, band_pred, match_count,
    node_passes};
use crate::actors::s0::{S0EntryView, pushed, newest};
use crate::actors::coordinator::{DecisionView, logged};
use crate::actors::answers::{grouping_answer, groups_from, group_of, member_ids, contradictions_answer,
    contradictions_from, contradiction_from, answer_json};
use crate::json::{JsonView, items_of, field};
use crate::actors::trust::{gate_choice_of, GateChoice, TrustDecision};
use crate::graph::node::Status;

verus! {

/// Storing a record with key `k` under the keyed-list discipline (replace the record
/// with that key, or append): keys stay unique, `k` finds the new record, and every other
/// key finds what it found before.
proof fn lemma_store<A>(s: Seq<A>, key: spec_fn(A) -> Seq<char>, a: A, i: int)
    requires
        keys_unique(s, key),
        has_key(s, key, key(a)) ==> 0 <= i < s.len() && key(s[i]) == key(a),
    ensures
        ({
            let t = if has_key(s, key, key(a)) { s.update(i, a) } else { s.push(a) };
            &&& keys_unique(t, key)
            &&& find_by_key(t, key, key(a)) == Some(a)
            &&& forall|k: Seq<char>| k != key(a) ==> find_by_key(t, key, k) == find_by_key(s, key, k)
        }),
{
    if has_key(s, key, key(a)) {
        lemma_replace(s, key, i, a);
    } else {
        lemma_append(s, key, a);
    }
}

/// After a domain is saved, its id finds it, and every other id finds what it found
/// before.
pub proof fn law_l1_save_then_get(ds: Seq<L1DomainView>, d: L1DomainView, other: Seq<char>)
    requires
        keys_unique(ds, domain_key()),
    ensures
        keys_unique(store_domain(ds, d), domain_key()),
        find_domain(store_domain(ds, d), d.node.id) == Some(d),
        other != d.node.id ==> find_domain(store_domain(ds, d), other) == find_domain(ds, other),
{
    lemma_store(ds, domain_key(), d, domain_index(ds, d.node.id));
}

/// After a domain is deleted, its id finds nothing, and every other id finds what it
/// found before.
pub proof fn law_l1_delete_then_get(ds: Seq<L1DomainView>, id: Seq<char>, other: Seq<char>)
    requires
        keys_unique(ds, domain_key()),
        has_key(ds, domain_key(), id),
    ensures
        find_domain(ds.remove(domain_index(ds, id)), id) is None,
        other != id ==> find_domain(ds.remove(domain_index(ds, id)), other) == find_domain(ds, other),
{
    lemma_remove(ds, domain_key(), domain_index(ds, id));
}

/// After a cluster or hub is saved, its id finds it, and every other id finds what it
/// found before.
pub proof fn law_l0_save_then_get(ns: Seq<L0NodeView>, n: L0NodeView, other: Seq<char>)
    requires
        keys_unique(ns, l0_key()),
    ensures
        keys_unique(store_l0(ns, n), l0_key()),
        find_l0(store_l0(ns, n), n.node.id) == Some(n),
        other != n.node.id ==> find_l0(store_l0(ns, n), other) == find_l0(ns, other),
{
    lemma_store(ns, l0_key(), n, l0_index(ns, n.node.id));
}

/// After a cluster or hub is deleted, its id finds nothing, and every other id finds
/// what it found before.
pub proof fn law_l0_delete_then_get(ns: Seq<L0NodeView>, id: Seq<char>, other: Seq<char>)
    requires
        keys_unique(ns, l0_key()),
        has_key(ns, l0_key(), id),
    ensures
        find_l0(ns.remove(l0_index(ns, id)), id) is None,
        other != id ==> find_l0(ns.remove(l0_index(ns, id)), other) == find_l0(ns, other),
{
    lemma_remove(ns, l0_key(), l0_index(ns, id));
}

/// After a global node is saved, its id finds it, and every other id finds what it found
/// before.
pub proof fn law_gkl_save_then_get(ns: Seq<GklNodeView>, n: GklNodeView, other: Seq<char>)
    requires
        keys_unique(ns, gkl_key()),
    ensures
        keys_unique(store_gkl(ns, n), gkl_key()),
        find_gkl(store_gkl(ns, n), n.node.id) == Some(n),
        other != n.node.id ==> find_gkl(store_gkl(ns, n), other) == find_gkl(ns, other),
{
    lemma_store(ns, gkl_key(), n, gkl_index(ns, n.node.id));
}

/// After a plan is stored, its id finds it, and every other id finds what it found
/// before.
pub proof fn law_plan_store_then_find(ps: Seq<PlanView>, p: PlanView, other: Seq<char>)
    requires
        keys_unique(ps, plan_key()),
    ensures
        keys_unique(store_plan(ps, p), plan_key()),
        find_plan(store_plan(ps, p), p.id) == Some(p),
        other != p.id ==> find_plan(store_plan(ps, p), other) == find_plan(ps, other),
{
    lemma_store(ps, plan_key(), p, plan_index(ps, p.id));
}

/// After a plan is removed, its id finds nothing, and every other id finds what it found
/// before.
pub proof fn law_plan_remove_then_find(ps: Seq<PlanView>, id: Seq<char>, other: Seq<char>)
    requires
        keys_unique(ps, plan_key()),
    ensures
        keys_unique(remove_plan(ps, id), plan_key()),
        find_plan(remove_plan(ps, id), id) is None,
        other != id ==> find_plan(remove_plan(ps, id), other) == find_plan(ps, other),
{
    if has_key(ps, plan_key(), id) {
        lemma_remove(ps, plan_key(), plan_index(ps, id));
    }
}

/// After a workspace is stored, its id finds it, and every other id finds what it found
/// before.
pub proof fn law_workspace_store_then_find(ws: Seq<WorkspaceView>, w: WorkspaceView, other: Seq<char>)
    requires
        keys_unique(ws, ws_key()),
    ensures
        keys_unique(store_ws(ws, w), ws_key()),
        find_ws(store_ws(ws, w), w.id) == Some(w),
        other != w.id ==> find_ws(store_ws(ws, w), other) == find_ws(ws, other),
{
    lemma_store(ws, ws_key(), w, ws_index(ws, w.id));
}

/// After a node is indexed for search, its id finds it in the cache, and every other id
/// finds what it found before.
pub proof fn law_search_index_then_find(ns: Seq<NodeView>, n: NodeView, other: Seq<char>)
    requires
        keys_unique(ns, node_key()),
    ensures
        keys_unique(store_node(ns, n), node_key()),
        find_by_key(store_node(ns, n), node_key(), n.id) == Some(n),
        other != n.id ==> find_by_key(store_node(ns, n), node_key(), other) == find_by_key(ns, node_key(), other),
{
    lemma_store(ns, node_key(), n, node_index(ns, n.id));
}

/// The short-term buffer never holds more than its capacity: a push onto a buffer within
/// capacity stays within it, ends with the new entry, and when the buffer was full drops
/// exactly the oldest entry.
pub proof fn law_s0_bounded_fifo(s: Seq<S0EntryView>, cap: nat, e: S0EntryView)
    requires
        cap > 0,
        s.len() <= cap,
    ensures
        pushed(s, cap, e).len() <= cap,
        pushed(s, cap, e).last() == e,
        s.len() < cap ==> pushed(s, cap, e).drop_last() == s,
        s.len() == cap ==> pushed(s, cap, e).drop_last() == s.drop_first(),
{
    if s.len() >= cap {
        assert(s.drop_first().push(e).drop_last() =~= s.drop_first());
    } else {
        assert(s.push(e).drop_last() =~= s);
    }
}

/// The most recent entries come newest first: the first is the last pushed, and each
/// is followed by the one pushed before it.
pub proof fn law_s0_recent_newest_first(s: Seq<S0EntryView>, n: nat)
    requires
        n > 0,
        s.len() > 0,
    ensures
        newest(s, n)[0] == s.last(),
        forall|i: int| 0 <= i < newest(s, n).len() - 1 ==> #[trigger] newest(s, n)[i + 1] == s[s.len() - 2 - i],
{
}

/// Keyword results come best first: every listed node passes the filters and holds at
/// least one keyword, and no node holds fewer keywords than a node listed after it.
pub proof fn law_keyword_ranking(ns: Seq<NodeView>, f: SearchFilters, kws: Seq<Seq<char>>, c: nat)
    ensures
        forall|i: int| 0 <= i < ranked(ns, f, kws, c).len() ==> node_passes(#[trigger] ranked(ns, f, kws, c)[i], f)
            && 1 <= match_count(ranked(ns, f, kws, c)[i].content, kws) <= c,
        forall|i: int, j: int| 0 <= i < j < ranked(ns, f, kws, c).len() ==>
            match_count(#[trigger] ranked(ns, f, kws, c)[i].content, kws)
                >= match_count(#[trigger] ranked(ns, f, kws, c)[j].content, kws),
    decreases c,
{
    if c > 0 {
        let b = ns.filter(band_pred(f, kws, c));
        let rest = ranked(ns, f, kws, (c - 1) as nat);
        law_keyword_ranking(ns, f, kws, (c - 1) as nat);
        lemma_filter_members(ns, band_pred(f, kws, c));
        let r = ranked(ns, f, kws, c);
        assert(r == b + rest);
        assert forall|i: int| 0 <= i < r.len() implies node_passes(#[trigger] r[i], f)
            && 1 <= match_count(r[i].content, kws) <= c by {
            if i < b.len() {
                assert(r[i] == b[i]);
                assert(band_pred(f, kws, c)(b[i]));
            } else {
                assert(r[i] == rest[i - b.len()]);
            }
        }
        assert forall|i: int, j: int| 0 <= i < j < r.len() implies
            match_count(#[trigger] r[i].content, kws) >= match_count(#[trigger] r[j].content, kws) by {
            if j < b.len() {
                assert(r[i] == b[i] && r[j] == b[j]);
                assert(band_pred(f, kws, c)(b[i]) && band_pred(f, kws, c)(b[j]));
            } else if i < b.len() {
                assert(r[i] == b[i] && r[j] == rest[j - b.len()]);
                assert(band_pred(f, kws, c)(b[i]));
            } else {
                assert(r[i] == rest[i - b.len()] && r[j] == rest[j - b.len()]);
            }
        }
    }
}

/// Textual similarity of two domains does not depend on their order.
pub proof fn law_similarity_symmetric(a: Seq<char>, b: Seq<char>)
    ensures
        similar(a, b) == similar(b, a),
{
    let x = sim_words(a);
    let y = sim_words(b);
    assert(x.intersect(y) =~= y.intersect(x));
    assert(x.union(y) =~= y.union(x));
}

/// The coordinator's decision log stays within its bound, and the newest decision comes
/// first whenever anything is kept.
pub proof fn law_decision_log_bounded(log: Seq<DecisionView>, d: DecisionView, max: usize)
    ensures
        logged(log, d, max).len() <= max,
        max > 0 ==> logged(log, d, max)[0] == d,
        max > log.len() ==> logged(log, d, max).drop_first() == log,
{
    let l = seq![d] + log;
    if max > log.len() {
        assert(l.take(l.len() as int).drop_first() =~= log);
    }
}

/// A component with more than one node is one of the groups of `multis`.
proof fn lemma_multis_has(cs: Seq<Seq<Seq<char>>>, k: int)
    requires
        0 <= k < cs.len(),
        cs[k].len() != 1,
    ensures
        multis(cs).contains(cs[k]),
    decreases cs.len(),
{
    let p = cs.drop_last();
    if k < cs.len() - 1 {
        assert(p[k] == cs[k]);
        lemma_multis_has(p, k);
        let j = choose|j: int| 0 <= j < multis(p).len() && multis(p)[j] == cs[k];
        if cs.last().len() != 1 {
            assert(multis(cs)[j] == multis(p)[j]);
        }
    } else {
        assert(multis(cs).last() == cs[k]);
    }
}

/// The node of a one-node component is one of `singles`.
proof fn lemma_singles_has(cs: Seq<Seq<Seq<char>>>, k: int)
    requires
        0 <= k < cs.len(),
        cs[k].len() == 1,
    ensures
        singles(cs).contains(cs[k][0]),
    decreases cs.len(),
{
    let p = cs.drop_last();
    if k < cs.len() - 1 {
        assert(p[k] == cs[k]);
        lemma_singles_has(p, k);
        let j = choose|j: int| 0 <= j < singles(p).len() && singles(p)[j] == cs[k][0];
        if cs.last().len() == 1 {
            assert(singles(cs)[j] == singles(p)[j]);
        }
    } else {
        assert(singles(cs).last() == cs[k][0]);
    }
}

/// Generating clusters loses no domain: every domain lies in one of the groups that
/// become clusters (the domains that match no other domain are gathered in a group of
/// their own).
pub proof fn law_clusters_cover_domains(seeds: Seq<Seq<char>>, links: Seq<(Seq<char>, Seq<char>)>,
    cs: Seq<Seq<Seq<char>>>, i: int)
    requires
        components_of(seeds, links, cs),
        0 <= i < seeds.len(),
    ensures
        exists|g: int| 0 <= g < cluster_plan(cs).len() && (#[trigger] cluster_plan(cs)[g]).contains(seeds[i]),
{
    reveal(seeds_met);
    assert(met(cs).contains(seeds[i]));
    let k = choose|k: int| 0 <= k < cs.len() && #[trigger] cs[k].contains(seeds[i]);
    if cs[k].len() == 1 {
        lemma_singles_has(cs, k);
        let m = cs[k].index_of(seeds[i]);
        assert(cs[k][m] == seeds[i]);
        assert(cs[k][0] == seeds[i]);
        let plan = cluster_plan(cs);
        assert(plan.last() == singles(cs));
        assert(plan[plan.len() - 1].contains(seeds[i]));
    } else {
        lemma_multis_has(cs, k);
        let j = choose|j: int| 0 <= j < multis(cs).len() && multis(cs)[j] == cs[k];
        assert(cluster_plan(cs)[j] == cs[k]);
    }
}

/// Every id `member_ids` reads is the id of one of the atoms.
proof fn lemma_member_ids_given(xs: Seq<JsonView>, atoms: Seq<NodeView>, m: int)
    requires
        0 <= m < member_ids(xs, atoms).len(),
    ensures
        exists|i: int| 0 <= i < atoms.len() && #[trigger] atoms[i].id == member_ids(xs, atoms)[m],
    decreases xs.len(),
{
    let r = member_ids(xs.drop_last(), atoms);
    if m < r.len() {
        lemma_member_ids_given(xs.drop_last(), atoms, m);
    } else {
        match crate::json::unsigned_of(Some(xs.last())) {
            Some(i) => {
                assert(atoms[i as int].id == member_ids(xs, atoms)[m]);
            },
            None => {},
        }
    }
}

/// Every group `groups_from` reads has members, each the id of one of the atoms.
proof fn lemma_groups_given(items: Seq<JsonView>, atoms: Seq<NodeView>, g: int, m: int)
    requires
        0 <= g < groups_from(items, atoms).len(),
    ensures
        groups_from(items, atoms)[g].1.len() > 0,
        0 <= m < groups_from(items, atoms)[g].1.len() ==> exists|i: int| 0 <= i < atoms.len()
            && #[trigger] atoms[i].id == groups_from(items, atoms)[g].1[m],
    decreases items.len(),
{
    let r = groups_from(items.drop_last(), atoms);
    if g < r.len() {
        lemma_groups_given(items.drop_last(), atoms, g, m);
    } else {
        let grp = group_of(items.last(), atoms);
        match items_of(field(items.last(), "members"@)) {
            Some(xs) => {
                if 0 <= m < grp.1.len() {
                    lemma_member_ids_given(xs, atoms, m);
                }
            },
            None => {},
        }
    }
}

/// An LLM's grouping of atoms can only name the atoms it was shown: every group it yields
/// has members, and each member is the id of one of those atoms.
pub proof fn law_grouping_names_given_atoms(response: Seq<char>, atoms: Seq<NodeView>, g: int, m: int)
    requires
        0 <= g < grouping_answer(response, atoms).len(),
    ensures
        grouping_answer(response, atoms)[g].1.len() > 0,
        0 <= m < grouping_answer(response, atoms)[g].1.len() ==> exists|i: int| 0 <= i < atoms.len()
            && #[trigger] atoms[i].id == grouping_answer(response, atoms)[g].1[m],
{
    match answer_json(response, '[', ']') {
        Some(JsonView::Array(items)) => {
            lemma_groups_given(items, atoms, g, m);
        },
        _ => {},
    }
}

/// Every contradiction `contradictions_from` reads is between two of the nodes, at
/// different positions.
proof fn lemma_contradictions_given(items: Seq<JsonView>, nodes: Seq<NodeView>, k: int)
    requires
        0 <= k < contradictions_from(items, nodes).len(),
    ensures
        exists|i: int, j: int| 0 <= i < nodes.len() && 0 <= j < nodes.len() && i != j
            && #[trigger] nodes[i].id == contradictions_from(items, nodes)[k].0
            && #[trigger] nodes[j].id == contradictions_from(items, nodes)[k].1,
    decreases items.len(),
{
    let r = contradictions_from(items.drop_last(), nodes);
    if k < r.len() {
        lemma_contradictions_given(items.drop_last(), nodes, k);
    } else {
        let c = contradiction_from(items.last(), nodes);
        match (crate::json::unsigned_of(field(items.last(), "a"@)), crate::json::unsigned_of(field(items.last(), "b"@))) {
            (Some(a), Some(b)) => {
                assert(nodes[a as int].id == contradictions_from(items, nodes)[k].0);
                assert(nodes[b as int].id == contradictions_from(items, nodes)[k].1);
            },
            _ => {},
        }
    }
}

/// An LLM's answer on contradictions can only name the statements it was shown: each
/// contradiction it yields is between two of them, at different positions in the list.
pub proof fn law_contradictions_name_given_nodes(response: Seq<char>, nodes: Seq<NodeView>, k: int)
    requires
        0 <= k < contradictions_answer(response, nodes).len(),
    ensures
        exists|i: int, j: int| 0 <= i < nodes.len() && 0 <= j < nodes.len() && i != j
            && #[trigger] nodes[i].id == contradictions_answer(response, nodes)[k].0
            && #[trigger] nodes[j].id == contradictions_answer(response, nodes)[k].1,
{
    match answer_json(response, '[', ']') {
        Some(JsonView::Array(items)) => {
            lemma_contradictions_given(items, nodes, k);
        },
        _ => {},
    }
}

/// The write gate refuses only on the strict path, and only a blocked input that looks
/// manipulative: the trusted path always writes (as a draft at worst), and low trust alone
/// never refuses a write.
pub proof fn law_gate_refuses_only_manipulation(strict: bool, d: TrustDecision, manipulative: bool)
    ensures
        gate_choice_of(strict, d, manipulative) == GateChoice::Refuse ==> strict && manipulative
            && d == TrustDecision::Block,
        !strict ==> gate_choice_of(strict, d, manipulative) != GateChoice::Refuse,
        !manipulative ==> gate_choice_of(strict, d, manipulative) != GateChoice::Refuse,
        gate_choice_of(strict, d, manipulative) != GateChoice::Write(Status::Archived),
{
}

} // verus!
