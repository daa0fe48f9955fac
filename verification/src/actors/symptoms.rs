//! Traversals that start from a symptom text, and the forward traversal restricted to
//! stored nodes.

use vstd::prelude::*;
use crate::graph::node::{NodeId, NodeView, NodeType};
use crate::graph::edge::EdgeView;
use crate::keyed::{lemma_filter_step, lemma_take_full};
use crate::text::{is_substring, lowercase, to_lowercase, str_contains};
use super::l2::{L2Actor, type_members};
use super::chain::{ChainActor, ChainEntry, ChainEntryView, ChainResult, entries_view, backward_chain,
    exists_node, is_cause};
use super::forward::{ChainError, forward_chain};

verus! {

/// The node's content mentions `text`, both taken in lower case.
pub open spec fn mentions(n: NodeView, text: Seq<char>) -> bool {
    is_substring(lowercase(n.content), lowercase(text))
}

/// The predicate "mentions `text`" over nodes.
pub open spec fn mentions_pred(text: Seq<char>) -> spec_fn(NodeView) -> bool {
    |n: NodeView| mentions(n, text)
}

/// The ids of the nodes of `effects` that mention `text`, in order.
pub open spec fn symptom_matches(effects: Seq<NodeView>, text: Seq<char>) -> Seq<Seq<char>> {
    effects.filter(mentions_pred(text)).map_values(|n: NodeView| n.id)
}

/// The ids of the effect nodes of a store that mention `text`, in type-index order.
pub open spec fn symptom_starts(l2: L2Actor, text: Seq<char>) -> Seq<Seq<char>> {
    symptom_matches(type_members(l2.type_index(), NodeType::Effect, l2.node_views()), text)
}

/// The views of a list of ids.
pub open spec fn id_views(v: Seq<NodeId>) -> Seq<Seq<char>> {
    v.map_values(|i: NodeId| i@)
}

/// Some entry of `a` is for node `id`.
pub open spec fn lists_node(a: Seq<ChainEntryView>, id: Seq<char>) -> bool {
    exists|k: int| 0 <= k < a.len() && (#[trigger] a[k]).node_id == id
}

/// `acc` followed by the entries of `es` whose node is not yet listed, in order.
pub open spec fn merge_entries(acc: Seq<ChainEntryView>, es: Seq<ChainEntryView>) -> Seq<ChainEntryView>
    decreases es.len(),
{
    if es.len() == 0 {
        acc
    } else {
        let a = merge_entries(acc, es.drop_last());
        if lists_node(a, es.last().node_id) { a } else { a.push(es.last()) }
    }
}

/// The entries of several traversals merged in turn, each node listed once.
pub open spec fn combine_entries(rs: Seq<Seq<ChainEntryView>>) -> Seq<ChainEntryView>
    decreases rs.len(),
{
    if rs.len() == 0 {
        Seq::empty()
    } else {
        merge_entries(combine_entries(rs.drop_last()), rs.last())
    }
}

/// The entry lists of several traversal results.
pub open spec fn entries_of(rs: Seq<(Seq<ChainEntryView>, bool, bool)>) -> Seq<Seq<ChainEntryView>> {
    rs.map_values(|x: (Seq<ChainEntryView>, bool, bool)| x.0)
}

/// `rs` holds one backward traversal per start, and the combined result is made of them:
/// their entries merged, and each flag set when some traversal set it.
pub open spec fn backward_parts(
    nodes: Seq<NodeView>,
    edges: Seq<EdgeView>,
    starts: Seq<Seq<char>>,
    max_depth: nat,
    rs: Seq<(Seq<ChainEntryView>, bool, bool)>,
    entries: Seq<ChainEntryView>,
    reached_root: bool,
    max_depth_reached: bool,
) -> bool {
    &&& rs.len() == starts.len()
    &&& forall|i: int| 0 <= i < rs.len() ==> #[trigger] backward_chain(nodes, edges, starts[i], max_depth,
        rs[i].0, rs[i].1, rs[i].2)
    &&& entries == combine_entries(entries_of(rs))
    &&& reached_root == exists|i: int| 0 <= i < rs.len() && (#[trigger] rs[i]).1
    &&& max_depth_reached == exists|i: int| 0 <= i < rs.len() && (#[trigger] rs[i]).2
}

impl Clone for ChainEntry {
    fn clone(&self) -> (r: Self)
        ensures
            r@ == self@,
    {
        ChainEntry {
            node_id: self.node_id.clone(),
            depth: self.depth,
            edge: match &self.edge {
                Some(e) => Some(e.clone()),
                None => None,
            },
            relation: self.relation,
        }
    }
}

/// Whether some entry of `v` is for node `id`.
fn entries_list(v: &Vec<ChainEntry>, id: &NodeId) -> (b: bool)
    ensures
        b == lists_node(entries_view(v@), id@),
{
    let mut i: usize = 0;
    while i < v.len()
        invariant
            i <= v.len(),
            forall|k: int| 0 <= k < i ==> entries_view(v@)[k].node_id != id@,
        decreases v.len() - i,
    {
        if v[i].node_id.same(id) {
            assert(entries_view(v@)[i as int].node_id == id@);
            return true;
        }
        i += 1;
    }
    false
}

/// Append to `acc` the entries of `es` whose node is not yet listed.
fn merge_into(acc: &mut Vec<ChainEntry>, es: &Vec<ChainEntry>)
    ensures
        entries_view(final(acc)@) == merge_entries(entries_view(old(acc)@), entries_view(es@)),
{
    let ghost a0 = entries_view(acc@);
    let ghost ev = entries_view(es@);
    let mut k: usize = 0;
    while k < es.len()
        invariant
            k <= es.len(),
            ev == entries_view(es@),
            entries_view(acc@) == merge_entries(a0, ev.take(k as int)),
        decreases es.len() - k,
    {
        assert(ev.take(k + 1).drop_last() =~= ev.take(k as int));
        assert(ev.take(k + 1).last() == ev[k as int]);
        if !entries_list(acc, &es[k].node_id) {
            let ghost before = entries_view(acc@);
            acc.push(es[k].clone());
            assert(entries_view(acc@) =~= before.push(ev[k as int]));
        }
        k += 1;
    }
    assert(ev.take(es.len() as int) =~= ev);
}

impl ChainActor {
    /// The ids of the effect nodes whose content mentions `symptom_text`, compared in
    /// lower case, in the order of the store's type index.
    fn find_effects_by_symptom(&self, l2: &L2Actor, symptom_text: &str) -> (r: Vec<NodeId>)
        requires
            l2.wf(),
        ensures
            id_views(r@) == symptom_starts(*l2, symptom_text@),
    {
        let effects = l2.list_by_type(NodeType::Effect);
        let ghost ns = type_members(l2.type_index(), NodeType::Effect, l2.node_views());
        let needle = to_lowercase(symptom_text);
        let mut results: Vec<NodeId> = Vec::new();
        let mut i: usize = 0;
        while i < effects.len()
            invariant
                i <= effects.len(),
                ns == crate::graph::node::nodes_view(effects@),
                needle@ == lowercase(symptom_text@),
                id_views(results@) == ns.take(i as int).filter(mentions_pred(symptom_text@)).map_values(|n: NodeView| n.id),
            decreases effects.len() - i,
        {
            proof {
                lemma_filter_step(ns, mentions_pred(symptom_text@), i as int);
            }
            let hay = to_lowercase(effects[i].content.as_str());
            assert(ns[i as int] == effects@[i as int]@);
            if str_contains(hay.as_str(), needle.as_str()) {
                let ghost before = id_views(results@);
                results.push(effects[i].id.clone());
                assert(id_views(results@) =~= before.push(ns[i as int].id));
                assert(ns.take(i + 1).filter(mentions_pred(symptom_text@)).map_values(|n: NodeView| n.id) =~=
                    ns.take(i as int).filter(mentions_pred(symptom_text@)).map_values(|n: NodeView| n.id).push(ns[i as int].id));
            }
            i += 1;
        }
        proof {
            lemma_take_full(ns);
        }
        results
    }

    /// Backward traversal from a symptom: the effect nodes that mention the text are each
    /// traversed backwards, and their entries merged (each node listed once, in order of
    /// first appearance); a flag is set when any traversal set it.
    pub fn chain_backward(&self, l2: &L2Actor, symptom_text: &str, max_depth: usize) -> (r: ChainResult)
        requires
            l2.wf(),
        ensures
            exists|rs: Seq<(Seq<ChainEntryView>, bool, bool)>| #[trigger] backward_parts(l2.node_views(),
                l2.edge_views(), symptom_starts(*l2, symptom_text@), max_depth as nat, rs,
                entries_view(r.entries@), r.reached_root, r.max_depth_reached),
    {
        let starts = self.find_effects_by_symptom(l2, symptom_text);
        let ghost nodes = l2.node_views();
        let ghost edges = l2.edge_views();
        let ghost sv = id_views(starts@);
        let ghost mut rs: Seq<(Seq<ChainEntryView>, bool, bool)> = Seq::empty();
        let mut entries: Vec<ChainEntry> = Vec::new();
        let mut reached_root = false;
        let mut max_reached = false;
        let mut i: usize = 0;
        proof {
            assert(entries_of(rs) =~= Seq::<Seq<ChainEntryView>>::empty());
        }
        while i < starts.len()
            invariant
                l2.wf(),
                nodes == l2.node_views(),
                edges == l2.edge_views(),
                sv == id_views(starts@),
                i <= starts.len(),
                rs.len() == i,
                forall|j: int| 0 <= j < rs.len() ==> #[trigger] backward_chain(nodes, edges, sv[j], max_depth as nat,
                    rs[j].0, rs[j].1, rs[j].2),
                entries_view(entries@) == combine_entries(entries_of(rs)),
                reached_root == exists|j: int| 0 <= j < rs.len() && (#[trigger] rs[j]).1,
                max_reached == exists|j: int| 0 <= j < rs.len() && (#[trigger] rs[j]).2,
            decreases starts.len() - i,
        {
            let partial = self.chain_backward_from_node(l2, &starts[i], max_depth);
            let ghost x = (entries_view(partial.entries@), partial.reached_root, partial.max_depth_reached);
            let ghost rs0 = rs;
            merge_into(&mut entries, &partial.entries);
            if partial.reached_root {
                reached_root = true;
            }
            if partial.max_depth_reached {
                max_reached = true;
            }
            proof {
                rs = rs0.push(x);
                assert(entries_of(rs).drop_last() =~= entries_of(rs0));
                assert(entries_of(rs).last() == x.0);
                assert(sv[i as int] == starts@[i as int]@);
                assert forall|j: int| 0 <= j < rs.len() implies #[trigger] backward_chain(nodes, edges, sv[j], max_depth as nat,
                    rs[j].0, rs[j].1, rs[j].2) by {
                    if j < rs0.len() {
                        assert(rs[j] == rs0[j]);
                    }
                }
                assert(reached_root == exists|j: int| 0 <= j < rs.len() && (#[trigger] rs[j]).1) by {
                    if reached_root && !x.1 {
                        let j = choose|j: int| 0 <= j < rs0.len() && (#[trigger] rs0[j]).1;
                        assert(rs[j] == rs0[j]);
                    }
                    if x.1 {
                        assert(rs[rs0.len() as int] == x);
                    }
                    if exists|j: int| 0 <= j < rs.len() && (#[trigger] rs[j]).1 {
                        let j = choose|j: int| 0 <= j < rs.len() && (#[trigger] rs[j]).1;
                        if j < rs0.len() {
                            assert(rs[j] == rs0[j]);
                        }
                    }
                }
                assert(max_reached == exists|j: int| 0 <= j < rs.len() && (#[trigger] rs[j]).2) by {
                    if max_reached && !x.2 {
                        let j = choose|j: int| 0 <= j < rs0.len() && (#[trigger] rs0[j]).2;
                        assert(rs[j] == rs0[j]);
                    }
                    if x.2 {
                        assert(rs[rs0.len() as int] == x);
                    }
                    if exists|j: int| 0 <= j < rs.len() && (#[trigger] rs[j]).2 {
                        let j = choose|j: int| 0 <= j < rs.len() && (#[trigger] rs[j]).2;
                        if j < rs0.len() {
                            assert(rs[j] == rs0[j]);
                        }
                    }
                }
            }
            i += 1;
        }
        proof {
            assert(sv == symptom_starts(*l2, symptom_text@));
            assert(backward_parts(nodes, edges, sv, max_depth as nat, rs, entries_view(entries@), reached_root, max_reached));
        }
        let r = ChainResult { entries, reached_root, max_depth_reached: max_reached };
        assert(backward_parts(l2.node_views(), l2.edge_views(), symptom_starts(*l2, symptom_text@), max_depth as nat, rs,
            entries_view(r.entries@), r.reached_root, r.max_depth_reached));
        r
    }

    /// Post-mortem traversal: the backward traversal from a symptom with no depth limit.
    pub fn chain_post_mortem(&self, l2: &L2Actor, symptom_text: &str) -> (r: ChainResult)
        requires
            l2.wf(),
        ensures
            exists|rs: Seq<(Seq<ChainEntryView>, bool, bool)>| #[trigger] backward_parts(l2.node_views(),
                l2.edge_views(), symptom_starts(*l2, symptom_text@), usize::MAX as nat, rs,
                entries_view(r.entries@), r.reached_root, r.max_depth_reached),
    {
        self.chain_backward(l2, symptom_text, usize::MAX)
    }

    /// Forward-post traversal from an action: the forward traversal, keeping the entries
    /// whose node is stored (every entry of a forward traversal is).
    pub fn chain_forward_post(&self, l2: &L2Actor, action_node_id: &NodeId, max_depth: usize) -> (r: Result<ChainResult, ChainError>)
        requires
            l2.wf(),
        ensures
            !exists_node(l2.node_views(), action_node_id@) ==> (r matches Ok(res) && res.entries@.len() == 0
                && !res.reached_root && !res.max_depth_reached),
            exists_node(l2.node_views(), action_node_id@) && !is_cause(l2.node_views(), action_node_id@)
                ==> r == Err::<ChainResult, ChainError>(ChainError::NotACause),
            is_cause(l2.node_views(), action_node_id@) ==> (r matches Ok(res) && !res.reached_root
                && forward_chain(l2.node_views(), l2.edge_views(), action_node_id@, max_depth as nat,
                    entries_view(res.entries@), res.max_depth_reached)),
    {
        let pre = match self.chain_forward_pre(l2, action_node_id, max_depth) {
            Ok(p) => p,
            Err(e) => {
                return Err(e);
            },
        };
        let ghost ev = entries_view(pre.entries@);
        let ghost nodes = l2.node_views();
        assert(forall|k: int| 0 <= k < ev.len() ==> exists_node(nodes, (#[trigger] ev[k]).node_id));
        let mut verified: Vec<ChainEntry> = Vec::new();
        let mut k: usize = 0;
        while k < pre.entries.len()
            invariant
                l2.wf(),
                nodes == l2.node_views(),
                ev == entries_view(pre.entries@),
                forall|j: int| 0 <= j < ev.len() ==> exists_node(nodes, (#[trigger] ev[j]).node_id),
                k <= pre.entries.len(),
                entries_view(verified@) == ev.take(k as int),
            decreases pre.entries.len() - k,
        {
            assert(exists_node(nodes, ev[k as int].node_id));
            match l2.get_node(&pre.entries[k].node_id) {
                Some(_) => {
                    let ghost before = entries_view(verified@);
                    verified.push(pre.entries[k].clone());
                    assert(entries_view(verified@) =~= before.push(ev[k as int]));
                    assert(ev.take(k + 1) =~= ev.take(k as int).push(ev[k as int]));
                },
                None => {},
            }
            k += 1;
        }
        assert(ev.take(pre.entries.len() as int) =~= ev);
        Ok(ChainResult { entries: verified, reached_root: pre.reached_root, max_depth_reached: pre.max_depth_reached })
    }
}

} // verus!
