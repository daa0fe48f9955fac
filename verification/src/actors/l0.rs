//! L0Actor: clusters of similar domains and the workspace hub above them.

use vstd::prelude::*;
use crate::graph::node::{Node, NodeId, NodeView, NodeType, Level, nodes_view, opt_view};
use crate::graph::edge::{Edge, EdgeId, EdgeView, Relation, edges_view};
use crate::keyed::{keys_unique, find_by_key, has_key, lemma_find_at, lemma_replace, lemma_append, lemma_remove,
    lemma_filter_step, lemma_take_full};
use crate::components::{connected_components, components_of, ids_view, links_of, comps_view};
use crate::text::{same_text, views_of, words, lowercase, to_lowercase, chars_of, split_words, dedup_words,
    strip_non_alnum, strip_non_alnum_chars, overlap_counts, capped, string_from_chars};
use super::llm_client::LlmClient;
use super::summary::{collect_contents, name_group, group_name, member_contents, decimal, decimal_of};
use super::l1::{copy_ids, has_id, singles, multis, node_ids, pair_key, map_all, map_pair, domain_of_atom,
    upsert_pair, find_pair, unmapped, lemma_filter_keys_unique, L1Actor};

verus! {

/// A cluster or the hub, with its members (domains of a cluster, clusters of the hub).
#[derive(Debug)]
pub struct L0Node {
    pub node: Node,
    pub member_ids: Vec<NodeId>,
}

/// The content of an L0 node.
pub struct L0NodeView {
    pub node: NodeView,
    pub members: Seq<Seq<char>>,
}

impl View for L0Node {
    type V = L0NodeView;

    open spec fn view(&self) -> L0NodeView {
        L0NodeView { node: self.node@, members: ids_view(self.member_ids@) }
    }
}

impl Clone for L0Node {
    fn clone(&self) -> (r: Self)
        ensures
            r@ == self@,
    {
        L0Node { node: self.node.clone(), member_ids: copy_ids(&self.member_ids) }
    }
}

/// The views of a list of L0 nodes.
pub open spec fn l0_view(v: Seq<L0Node>) -> Seq<L0NodeView> {
    v.map_values(|n: L0Node| n@)
}

/// The outcome of generating the L0 structure.
#[derive(Debug)]
pub struct L0AutogenResult {
    pub clusters: Vec<L0Node>,
    pub hub: Option<L0Node>,
    pub orphan_domains: Vec<NodeId>,
}

/// Counts of the L0 structure of a workspace.
#[derive(Debug, Clone, Copy)]
pub struct L0Counts {
    pub cluster_count: usize,
    pub hub_count: usize,
    pub total_domains: usize,
}

/// The words a domain's similarity rests on: its lower-case words without the
/// non-alphanumeric characters at their ends, keeping those of more than two bytes.
pub open spec fn kept_words(ws: Seq<Seq<char>>) -> Seq<Seq<char>>
    decreases ws.len(),
{
    if ws.len() == 0 {
        Seq::empty()
    } else {
        let r = kept_words(ws.drop_last());
        let w = strip_non_alnum(ws.last());
        if w.len() > 0 && (vstd::utf8::encode_utf8(w).len() as usize) > 2 { r.push(w) } else { r }
    }
}

/// The set of similarity words of a text.
pub open spec fn sim_words(content: Seq<char>) -> Set<Seq<char>> {
    kept_words(words(lowercase(content))).to_set()
}

/// Two texts are similar: both have similarity words and their Jaccard index exceeds
/// 0.05 (twenty shared words for every word of the union; the union counted up to
/// `usize::MAX`).
pub open spec fn similar(a: Seq<char>, b: Seq<char>) -> bool {
    let x = sim_words(a);
    let y = sim_words(b);
    x.len() > 0 && y.len() > 0 && 20 * x.intersect(y).len() > capped(x.union(y).len())
}

/// The links between node `i` and the later nodes up to `m` that are similar to it.
pub open spec fn sim_row(ns: Seq<NodeView>, i: int, m: int) -> Seq<(Seq<char>, Seq<char>)>
    decreases m - i,
{
    if m <= i + 1 {
        Seq::empty()
    } else {
        let r = sim_row(ns, i, m - 1);
        if similar(ns[i].content, ns[m - 1].content) { r.push((ns[i].id, ns[m - 1].id)) } else { r }
    }
}

/// The similarity links among the first `n` rows of `ns`: each pair `(i, j)`, `i < j`,
/// of similar nodes, in order.
pub open spec fn sim_links(ns: Seq<NodeView>, n: nat) -> Seq<(Seq<char>, Seq<char>)>
    decreases n,
{
    if n == 0 { Seq::empty() } else { sim_links(ns, (n - 1) as nat) + sim_row(ns, n - 1, ns.len() as int) }
}

/// The similarity words of a text, each once.
pub fn domain_words(content: &str) -> (r: Vec<Vec<char>>)
    ensures
        views_of(r@).no_duplicates(),
        views_of(r@).to_set() == sim_words(content@),
{
    let low = chars_of(to_lowercase(content).as_str());
    let ws = split_words(&low);
    let ghost wv = words(lowercase(content@));
    let mut kept: Vec<Vec<char>> = Vec::new();
    let mut i: usize = 0;
    while i < ws.len()
        invariant
            i <= ws.len(),
            views_of(ws@) == wv,
            views_of(kept@) == kept_words(wv.take(i as int)),
        decreases ws.len() - i,
    {
        assert(wv.take(i + 1).drop_last() =~= wv.take(i as int));
        assert(wv.take(i + 1).last() == ws@[i as int]@);
        let w = strip_non_alnum_chars(&ws[i]);
        let s = string_from_chars(w.as_slice());
        let n = s.as_str().len();
        if w.len() > 0 && n > 2 {
            let ghost before = views_of(kept@);
            kept.push(w);
            assert(views_of(kept@) =~= before.push(strip_non_alnum(wv[i as int])));
        }
        i += 1;
    }
    assert(wv.take(ws.len() as int) =~= wv);
    dedup_words(&kept)
}

/// Whether two word sets (each without repeats) are similar (see `similar`).
fn similar_words(a: &Vec<Vec<char>>, b: &Vec<Vec<char>>) -> (r: bool)
    requires
        views_of(a@).no_duplicates(),
        views_of(b@).no_duplicates(),
    ensures
        r == (views_of(a@).to_set().len() > 0 && views_of(b@).to_set().len() > 0
            && 20 * views_of(a@).to_set().intersect(views_of(b@).to_set()).len()
                > capped(views_of(a@).to_set().union(views_of(b@).to_set()).len())),
{
    proof {
        views_of(a@).unique_seq_to_set();
        views_of(b@).unique_seq_to_set();
    }
    if a.len() == 0 || b.len() == 0 {
        return false;
    }
    let (inter, union) = overlap_counts(a, b);
    (inter as u128) * 20 > (union as u128)
}

/// The similarity links of a list of domains (see `sim_links`).
pub fn similarity_links(domains: &Vec<Node>) -> (r: Vec<(NodeId, NodeId)>)
    ensures
        links_of(r@) == sim_links(nodes_view(domains@), domains@.len()),
{
    let ghost nv = nodes_view(domains@);
    let mut wsets: Vec<Vec<Vec<char>>> = Vec::new();
    let mut i: usize = 0;
    while i < domains.len()
        invariant
            i <= domains.len(),
            nv == nodes_view(domains@),
            wsets@.len() == i,
            forall|k: int| 0 <= k < i ==> views_of((#[trigger] wsets@[k])@).no_duplicates()
                && views_of(wsets@[k]@).to_set() == sim_words(nv[k].content),
        decreases domains.len() - i,
    {
        assert(nv[i as int] == domains@[i as int]@);
        let w = domain_words(domains[i].content.as_str());
        wsets.push(w);
        i += 1;
    }
    let mut out: Vec<(NodeId, NodeId)> = Vec::new();
    let mut a: usize = 0;
    while a < domains.len()
        invariant
            a <= domains.len(),
            nv == nodes_view(domains@),
            wsets@.len() == domains.len(),
            forall|k: int| 0 <= k < domains.len() ==> views_of((#[trigger] wsets@[k])@).no_duplicates()
                && views_of(wsets@[k]@).to_set() == sim_words(nv[k].content),
            links_of(out@) == sim_links(nv, a as nat),
        decreases domains.len() - a,
    {
        let ghost base = links_of(out@);
        let mut b: usize = a + 1;
        proof {
            assert(sim_row(nv, a as int, b as int) =~= Seq::<(Seq<char>, Seq<char>)>::empty());
        }
        while b < domains.len()
            invariant
                a < domains.len(),
                a + 1 <= b <= domains.len(),
                nv == nodes_view(domains@),
                wsets@.len() == domains.len(),
                forall|k: int| 0 <= k < domains.len() ==> views_of((#[trigger] wsets@[k])@).no_duplicates()
                    && views_of(wsets@[k]@).to_set() == sim_words(nv[k].content),
                links_of(out@) == base + sim_row(nv, a as int, b as int),
            decreases domains.len() - b,
        {
            let ghost pre = links_of(out@);
            assert(views_of(wsets@[a as int]@).no_duplicates());
            assert(views_of(wsets@[b as int]@).no_duplicates());
            if similar_words(&wsets[a], &wsets[b]) {
                let x = domains[a].id.clone();
                let y = domains[b].id.clone();
                assert(x@ == nv[a as int].id && y@ == nv[b as int].id);
                out.push((x, y));
                assert(links_of(out@) =~= pre.push((nv[a as int].id, nv[b as int].id)));
            }
            b += 1;
        }
        a += 1;
    }
    out
}


/// The key of an L0 node: its node's id.
pub open spec fn l0_key() -> spec_fn(L0NodeView) -> Seq<char> {
    |n: L0NodeView| n.node.id
}

/// The L0 node with id `id`.
pub open spec fn find_l0(ns: Seq<L0NodeView>, id: Seq<char>) -> Option<L0NodeView> {
    find_by_key(ns, l0_key(), id)
}

/// The position of the L0 node with id `id`.
pub open spec fn l0_index(ns: Seq<L0NodeView>, id: Seq<char>) -> int {
    choose|i: int| 0 <= i < ns.len() && ns[i].node.id == id
}

/// The L0 nodes after storing `n`: it replaces the node with its id, or is appended.
pub open spec fn store_l0(ns: Seq<L0NodeView>, n: L0NodeView) -> Seq<L0NodeView> {
    if has_key(ns, l0_key(), n.node.id) { ns.update(l0_index(ns, n.node.id), n) } else { ns.push(n) }
}

/// The L0 nodes after storing each of `ns` in turn.
pub open spec fn store_l0s(old: Seq<L0NodeView>, ns: Seq<L0NodeView>) -> Seq<L0NodeView>
    decreases ns.len(),
{
    if ns.len() == 0 { old } else { store_l0(store_l0s(old, ns.drop_last()), ns.last()) }
}

/// A member → parent index after saving `n`: when `n` is of type `t`, each of its
/// members is mapped to it.
pub open spec fn index_after(ps: Seq<(Seq<char>, Seq<char>)>, n: L0NodeView, t: NodeType) -> Seq<(Seq<char>, Seq<char>)> {
    if n.node.node_type == t { map_all(ps, n.members, n.node.id) } else { ps }
}

/// A member → parent index after saving each of `ns` in turn.
pub open spec fn index_all(ps: Seq<(Seq<char>, Seq<char>)>, ns: Seq<L0NodeView>, t: NodeType) -> Seq<(Seq<char>, Seq<char>)>
    decreases ns.len(),
{
    if ns.len() == 0 { ps } else { index_after(index_all(ps, ns.drop_last(), t), ns.last(), t) }
}

/// A member → parent index after deleting `n`: when `n` is of type `t`, its members are
/// no longer mapped.
pub open spec fn index_without(ps: Seq<(Seq<char>, Seq<char>)>, n: L0NodeView, t: NodeType) -> Seq<(Seq<char>, Seq<char>)> {
    if n.node.node_type == t { ps.filter(unmapped(n.members)) } else { ps }
}

/// The node is an L0 node of type `t` in workspace `ws`.
pub open spec fn l0_of(ws: Seq<char>, t: NodeType) -> spec_fn(L0NodeView) -> bool {
    |n: L0NodeView| n.node.metadata.workspace_id == Some(ws) && n.node.node_type == t
}

/// The number of members of a list of L0 nodes.
pub open spec fn l0_member_total(ns: Seq<L0NodeView>) -> nat
    decreases ns.len(),
{
    if ns.len() == 0 { 0 } else { l0_member_total(ns.drop_last()) + ns.last().members.len() }
}

/// `n` is a fresh L0 node of type `t` in workspace `ws`, named `name`, holding `members`.
pub open spec fn fresh_l0(n: L0NodeView, ws: Seq<char>, t: NodeType, name: Seq<char>, members: Seq<Seq<char>>) -> bool {
    &&& n.node.node_type == t
    &&& n.node.level == Level::L0
    &&& n.node.content == name
    &&& n.node.metadata.workspace_id == Some(ws)
    &&& n.node.metadata.parent_id is None
    &&& n.node.metadata.tags.len() == 0
    &&& n.members == members
}

/// Map every id of `ms` in turn to `d` in a list of pairs.
fn map_members(ps: &mut Vec<(NodeId, NodeId)>, ms: &Vec<NodeId>, d: &NodeId)
    requires
        keys_unique(links_of(old(ps)@), pair_key()),
    ensures
        keys_unique(links_of(final(ps)@), pair_key()),
        links_of(final(ps)@) == map_all(links_of(old(ps)@), ids_view(ms@), d@),
{
    let ghost p0 = links_of(ps@);
    let ghost mv = ids_view(ms@);
    let mut k: usize = 0;
    while k < ms.len()
        invariant
            k <= ms.len(),
            mv == ids_view(ms@),
            keys_unique(links_of(ps@), pair_key()),
            links_of(ps@) == map_all(p0, mv.take(k as int), d@),
        decreases ms.len() - k,
    {
        assert(mv.take(k + 1).drop_last() =~= mv.take(k as int));
        assert(mv.take(k + 1).last() == ms@[k as int]@);
        upsert_pair(ps, &ms[k], d);
        k += 1;
    }
    assert(mv.take(ms.len() as int) =~= mv);
}

/// Drop the pairs of the ids of `ms` from a list of pairs.
fn unmap_members(ps: &mut Vec<(NodeId, NodeId)>, ms: &Vec<NodeId>)
    requires
        keys_unique(links_of(old(ps)@), pair_key()),
    ensures
        keys_unique(links_of(final(ps)@), pair_key()),
        links_of(final(ps)@) == links_of(old(ps)@).filter(unmapped(ids_view(ms@))),
{
    let ghost l = links_of(ps@);
    let ghost pred = unmapped(ids_view(ms@));
    let mut kept: Vec<(NodeId, NodeId)> = Vec::new();
    let mut k: usize = 0;
    while k < ps.len()
        invariant
            k <= ps.len(),
            l == links_of(ps@),
            ps@ == old(ps)@,
            keys_unique(l, pair_key()),
            pred == unmapped(ids_view(ms@)),
            links_of(kept@) == l.take(k as int).filter(pred),
        decreases ps.len() - k,
    {
        proof {
            lemma_filter_step(l, pred, k as int);
        }
        assert(l[k as int] == (ps@[k as int].0@, ps@[k as int].1@));
        if !has_id(ms, &ps[k].0) {
            let ghost before = links_of(kept@);
            kept.push((ps[k].0.clone(), ps[k].1.clone()));
            assert(links_of(kept@) =~= before.push(l[k as int]));
        }
        k += 1;
    }
    proof {
        lemma_take_full(l);
        lemma_filter_keys_unique(l, pair_key(), pred);
    }
    *ps = kept;
}

/// L0Actor: the clusters and hubs (unique ids, in storage order), the domain → cluster
/// and cluster → hub indexes, the member edges, and an optional LLM for naming clusters.
pub struct L0Actor {
    nodes: Vec<L0Node>,
    domain_to_cluster: Vec<(NodeId, NodeId)>,
    cluster_to_hub: Vec<(NodeId, NodeId)>,
    edges: Vec<Edge>,
    llm: Option<LlmClient>,
}

impl L0Actor {
    /// The stored L0 nodes, in order.
    pub closed spec fn node_views(&self) -> Seq<L0NodeView> {
        l0_view(self.nodes@)
    }

    /// The domain → cluster pairs (one per domain).
    pub closed spec fn cluster_pairs(&self) -> Seq<(Seq<char>, Seq<char>)> {
        links_of(self.domain_to_cluster@)
    }

    /// The cluster → hub pairs (one per cluster).
    pub closed spec fn hub_pairs(&self) -> Seq<(Seq<char>, Seq<char>)> {
        links_of(self.cluster_to_hub@)
    }

    /// The member edges recorded, in order.
    pub closed spec fn edge_views(&self) -> Seq<EdgeView> {
        edges_view(self.edges@)
    }

    /// Unique node ids and one pair per member in each index.
    pub open spec fn wf(&self) -> bool {
        &&& keys_unique(self.node_views(), l0_key())
        &&& keys_unique(self.cluster_pairs(), pair_key())
        &&& keys_unique(self.hub_pairs(), pair_key())
    }

    /// The LLM client set on the actor, if any.
    pub closed spec fn llm_client(&self) -> Option<LlmClient> {
        self.llm
    }

    /// An actor without nodes, edges or LLM.
    pub fn new() -> (a: Self)
        ensures
            a.wf(),
            a.node_views().len() == 0,
            a.cluster_pairs().len() == 0,
            a.hub_pairs().len() == 0,
            a.edge_views().len() == 0,
            a.llm_client() is None,
    {
        let a = L0Actor { nodes: Vec::new(), domain_to_cluster: Vec::new(), cluster_to_hub: Vec::new(),
            edges: Vec::new(), llm: None };
        assert(a.node_views() =~= Seq::<L0NodeView>::empty());
        assert(a.cluster_pairs() =~= Seq::<(Seq<char>, Seq<char>)>::empty());
        assert(a.hub_pairs() =~= Seq::<(Seq<char>, Seq<char>)>::empty());
        assert(a.edge_views() =~= Seq::<EdgeView>::empty());
        a
    }

    /// The same actor with an LLM for naming clusters.
    pub fn with_llm(self, llm: LlmClient) -> (a: Self)
        requires
            self.wf(),
        ensures
            a.wf(),
            a.node_views() == self.node_views(),
            a.cluster_pairs() == self.cluster_pairs(),
            a.hub_pairs() == self.hub_pairs(),
            a.edge_views() == self.edge_views(),
            a.llm_client() matches Some(c) && c@ == llm@,
    {
        L0Actor { nodes: self.nodes, domain_to_cluster: self.domain_to_cluster, cluster_to_hub: self.cluster_to_hub,
            edges: self.edges, llm: Some(llm) }
    }

    /// The LLM, when one is set and enabled.
    pub fn llm(&self) -> (r: Option<&LlmClient>)
        ensures
            match r {
                Some(c) => self.llm_client() matches Some(d) && c@ == d@ && c.is_enabled_spec(),
                None => self.llm_client() matches Some(d) ==> !d.is_enabled_spec(),
            },
    {
        match &self.llm {
            Some(c) => if c.is_enabled() { Some(c) } else { None },
            None => None,
        }
    }

    fn position(&self, id: &NodeId) -> (r: Option<usize>)
        requires
            self.wf(),
        ensures
            match r {
                Some(i) => i < self.node_views().len() && self.node_views()[i as int].node.id == id@
                    && l0_index(self.node_views(), id@) == i
                    && find_l0(self.node_views(), id@) == Some(self.node_views()[i as int]),
                None => !has_key(self.node_views(), l0_key(), id@) && find_l0(self.node_views(), id@) is None,
            },
    {
        let mut i: usize = 0;
        while i < self.nodes.len()
            invariant
                self.wf(),
                i <= self.nodes.len(),
                forall|k: int| 0 <= k < i ==> self.node_views()[k].node.id != id@,
            decreases self.nodes.len() - i,
        {
            assert(self.node_views()[i as int] == self.nodes@[i as int]@);
            if self.nodes[i].node.id.same(id) {
                proof {
                    lemma_find_at(self.node_views(), l0_key(), i as int);
                    let j = l0_index(self.node_views(), id@);
                    assert(l0_key()(self.node_views()[j]) == l0_key()(self.node_views()[i as int]));
                    assert(j == i);
                }
                return Some(i);
            }
            i += 1;
        }
        None
    }

    /// Store a cluster or hub (replacing the node with its id); a cluster's domains are
    /// mapped to it, a hub's clusters to it.
    pub fn save_node(&mut self, node: &L0Node) -> (id: NodeId)
        requires
            old(self).wf(),
        ensures
            final(self).wf(),
            id@ == node@.node.id,
            final(self).node_views() == store_l0(old(self).node_views(), node@),
            final(self).cluster_pairs() == index_after(old(self).cluster_pairs(), node@, NodeType::Cluster),
            final(self).hub_pairs() == index_after(old(self).hub_pairs(), node@, NodeType::Hub),
            final(self).edge_views() == old(self).edge_views(),
    {
        let ghost ns = self.node_views();
        let n = node.clone();
        match self.position(&node.node.id) {
            Some(i) => {
                proof {
                    lemma_replace(ns, l0_key(), i as int, node@);
                }
                self.nodes.set(i, n);
                assert(self.node_views() =~= ns.update(i as int, node@));
            },
            None => {
                proof {
                    lemma_append(ns, l0_key(), node@);
                }
                self.nodes.push(n);
                assert(self.node_views() =~= ns.push(node@));
            },
        }
        match node.node.node_type {
            NodeType::Cluster => {
                map_members(&mut self.domain_to_cluster, &node.member_ids, &node.node.id);
            },
            NodeType::Hub => {
                map_members(&mut self.cluster_to_hub, &node.member_ids, &node.node.id);
            },
            _ => {},
        }
        node.node.id.clone()
    }

    /// The L0 node with id `id`, if any.
    pub fn get_node(&self, id: &NodeId) -> (r: Option<L0Node>)
        requires
            self.wf(),
        ensures
            match r {
                Some(n) => find_l0(self.node_views(), id@) == Some(n@),
                None => find_l0(self.node_views(), id@) is None,
            },
    {
        match self.position(id) {
            Some(i) => Some(self.nodes[i].clone()),
            None => None,
        }
    }

    /// The L0 nodes of type `t` in a workspace, in order.
    fn list_of(&self, workspace_id: &str, t: NodeType) -> (r: Vec<L0Node>)
        ensures
            l0_view(r@) == self.node_views().filter(l0_of(workspace_id@, t)),
    {
        let ghost ns = self.node_views();
        let ghost pred = l0_of(workspace_id@, t);
        let mut r: Vec<L0Node> = Vec::new();
        let mut i: usize = 0;
        while i < self.nodes.len()
            invariant
                i <= self.nodes.len(),
                ns == self.node_views(),
                pred == l0_of(workspace_id@, t),
                l0_view(r@) == ns.take(i as int).filter(pred),
            decreases self.nodes.len() - i,
        {
            proof {
                lemma_filter_step(ns, pred, i as int);
            }
            assert(ns[i as int] == self.nodes@[i as int]@);
            let keep = match &self.nodes[i].node.metadata.workspace_id {
                Some(w) => same_text(w.as_str(), workspace_id),
                None => false,
            } && self.nodes[i].node.node_type == t;
            if keep {
                let ghost before = l0_view(r@);
                r.push(self.nodes[i].clone());
                assert(l0_view(r@) =~= before.push(ns[i as int]));
            }
            i += 1;
        }
        proof {
            lemma_take_full(ns);
        }
        r
    }

    /// The clusters of a workspace, in order.
    pub fn list_clusters(&self, workspace_id: &str) -> (r: Vec<L0Node>)
        ensures
            l0_view(r@) == self.node_views().filter(l0_of(workspace_id@, NodeType::Cluster)),
    {
        self.list_of(workspace_id, NodeType::Cluster)
    }

    /// The first hub of a workspace, if any.
    pub fn get_hub(&self, workspace_id: &str) -> (r: Option<L0Node>)
        ensures
            match r {
                Some(h) => self.node_views().filter(l0_of(workspace_id@, NodeType::Hub)).len() > 0
                    && h@ == self.node_views().filter(l0_of(workspace_id@, NodeType::Hub))[0],
                None => self.node_views().filter(l0_of(workspace_id@, NodeType::Hub)).len() == 0,
            },
    {
        let mut hs = self.list_of(workspace_id, NodeType::Hub);
        if hs.len() > 0 {
            assert(l0_view(hs@)[0] == hs@[0]@);
            Some(hs.remove(0))
        } else {
            None
        }
    }

    /// The cluster a domain is mapped to, if it is still stored.
    pub fn find_cluster_for_domain(&self, domain_id: &NodeId) -> (r: Option<L0Node>)
        requires
            self.wf(),
        ensures
            match domain_of_atom(self.cluster_pairs(), domain_id@) {
                Some(c) => match r {
                    Some(x) => find_l0(self.node_views(), c) == Some(x@),
                    None => find_l0(self.node_views(), c) is None,
                },
                None => r is None,
            },
    {
        match find_pair(&self.domain_to_cluster, domain_id) {
            Some(j) => self.get_node(&self.domain_to_cluster[j].1),
            None => None,
        }
    }

    /// The hub a cluster is mapped to, if it is still stored.
    pub fn find_hub_for_cluster(&self, cluster_id: &NodeId) -> (r: Option<L0Node>)
        requires
            self.wf(),
        ensures
            match domain_of_atom(self.hub_pairs(), cluster_id@) {
                Some(h) => match r {
                    Some(x) => find_l0(self.node_views(), h) == Some(x@),
                    None => find_l0(self.node_views(), h) is None,
                },
                None => r is None,
            },
    {
        match find_pair(&self.cluster_to_hub, cluster_id) {
            Some(j) => self.get_node(&self.cluster_to_hub[j].1),
            None => None,
        }
    }

    /// Record a `RelatedTo` edge from an L0 node to one of its members; the edge's id.
    pub fn add_member_edge(&mut self, parent_id: &NodeId, child_id: &NodeId) -> (id: EdgeId)
        requires
            old(self).wf(),
        ensures
            final(self).wf(),
            final(self).node_views() == old(self).node_views(),
            final(self).cluster_pairs() == old(self).cluster_pairs(),
            final(self).hub_pairs() == old(self).hub_pairs(),
            final(self).edge_views().drop_last() == old(self).edge_views(),
            final(self).edge_views().len() == old(self).edge_views().len() + 1,
            final(self).edge_views().last().id == id@,
            final(self).edge_views().last().source == parent_id@,
            final(self).edge_views().last().target == child_id@,
            final(self).edge_views().last().relation == Relation::RelatedTo,
    {
        let e = Edge::new(parent_id.clone(), child_id.clone(), Relation::RelatedTo);
        let id = e.id.clone();
        let ghost ev = self.edge_views();
        let ghost e_v = e@;
        self.edges.push(e);
        assert(self.edge_views() =~= ev.push(e_v));
        id
    }

    /// Delete an L0 node and, for a cluster or hub, the index pairs of its members.
    pub fn delete_node(&mut self, node_id: &NodeId)
        requires
            old(self).wf(),
        ensures
            final(self).wf(),
            final(self).edge_views() == old(self).edge_views(),
            match find_l0(old(self).node_views(), node_id@) {
                None => final(self).node_views() == old(self).node_views()
                    && final(self).cluster_pairs() == old(self).cluster_pairs()
                    && final(self).hub_pairs() == old(self).hub_pairs(),
                Some(n) => final(self).node_views() == old(self).node_views().remove(l0_index(old(self).node_views(), node_id@))
                    && final(self).cluster_pairs() == index_without(old(self).cluster_pairs(), n, NodeType::Cluster)
                    && final(self).hub_pairs() == index_without(old(self).hub_pairs(), n, NodeType::Hub),
            },
    {
        let ghost ns = self.node_views();
        match self.position(node_id) {
            None => {},
            Some(i) => {
                proof {
                    lemma_remove(ns, l0_key(), i as int);
                }
                let n = self.nodes.remove(i);
                assert(self.node_views() =~= ns.remove(i as int));
                match n.node.node_type {
                    NodeType::Cluster => {
                        unmap_members(&mut self.domain_to_cluster, &n.member_ids);
                    },
                    NodeType::Hub => {
                        unmap_members(&mut self.cluster_to_hub, &n.member_ids);
                    },
                    _ => {},
                }
            },
        }
    }

    /// The number of clusters of a workspace, whether it has a hub, and the number of
    /// domains its clusters hold (at most `usize::MAX`).
    pub fn stats(&self, workspace_id: &str) -> (r: L0Counts)
        ensures
            r.cluster_count == self.node_views().filter(l0_of(workspace_id@, NodeType::Cluster)).len(),
            r.hub_count == (if self.node_views().filter(l0_of(workspace_id@, NodeType::Hub)).len() > 0 { 1usize } else { 0usize }),
            r.total_domains == capped(l0_member_total(self.node_views().filter(l0_of(workspace_id@, NodeType::Cluster)))),
    {
        let cs = self.list_clusters(workspace_id);
        let hub = self.get_hub(workspace_id);
        let ghost cv = l0_view(cs@);
        let mut total: usize = 0;
        let mut i: usize = 0;
        while i < cs.len()
            invariant
                i <= cs.len(),
                cv == l0_view(cs@),
                total == capped(l0_member_total(cv.take(i as int))),
            decreases cs.len() - i,
        {
            assert(cv.take(i + 1).drop_last() =~= cv.take(i as int));
            assert(cv.take(i + 1).last() == cs@[i as int]@);
            total = total.saturating_add(cs[i].member_ids.len());
            i += 1;
        }
        assert(cv.take(cs.len() as int) =~= cv);
        L0Counts { cluster_count: cs.len(), hub_count: if hub.is_some() { 1 } else { 0 }, total_domains: total }
    }
}


/// The groups of domains that become clusters: each component of more than one domain,
/// in order, then, when there are any, the domains of the one-domain components together.
pub open spec fn cluster_plan(cs: Seq<Seq<Seq<char>>>) -> Seq<Seq<Seq<char>>> {
    if singles(cs).len() > 0 { multis(cs).push(singles(cs)) } else { multis(cs) }
}

/// The name given for group `k`, if any.
pub open spec fn name_at(names: Seq<Option<String>>, k: int) -> Option<Seq<char>> {
    if 0 <= k < names.len() { opt_view(names[k]) } else { None }
}

/// The name of a cluster: the given one, or else its domains' contents joined.
pub open spec fn cluster_name(given: Option<Seq<char>>, domains: Seq<NodeView>, group: Seq<Seq<char>>) -> Seq<char> {
    match given {
        Some(n) => n,
        None => group_name("Кластер"@, "доменов"@, member_contents(domains, group)),
    }
}

/// `created` holds one fresh cluster of workspace `ws` per group, in order, each named
/// by `names` or else after its domains among `domains`.
pub open spec fn clusters_for(
    created: Seq<L0NodeView>,
    ws: Seq<char>,
    domains: Seq<NodeView>,
    groups: Seq<Seq<Seq<char>>>,
    names: Seq<Option<String>>,
) -> bool {
    &&& created.len() == groups.len()
    &&& forall|k: int| 0 <= k < created.len() ==> fresh_l0(#[trigger] created[k], ws, NodeType::Cluster,
        cluster_name(name_at(names, k), domains, groups[k]), groups[k])
}

/// The content of a hub over `clusters` clusters of `domains` domains.
pub open spec fn hub_name(clusters: nat, domains: nat) -> Seq<char> {
    "Хаб: "@ + decimal_of(clusters) + " кластеров, "@ + decimal_of(domains) + " доменов"@
}

/// The ids of a list of L0 nodes.
pub open spec fn l0_ids(ns: Seq<L0NodeView>) -> Seq<Seq<char>> {
    ns.map_values(|n: L0NodeView| n.node.id)
}

/// The view of an optional L0 node.
pub open spec fn opt_l0(h: Option<L0Node>) -> Option<L0NodeView> {
    match h {
        Some(n) => Some(n@),
        None => None,
    }
}

/// The nodes a generation stores, in order: its clusters, then its hub.
pub open spec fn saved_l0(clusters: Seq<L0NodeView>, hub: Option<L0NodeView>) -> Seq<L0NodeView> {
    match hub {
        Some(h) => clusters.push(h),
        None => clusters,
    }
}

/// The hub of a generation: a fresh hub of workspace `ws` over all its clusters when there
/// are any, none otherwise.
pub open spec fn hub_for(hub: Option<L0NodeView>, clusters: Seq<L0NodeView>, ws: Seq<char>, domain_count: nat) -> bool {
    match hub {
        Some(h) => clusters.len() > 0 && fresh_l0(h, ws, NodeType::Hub,
            hub_name(clusters.len(), domain_count), l0_ids(clusters)),
        None => clusters.len() == 0,
    }
}

/// The groups of domains that become clusters (see `cluster_plan`), over the components
/// of the domains under textual similarity, met from the domains in order.
pub fn cluster_groups(l1_domains: &Vec<Node>) -> (r: Vec<Vec<NodeId>>)
    ensures
        exists|cs: Seq<Seq<Seq<char>>>| #[trigger] components_of(node_ids(nodes_view(l1_domains@)),
            sim_links(nodes_view(l1_domains@), l1_domains@.len()), cs)
            && comps_view(r@) == cluster_plan(cs),
{
    let seeds = L1Actor::ids_of_nodes(l1_domains);
    let links = similarity_links(l1_domains);
    let comps = connected_components(&seeds, &links);
    let ghost cs = comps_view(comps@);
    let mut groups: Vec<Vec<NodeId>> = Vec::new();
    let mut orphans: Vec<NodeId> = Vec::new();
    let mut k: usize = 0;
    while k < comps.len()
        invariant
            k <= comps.len(),
            cs == comps_view(comps@),
            ids_view(orphans@) == singles(cs.take(k as int)),
            comps_view(groups@) == multis(cs.take(k as int)),
        decreases comps.len() - k,
    {
        let ghost t1 = cs.take(k + 1);
        assert(t1.drop_last() =~= cs.take(k as int));
        assert(t1.last() == ids_view(comps@[k as int]@));
        if comps[k].len() == 1 {
            let ghost before = ids_view(orphans@);
            let o = comps[k][0].clone();
            orphans.push(o);
            assert(ids_view(orphans@) =~= before.push(t1.last()[0]));
        } else {
            let ghost before = comps_view(groups@);
            let g = copy_ids(&comps[k]);
            groups.push(g);
            assert(comps_view(groups@) =~= before.push(t1.last()));
        }
        k += 1;
    }
    assert(cs.take(comps.len() as int) =~= cs);
    if orphans.len() > 0 {
        let ghost before = comps_view(groups@);
        let ghost ov = ids_view(orphans@);
        groups.push(orphans);
        assert(comps_view(groups@) =~= before.push(ov));
    }
    assert(components_of(node_ids(nodes_view(l1_domains@)), sim_links(nodes_view(l1_domains@), l1_domains@.len()), cs));
    groups
}

/// The content of a hub over `clusters` clusters of `domains` domains.
fn hub_content(clusters: usize, domains: usize) -> (r: String)
    ensures
        r@ == hub_name(clusters as nat, domains as nat),
{
    let mut out = "Хаб: ".to_owned();
    let c = decimal(clusters);
    out.append(string_from_chars(c.as_slice()).as_str());
    out.append(" кластеров, ");
    let d = decimal(domains);
    out.append(string_from_chars(d.as_slice()).as_str());
    out.append(" доменов");
    out
}

impl L0Actor {
    /// A fresh L0 node of type `t` in workspace `ws`, with content `name` and `members`.
    fn make_node(workspace_id: &str, t: NodeType, name: String, members: Vec<NodeId>) -> (n: L0Node)
        ensures
            fresh_l0(n@, workspace_id@, t, name@, ids_view(members@)),
    {
        let node = Node::new(t, name).with_level(Level::L0).with_workspace(workspace_id.to_owned());
        L0Node { node, member_ids: members }
    }

    /// Store one cluster per group of domains, in order, named by `names` (a missing or
    /// `None` name: after its domains), then a hub over the clusters when there are any.
    /// Without domains nothing is stored. No domain is left an orphan.
    pub fn build_l0(&mut self, workspace_id: &str, l1_domains: &Vec<Node>, groups: &Vec<Vec<NodeId>>,
        names: &Vec<Option<String>>) -> (r: L0AutogenResult)
        requires
            old(self).wf(),
        ensures
            final(self).wf(),
            r.orphan_domains@.len() == 0,
            l1_domains@.len() == 0 ==> r.clusters@.len() == 0,
            l1_domains@.len() > 0 ==> clusters_for(l0_view(r.clusters@), workspace_id@, nodes_view(l1_domains@),
                comps_view(groups@), names@),
            hub_for(opt_l0(r.hub), l0_view(r.clusters@), workspace_id@, l1_domains@.len()),
            final(self).node_views() == store_l0s(old(self).node_views(), saved_l0(l0_view(r.clusters@), opt_l0(r.hub))),
            final(self).cluster_pairs() == index_all(old(self).cluster_pairs(),
                saved_l0(l0_view(r.clusters@), opt_l0(r.hub)), NodeType::Cluster),
            final(self).hub_pairs() == index_all(old(self).hub_pairs(),
                saved_l0(l0_view(r.clusters@), opt_l0(r.hub)), NodeType::Hub),
            final(self).edge_views() == old(self).edge_views(),
    {
        let ghost n0 = self.node_views();
        let ghost c0 = self.cluster_pairs();
        let ghost h0 = self.hub_pairs();
        if l1_domains.len() == 0 {
            let r = L0AutogenResult { clusters: Vec::new(), hub: None, orphan_domains: Vec::new() };
            assert(l0_view(r.clusters@) =~= Seq::<L0NodeView>::empty());
            return r;
        }
        let ghost gv = comps_view(groups@);
        let ghost dv = nodes_view(l1_domains@);
        let mut created: Vec<L0Node> = Vec::new();
        let mut k: usize = 0;
        while k < groups.len()
            invariant
                self.wf(),
                k <= groups.len(),
                gv == comps_view(groups@),
                dv == nodes_view(l1_domains@),
                clusters_for(l0_view(created@), workspace_id@, dv, gv.take(k as int), names@),
                self.node_views() == store_l0s(n0, l0_view(created@)),
                self.cluster_pairs() == index_all(c0, l0_view(created@), NodeType::Cluster),
                self.hub_pairs() == index_all(h0, l0_view(created@), NodeType::Hub),
                self.edge_views() == old(self).edge_views(),
            decreases groups.len() - k,
        {
            let ghost t1 = gv.take(k + 1);
            assert(t1.drop_last() =~= gv.take(k as int));
            assert(t1.last() == ids_view(groups@[k as int]@));
            let given: Option<String> = if k < names.len() {
                match &names[k] {
                    Some(n) => Some(n.clone()),
                    None => None,
                }
            } else {
                None
            };
            let name = match given {
                Some(n) => n,
                None => {
                    let cs = collect_contents(l1_domains, &groups[k]);
                    name_group("Кластер", "доменов", &cs)
                },
            };
            assert(name@ == cluster_name(name_at(names@, k as int), dv, t1.last()));
            let c = Self::make_node(workspace_id, NodeType::Cluster, name, copy_ids(&groups[k]));
            let ghost cv = c@;
            let ghost before = l0_view(created@);
            self.save_node(&c);
            created.push(c);
            assert(l0_view(created@) =~= before.push(cv));
            assert(l0_view(created@).drop_last() =~= before);
            assert forall|j: int| 0 <= j < l0_view(created@).len() implies fresh_l0(#[trigger] l0_view(created@)[j],
                workspace_id@, NodeType::Cluster, cluster_name(name_at(names@, j), dv, t1[j]), t1[j]) by {
                if j < before.len() {
                    assert(l0_view(created@)[j] == before[j]);
                    assert(t1[j] == gv.take(k as int)[j]);
                }
            }
            k += 1;
        }
        assert(gv.take(groups.len() as int) =~= gv);
        let ghost cl = l0_view(created@);
        let hub = if created.len() > 0 {
            let mut ids: Vec<NodeId> = Vec::new();
            let mut i: usize = 0;
            while i < created.len()
                invariant
                    i <= created.len(),
                    cl == l0_view(created@),
                    ids_view(ids@) == l0_ids(cl).take(i as int),
                decreases created.len() - i,
            {
                let ghost before = ids_view(ids@);
                let x = created[i].node.id.clone();
                assert(x@ == cl[i as int].node.id);
                ids.push(x);
                assert(ids_view(ids@) =~= before.push(x@));
                assert(l0_ids(cl).take(i + 1) =~= l0_ids(cl).take(i as int).push(x@));
                i += 1;
            }
            assert(l0_ids(cl).take(created.len() as int) =~= l0_ids(cl));
            let h = Self::make_node(workspace_id, NodeType::Hub, hub_content(created.len(), l1_domains.len()), ids);
            let ghost hv = h@;
            self.save_node(&h);
            assert(saved_l0(cl, Some(hv)).drop_last() =~= cl);
            Some(h)
        } else {
            None
        };
        L0AutogenResult { clusters: created, hub, orphan_domains: Vec::new() }
    }

    /// Generate the L0 structure of a workspace from its domains (see `cluster_groups`):
    /// one cluster per group, named after its domains, and a hub over them.
    pub fn autogenerate_l0(&mut self, workspace_id: &str, l1_domains: &Vec<Node>) -> (r: L0AutogenResult)
        requires
            old(self).wf(),
        ensures
            final(self).wf(),
            r.orphan_domains@.len() == 0,
            l1_domains@.len() == 0 ==> r.clusters@.len() == 0,
            exists|cs: Seq<Seq<Seq<char>>>| #[trigger] components_of(node_ids(nodes_view(l1_domains@)),
                sim_links(nodes_view(l1_domains@), l1_domains@.len()), cs)
                && (l1_domains@.len() > 0 ==> clusters_for(l0_view(r.clusters@), workspace_id@, nodes_view(l1_domains@),
                    cluster_plan(cs), Seq::empty())),
            hub_for(opt_l0(r.hub), l0_view(r.clusters@), workspace_id@, l1_domains@.len()),
            final(self).node_views() == store_l0s(old(self).node_views(), saved_l0(l0_view(r.clusters@), opt_l0(r.hub))),
            final(self).cluster_pairs() == index_all(old(self).cluster_pairs(),
                saved_l0(l0_view(r.clusters@), opt_l0(r.hub)), NodeType::Cluster),
            final(self).hub_pairs() == index_all(old(self).hub_pairs(),
                saved_l0(l0_view(r.clusters@), opt_l0(r.hub)), NodeType::Hub),
            final(self).edge_views() == old(self).edge_views(),
    {
        let groups = cluster_groups(l1_domains);
        let names: Vec<Option<String>> = Vec::new();
        let r = self.build_l0(workspace_id, l1_domains, &groups, &names);
        assert(names@ =~= Seq::<Option<String>>::empty());
        r
    }
}

impl super::Actor for L0Actor {
    fn name(&self) -> &'static str {
        "L0Actor"
    }

    /// The number of stored clusters and hubs.
    fn size(&self) -> (r: usize)
        ensures
            r == self.node_views().len(),
    {
        self.nodes.len()
    }
}

} // verus!
