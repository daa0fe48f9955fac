//! ConsolidateRunner: one consolidation pass over a workspace — its L2 atoms and the
//! edges among them feed the generation of L1 domains, whose nodes feed L0 generation.

use vstd::prelude::*;
use crate::graph::node::{Node, NodeId, NodeView, nodes_view};
use crate::graph::edge::{Edge, EdgeView, edges_view};
use crate::keyed::{lemma_filter_step, lemma_take_full};
use crate::components::{components_of, ids_view};
use super::l2::{L2Actor, workspace_members, edge_filter};
use super::l1::{L1Actor, L1DomainView, domains_view, domains_for, multis, node_ids, edge_links, has_id, named_domains,
    nonempty_groups};
use super::answers::grouping_answer;
use super::l0::{L0Actor, sim_links, cluster_plan, l0_view};

verus! {

/// The counts of one consolidation pass: what this pass did.
#[derive(Debug, Clone, Copy)]
pub struct ConsolidateStats {
    /// Actions taken from the queue.
    pub drained_from_queue: usize,
    /// L2 atoms created from the queue.
    pub l2_atoms: usize,
    /// Edges found among the workspace's atoms.
    pub l2_edges: usize,
    /// L1 domains created.
    pub new_l1_count: usize,
    /// L0 clusters created.
    pub new_l0_count: usize,
}

impl Default for ConsolidateStats {
    fn default() -> (r: Self)
        ensures
            r.drained_from_queue == 0 && r.l2_atoms == 0 && r.l2_edges == 0 && r.new_l1_count == 0
                && r.new_l0_count == 0,
    {
        ConsolidateStats { drained_from_queue: 0, l2_atoms: 0, l2_edges: 0, new_l1_count: 0, new_l0_count: 0 }
    }
}

/// The edge ends at one of `ids`.
pub open spec fn ends_among(ids: Seq<Seq<char>>) -> spec_fn(EdgeView) -> bool {
    |e: EdgeView| ids.contains(e.target)
}

/// The edges among the first `k` of `atoms`: for each atom in order, the edges leaving it
/// (in store order) that end at one of `atoms`.
pub open spec fn inner_edges(atoms: Seq<NodeView>, k: nat, edges: Seq<EdgeView>) -> Seq<EdgeView>
    decreases k,
{
    if k == 0 || k > atoms.len() {
        Seq::empty()
    } else {
        inner_edges(atoms, (k - 1) as nat, edges)
            + edges.filter(edge_filter(Some(atoms[k - 1].id), None)).filter(ends_among(node_ids(atoms)))
    }
}

/// The domains a pass creates from a workspace's atoms and the edges among them: the
/// groups of the LLM's grouping answer when it describes any (see `grouping_answer`),
/// else the connected components of the atoms (see `autogenerate_domains`).
pub open spec fn l1_created(created: Seq<L1DomainView>, ws: Seq<char>, atoms: Seq<NodeView>, inner: Seq<EdgeView>,
    answer: Option<Seq<char>>) -> bool {
    let gs = match answer {
        Some(t) => grouping_answer(t, atoms),
        None => Seq::empty(),
    };
    if gs.len() > 0 {
        named_domains(created, ws, nonempty_groups(gs))
    } else {
        exists|cs: Seq<Seq<Seq<char>>>| #[trigger] components_of(node_ids(atoms), edge_links(inner), cs)
            && domains_for(created, ws, atoms, multis(cs))
    }
}

/// The nodes of a list of domains.
pub open spec fn domain_nodes(ds: Seq<L1DomainView>) -> Seq<NodeView> {
    ds.map_values(|d: L1DomainView| d.node)
}

/// ConsolidateRunner: the L2 store and, when present, the L1 and L0 actors it feeds.
pub struct ConsolidateRunner {
    pub l2: L2Actor,
    pub l1: Option<L1Actor>,
    pub l0: Option<L0Actor>,
}

impl ConsolidateRunner {
    /// Every actor is well formed.
    pub open spec fn wf(&self) -> bool {
        &&& self.l2.wf()
        &&& (self.l1 matches Some(a) ==> a.wf())
        &&& (self.l0 matches Some(a) ==> a.wf())
    }

    /// A runner over the given actors.
    pub fn new(l2: L2Actor, l1: Option<L1Actor>, l0: Option<L0Actor>) -> (r: Self)
        ensures
            r.l2 == l2,
            r.l1 == l1,
            r.l0 == l0,
    {
        ConsolidateRunner { l2, l1, l0 }
    }

    /// The edges among a list of atoms (see `inner_edges`).
    fn collect_inner_edges(&self, atoms: &Vec<Node>) -> (r: Vec<Edge>)
        ensures
            edges_view(r@) == inner_edges(nodes_view(atoms@), atoms@.len() as nat, self.l2.edge_views()),
    {
        let ghost av = nodes_view(atoms@);
        let mut ids: Vec<NodeId> = Vec::new();
        let mut i: usize = 0;
        while i < atoms.len()
            invariant
                i <= atoms.len(),
                av == nodes_view(atoms@),
                ids_view(ids@) == node_ids(av).take(i as int),
            decreases atoms.len() - i,
        {
            let ghost before = ids_view(ids@);
            let x = atoms[i].id.clone();
            assert(x@ == av[i as int].id);
            ids.push(x);
            assert(ids_view(ids@) =~= before.push(x@));
            assert(node_ids(av).take(i + 1) =~= node_ids(av).take(i as int).push(x@));
            i += 1;
        }
        assert(node_ids(av).take(atoms.len() as int) =~= node_ids(av));
        let mut r: Vec<Edge> = Vec::new();
        let mut k: usize = 0;
        while k < atoms.len()
            invariant
                k <= atoms.len(),
                av == nodes_view(atoms@),
                ids_view(ids@) == node_ids(av),
                edges_view(r@) == inner_edges(av, k as nat, self.l2.edge_views()),
            decreases atoms.len() - k,
        {
            let out = self.l2.edges_from(&atoms[k].id);
            assert(atoms@[k as int].id@ == av[k as int].id);
            let ghost ov = edges_view(out@);
            let ghost pred = ends_among(node_ids(av));
            let ghost base = edges_view(r@);
            let mut j: usize = 0;
            while j < out.len()
                invariant
                    j <= out.len(),
                    ov == edges_view(out@),
                    pred == ends_among(node_ids(av)),
                    ids_view(ids@) == node_ids(av),
                    edges_view(r@) == base + ov.take(j as int).filter(pred),
                decreases out.len() - j,
            {
                proof {
                    lemma_filter_step(ov, pred, j as int);
                }
                assert(ov[j as int] == out@[j as int]@);
                if has_id(&ids, &out[j].target) {
                    let ghost before = edges_view(r@);
                    r.push(out[j].clone());
                    assert(edges_view(r@) =~= before.push(ov[j as int]));
                    assert(base + ov.take(j + 1).filter(pred) =~= (base + ov.take(j as int).filter(pred)).push(ov[j as int]));
                }
                j += 1;
            }
            proof {
                lemma_take_full(ov);
            }
            k += 1;
        }
        r
    }

    /// The nodes of a list of domains.
    fn domain_node_list(ds: &Vec<super::l1::L1Domain>) -> (r: Vec<Node>)
        ensures
            nodes_view(r@) == domain_nodes(domains_view(ds@)),
    {
        let ghost dv = domains_view(ds@);
        let mut r: Vec<Node> = Vec::new();
        let mut i: usize = 0;
        while i < ds.len()
            invariant
                i <= ds.len(),
                dv == domains_view(ds@),
                nodes_view(r@) == domain_nodes(dv).take(i as int),
            decreases ds.len() - i,
        {
            let ghost before = nodes_view(r@);
            let n = ds[i].node.clone();
            assert(n@ == dv[i as int].node);
            r.push(n);
            assert(nodes_view(r@) =~= before.push(n@));
            assert(domain_nodes(dv).take(i + 1) =~= domain_nodes(dv).take(i as int).push(n@));
            i += 1;
        }
        assert(domain_nodes(dv).take(ds.len() as int) =~= domain_nodes(dv));
        r
    }

    /// Consolidate a workspace, given what draining its queue did (`drained` actions,
    /// `l2_atoms_created` atoms) and the LLM's answer to the grouping of its atoms, if it
    /// was asked: gather its L2 atoms and the edges among them, generate L1 domains when
    /// an L1 actor is present (see `l1_created`), and L0 clusters from those domains when
    /// an L0 actor is present too.
    pub fn run(&mut self, workspace_id: &str, drained: usize, l2_atoms_created: usize, grouping: Option<&str>)
        -> (r: ConsolidateStats)
        requires
            old(self).wf(),
        ensures
            final(self).wf(),
            final(self).l2 == old(self).l2,
            final(self).l1 is Some == old(self).l1 is Some,
            final(self).l0 is Some == old(self).l0 is Some,
            r.drained_from_queue == drained,
            r.l2_atoms == l2_atoms_created,
            ({
                let atoms = workspace_members(old(self).l2.workspace_index(), workspace_id@, old(self).l2.node_views());
                let inner = inner_edges(atoms, atoms.len(), old(self).l2.edge_views());
                &&& r.l2_edges == inner.len()
                &&& (old(self).l1 is None ==> r.new_l1_count == 0 && r.new_l0_count == 0)
                &&& (old(self).l1 is Some ==> exists|created: Seq<L1DomainView>|
                    #[trigger] l1_created(created, workspace_id@, atoms, inner, crate::actors::inference::answer_text(grouping))
                    && r.new_l1_count == created.len()
                    && (old(self).l0 is None ==> r.new_l0_count == 0)
                    && (old(self).l0 is Some ==> (created.len() == 0 ==> r.new_l0_count == 0)
                        && (created.len() > 0 ==> exists|cs2: Seq<Seq<Seq<char>>>| #[trigger] components_of(
                            node_ids(domain_nodes(created)), sim_links(domain_nodes(created), created.len()), cs2)
                            && r.new_l0_count == cluster_plan(cs2).len())))
            }),
    {
        let atoms = self.l2.list_by_workspace(workspace_id);
        let edges = self.collect_inner_edges(&atoms);
        let ghost av = nodes_view(atoms@);
        let mut new_l1: usize = 0;
        let mut new_l0: usize = 0;
        let mut l1 = self.l1.take();
        let mut l0 = self.l0.take();
        match &mut l1 {
            Some(a1) => {
                let res = a1.autogenerate_domains_with_answer(workspace_id, &atoms, &edges, grouping);
                new_l1 = res.created_domains.len();
                let ghost created = domains_view(res.created_domains@);
                proof {
                    let gs = match grouping {
                        Some(t) => grouping_answer(t@, av),
                        None => Seq::empty(),
                    };
                    if gs.len() == 0 {
                        let cs = choose|cs: Seq<Seq<Seq<char>>>| #[trigger] components_of(node_ids(av),
                            edge_links(edges_view(edges@)), cs) && ids_view(res.orphan_atoms@) == super::l1::singles(cs)
                            && domains_for(created, workspace_id@, av, multis(cs));
                        assert(components_of(node_ids(av), edge_links(edges_view(edges@)), cs));
                        assert(domains_for(created, workspace_id@, av, multis(cs)));
                    }
                    assert(l1_created(created, workspace_id@, av, edges_view(edges@),
                        crate::actors::inference::answer_text(grouping)));
                }
                match &mut l0 {
                    Some(a0) => {
                        let dn = Self::domain_node_list(&res.created_domains);
                        let r0 = a0.autogenerate_l0(workspace_id, &dn);
                        new_l0 = r0.clusters.len();
                        proof {
                            if created.len() > 0 {
                                let cs2 = choose|cs2: Seq<Seq<Seq<char>>>| #[trigger] components_of(
                                    node_ids(nodes_view(dn@)), sim_links(nodes_view(dn@), dn@.len()), cs2)
                                    && (dn@.len() > 0 ==> super::l0::clusters_for(l0_view(r0.clusters@), workspace_id@,
                                        nodes_view(dn@), cluster_plan(cs2), Seq::empty()));
                                assert(components_of(node_ids(domain_nodes(created)),
                                    sim_links(domain_nodes(created), created.len()), cs2));
                                assert(l0_view(r0.clusters@).len() == r0.clusters@.len());
                            }
                        }
                    },
                    None => {},
                }
            },
            None => {},
        }
        self.l1 = l1;
        self.l0 = l0;
        ConsolidateStats {
            drained_from_queue: drained,
            l2_atoms: l2_atoms_created,
            l2_edges: edges.len(),
            new_l1_count: new_l1,
            new_l0_count: new_l0,
        }
    }
}

} // verus!
