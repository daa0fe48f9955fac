//! L1Actor: domains — groups of connected L2 atoms — their generation and storage.

use vstd::prelude::*;
use crate::graph::node::{Node, NodeId, NodeView, NodeType, Level, nodes_view, opt_view};
use crate::graph::edge::{Edge, EdgeId, Relation};
use crate::keyed::{keys_unique, find_by_key, has_key, lemma_find_at, lemma_replace, lemma_append, lemma_remove,
    lemma_filter_step, lemma_take_full};
use crate::components::{connected_components, components_of, ids_view, links_of, comps_view};
use crate::text::same_text;
use super::llm_client::LlmClient;
use super::summary::{collect_contents, name_group, group_name, member_contents};
use super::answers::{grouping_answer, parse_grouping_response};

verus! {

/// A domain and the atoms it holds.
#[derive(Debug)]
pub struct L1Domain {
    pub node: Node,
    pub member_atom_ids: Vec<NodeId>,
}

/// The content of a domain.
pub struct L1DomainView {
    pub node: NodeView,
    pub members: Seq<Seq<char>>,
}

impl View for L1Domain {
    type V = L1DomainView;

    open spec fn view(&self) -> L1DomainView {
        L1DomainView { node: self.node@, members: ids_view(self.member_atom_ids@) }
    }
}

/// A copy of a list of ids.
pub fn copy_ids(v: &Vec<NodeId>) -> (r: Vec<NodeId>)
    ensures
        ids_view(r@) == ids_view(v@),
{
    let mut r: Vec<NodeId> = Vec::new();
    let mut i: usize = 0;
    while i < v.len()
        invariant
            i <= v.len(),
            ids_view(r@) == ids_view(v@).take(i as int),
        decreases v.len() - i,
    {
        let ghost before = ids_view(r@);
        let c = v[i].clone();
        assert(c@ == v@[i as int]@);
        r.push(c);
        assert(ids_view(r@) =~= before.push(c@));
        assert(ids_view(r@) =~= ids_view(v@).take(i + 1));
        i += 1;
    }
    assert(ids_view(v@).take(v.len() as int) =~= ids_view(v@));
    r
}

impl Clone for L1Domain {
    fn clone(&self) -> (r: Self)
        ensures
            r@ == self@,
    {
        L1Domain { node: self.node.clone(), member_atom_ids: copy_ids(&self.member_atom_ids) }
    }
}

/// The views of a list of domains.
pub open spec fn domains_view(v: Seq<L1Domain>) -> Seq<L1DomainView> {
    v.map_values(|d: L1Domain| d@)
}

/// The outcome of generating domains.
#[derive(Debug)]
pub struct AutogenResult {
    pub created_domains: Vec<L1Domain>,
    pub updated_domains: Vec<L1Domain>,
    pub orphan_atoms: Vec<NodeId>,
}

/// Domain counts of a workspace.
#[derive(Debug, Clone, Copy)]
pub struct L1Counts {
    pub domain_count: usize,
    pub total_atoms: usize,
}

/// The key of a domain: its node's id.
pub open spec fn domain_key() -> spec_fn(L1DomainView) -> Seq<char> {
    |d: L1DomainView| d.node.id
}

/// The domain with id `id`.
pub open spec fn find_domain(ds: Seq<L1DomainView>, id: Seq<char>) -> Option<L1DomainView> {
    find_by_key(ds, domain_key(), id)
}

/// The position of the domain with id `id`.
pub open spec fn domain_index(ds: Seq<L1DomainView>, id: Seq<char>) -> int {
    choose|i: int| 0 <= i < ds.len() && ds[i].node.id == id
}

/// The domains after storing `d`: it replaces the domain with its id, or is appended.
pub open spec fn store_domain(ds: Seq<L1DomainView>, d: L1DomainView) -> Seq<L1DomainView> {
    if has_key(ds, domain_key(), d.node.id) { ds.update(domain_index(ds, d.node.id), d) } else { ds.push(d) }
}

/// The key of an atom → domain pair: the atom.
pub open spec fn pair_key() -> spec_fn((Seq<char>, Seq<char>)) -> Seq<char> {
    |p: (Seq<char>, Seq<char>)| p.0
}

/// The domain an atom is mapped to, if any.
pub open spec fn domain_of_atom(ps: Seq<(Seq<char>, Seq<char>)>, a: Seq<char>) -> Option<Seq<char>> {
    match find_by_key(ps, pair_key(), a) {
        Some(p) => Some(p.1),
        None => None,
    }
}

/// The pairs after mapping atom `a` to domain `d`.
pub open spec fn map_pair(ps: Seq<(Seq<char>, Seq<char>)>, a: Seq<char>, d: Seq<char>) -> Seq<(Seq<char>, Seq<char>)> {
    if has_key(ps, pair_key(), a) {
        ps.update(pair_pos(ps, a), (a, d))
    } else {
        ps.push((a, d))
    }
}

/// The position of the pair of atom `a`.
pub open spec fn pair_pos(ps: Seq<(Seq<char>, Seq<char>)>, a: Seq<char>) -> int {
    choose|i: int| 0 <= i < ps.len() && ps[i].0 == a
}

/// The pairs after mapping every atom of `ms` in turn to domain `d`.
pub open spec fn map_all(ps: Seq<(Seq<char>, Seq<char>)>, ms: Seq<Seq<char>>, d: Seq<char>) -> Seq<(Seq<char>, Seq<char>)>
    decreases ms.len(),
{
    if ms.len() == 0 { ps } else { map_pair(map_all(ps, ms.drop_last(), d), ms.last(), d) }
}

/// The domain is a domain node of workspace `ws`.
pub open spec fn of_workspace(ws: Seq<char>) -> spec_fn(L1DomainView) -> bool {
    |d: L1DomainView| d.node.metadata.workspace_id == Some(ws) && d.node.node_type == NodeType::Domain
}

/// `d` is a fresh domain of workspace `ws` named `name` holding `members`.
pub open spec fn fresh_domain(d: L1DomainView, ws: Seq<char>, name: Seq<char>, members: Seq<Seq<char>>) -> bool {
    &&& d.node.node_type == NodeType::Domain
    &&& d.node.level == Level::L1
    &&& d.node.content == name
    &&& d.node.metadata.workspace_id == Some(ws)
    &&& d.node.metadata.parent_id is None
    &&& d.node.metadata.tags.len() == 0
    &&& d.members == members
}

/// The domains after storing each of `ds` in turn.
pub open spec fn store_domains(old: Seq<L1DomainView>, ds: Seq<L1DomainView>) -> Seq<L1DomainView>
    decreases ds.len(),
{
    if ds.len() == 0 { old } else { store_domain(store_domains(old, ds.drop_last()), ds.last()) }
}

/// The atom pairs after mapping the members of each of `ds` in turn.
pub open spec fn map_domains(ps: Seq<(Seq<char>, Seq<char>)>, ds: Seq<L1DomainView>) -> Seq<(Seq<char>, Seq<char>)>
    decreases ds.len(),
{
    if ds.len() == 0 { ps } else { map_all(map_domains(ps, ds.drop_last()), ds.last().members, ds.last().node.id) }
}

/// The single members of the one-node components, in order.
pub open spec fn singles(cs: Seq<Seq<Seq<char>>>) -> Seq<Seq<char>>
    decreases cs.len(),
{
    if cs.len() == 0 {
        Seq::empty()
    } else if cs.last().len() == 1 {
        singles(cs.drop_last()).push(cs.last()[0])
    } else {
        singles(cs.drop_last())
    }
}

/// The components with more than one node, in order.
pub open spec fn multis(cs: Seq<Seq<Seq<char>>>) -> Seq<Seq<Seq<char>>>
    decreases cs.len(),
{
    if cs.len() == 0 {
        Seq::empty()
    } else if cs.last().len() == 1 {
        multis(cs.drop_last())
    } else {
        multis(cs.drop_last()).push(cs.last())
    }
}

/// `created` holds one fresh domain of workspace `ws` per group, in order, each named
/// after its members' contents among `atoms`.
pub open spec fn domains_for(created: Seq<L1DomainView>, ws: Seq<char>, atoms: Seq<NodeView>, groups: Seq<Seq<Seq<char>>>) -> bool {
    &&& created.len() == groups.len()
    &&& forall|k: int| 0 <= k < created.len() ==> fresh_domain(#[trigger] created[k], ws,
        group_name("Домен"@, "атомов"@, member_contents(atoms, groups[k])), groups[k])
}

/// The ids of a list of nodes.
pub open spec fn node_ids(ns: Seq<NodeView>) -> Seq<Seq<char>> {
    ns.map_values(|n: NodeView| n.id)
}

/// The links of a list of edges: source to target.
pub open spec fn edge_links(es: Seq<crate::graph::edge::EdgeView>) -> Seq<(Seq<char>, Seq<char>)> {
    es.map_values(|e: crate::graph::edge::EdgeView| (e.source, e.target))
}

/// L1Actor: the domains (unique ids, in storage order), the atom → domain map and an
/// optional LLM for grouping.
pub struct L1Actor {
    domains: Vec<L1Domain>,
    atom_to_domain: Vec<(NodeId, NodeId)>,
    edges: Vec<Edge>,
    llm: Option<LlmClient>,
}

impl L1Actor {
    /// The stored domains, in order.
    pub closed spec fn domain_views(&self) -> Seq<L1DomainView> {
        domains_view(self.domains@)
    }

    /// The atom → domain pairs, in order (one per atom).
    pub closed spec fn atom_pairs(&self) -> Seq<(Seq<char>, Seq<char>)> {
        self.atom_to_domain@.map_values(|p: (NodeId, NodeId)| (p.0@, p.1@))
    }

    /// The domain → atom edges recorded, in order.
    pub closed spec fn edge_views(&self) -> Seq<crate::graph::edge::EdgeView> {
        crate::graph::edge::edges_view(self.edges@)
    }

    /// Unique domain ids and one pair per atom.
    pub open spec fn wf(&self) -> bool {
        &&& keys_unique(self.domain_views(), domain_key())
        &&& keys_unique(self.atom_pairs(), pair_key())
    }

    /// The LLM client set on the actor, if any.
    pub closed spec fn llm_client(&self) -> Option<LlmClient> {
        self.llm
    }

    /// An actor without domains or LLM.
    pub fn new() -> (a: Self)
        ensures
            a.wf(),
            a.domain_views().len() == 0,
            a.atom_pairs().len() == 0,
            a.llm_client() is None,
    {
        let a = L1Actor { domains: Vec::new(), atom_to_domain: Vec::new(), edges: Vec::new(), llm: None };
        assert(a.domain_views() =~= Seq::<L1DomainView>::empty());
        assert(a.atom_pairs() =~= Seq::<(Seq<char>, Seq<char>)>::empty());
        a
    }

    /// The same actor with an LLM for grouping.
    pub fn with_llm(self, llm: LlmClient) -> (a: Self)
        requires
            self.wf(),
        ensures
            a.wf(),
            a.domain_views() == self.domain_views(),
            a.atom_pairs() == self.atom_pairs(),
            a.llm_client() matches Some(c) && c@ == llm@,
    {
        L1Actor { domains: self.domains, atom_to_domain: self.atom_to_domain, edges: self.edges, llm: Some(llm) }
    }

    /// The LLM, when one is set and enabled.
    pub fn llm(&self) -> (r: Option<&LlmClient>)
        ensures
            match r {
                Some(c) => self.llm_client() matches Some(d) && c@ == d@ && c.is_enabled_spec(),
                None => self.llm_client() matches Some(d) ==> !d.is_enabled_spec(),
            },
    {
        match &self.llm {
            Some(c) => if c.is_enabled() { Some(c) } else { None },
            None => None,
        }
    }

    fn position(&self, id: &NodeId) -> (r: Option<usize>)
        requires
            self.wf(),
        ensures
            match r {
                Some(i) => i < self.domain_views().len() && self.domain_views()[i as int].node.id == id@
                    && domain_index(self.domain_views(), id@) == i
                    && find_domain(self.domain_views(), id@) == Some(self.domain_views()[i as int]),
                None => !has_key(self.domain_views(), domain_key(), id@) && find_domain(self.domain_views(), id@) is None,
            },
    {
        let mut i: usize = 0;
        while i < self.domains.len()
            invariant
                self.wf(),
                i <= self.domains.len(),
                forall|k: int| 0 <= k < i ==> self.domain_views()[k].node.id != id@,
            decreases self.domains.len() - i,
        {
            assert(self.domain_views()[i as int] == self.domains@[i as int]@);
            if self.domains[i].node.id.same(id) {
                proof {
                    lemma_find_at(self.domain_views(), domain_key(), i as int);
                    let j = domain_index(self.domain_views(), id@);
                    assert(domain_key()(self.domain_views()[j]) == domain_key()(self.domain_views()[i as int]));
                    assert(j == i);
                }
                return Some(i);
            }
            i += 1;
        }
        None
    }

    /// Map atom `a` to domain `d`.
    fn map_atom(&mut self, a: &NodeId, d: &NodeId)
        requires
            old(self).wf(),
        ensures
            final(self).wf(),
            final(self).domain_views() == old(self).domain_views(),
            final(self).atom_pairs() == map_pair(old(self).atom_pairs(), a@, d@),
    {
        let ghost ps = self.atom_pairs();
        let mut i: usize = 0;
        while i < self.atom_to_domain.len()
            invariant
                self.wf(),
                self.domain_views() == old(self).domain_views(),
                self.atom_pairs() == old(self).atom_pairs(),
                i <= self.atom_to_domain.len(),
                ps == self.atom_pairs(),
                forall|k: int| 0 <= k < i ==> ps[k].0 != a@,
            decreases self.atom_to_domain.len() - i,
        {
            assert(ps[i as int] == (self.atom_to_domain@[i as int].0@, self.atom_to_domain@[i as int].1@));
            if self.atom_to_domain[i].0.same(a) {
                proof {
                    assert(pair_key()(ps[i as int]) == a@);
                    assert(has_key(ps, pair_key(), a@));
                    let j = pair_pos(ps, a@);
                    assert(pair_key()(ps[j]) == pair_key()(ps[i as int]));
                    assert(j == i);
                    lemma_replace(ps, pair_key(), i as int, (a@, d@));
                }
                self.atom_to_domain.set(i, (a.clone(), d.clone()));
                assert(self.atom_pairs() =~= ps.update(i as int, (a@, d@)));
                return;
            }
            i += 1;
        }
        proof {
            lemma_append(ps, pair_key(), (a@, d@));
        }
        self.atom_to_domain.push((a.clone(), d.clone()));
        assert(self.atom_pairs() =~= ps.push((a@, d@)));
    }
    /// Store a domain (replacing the one with its id) and map each of its atoms to it.
    pub fn save_domain(&mut self, domain: &L1Domain) -> (id: NodeId)
        requires
            old(self).wf(),
        ensures
            final(self).wf(),
            id@ == domain@.node.id,
            final(self).domain_views() == store_domain(old(self).domain_views(), domain@),
            final(self).atom_pairs() == map_all(old(self).atom_pairs(), domain@.members, domain@.node.id),
    {
        let ghost ds = self.domain_views();
        let d = domain.clone();
        match self.position(&domain.node.id) {
            Some(i) => {
                proof {
                    lemma_replace(ds, domain_key(), i as int, domain@);
                }
                self.domains.set(i, d);
                assert(self.domain_views() =~= ds.update(i as int, domain@));
            },
            None => {
                proof {
                    lemma_append(ds, domain_key(), domain@);
                }
                self.domains.push(d);
                assert(self.domain_views() =~= ds.push(domain@));
            },
        }
        let ghost ps0 = self.atom_pairs();
        let ghost ms = domain@.members;
        let ghost dsv = self.domain_views();
        let mut k: usize = 0;
        while k < domain.member_atom_ids.len()
            invariant
                self.wf(),
                k <= domain.member_atom_ids.len(),
                ms == ids_view(domain.member_atom_ids@),
                self.domain_views() == dsv,
                self.atom_pairs() == map_all(ps0, ms.take(k as int), domain@.node.id),
            decreases domain.member_atom_ids.len() - k,
        {
            assert(ms.take(k + 1).drop_last() =~= ms.take(k as int));
            assert(ms.take(k + 1).last() == domain.member_atom_ids@[k as int]@);
            self.map_atom(&domain.member_atom_ids[k], &domain.node.id);
            k += 1;
        }
        assert(ms.take(domain.member_atom_ids.len() as int) =~= ms);
        domain.node.id.clone()
    }

    /// The domain with id `id`, if any.
    pub fn get_domain(&self, id: &NodeId) -> (r: Option<L1Domain>)
        requires
            self.wf(),
        ensures
            match r {
                Some(d) => find_domain(self.domain_views(), id@) == Some(d@),
                None => find_domain(self.domain_views(), id@) is None,
            },
    {
        match self.position(id) {
            Some(i) => Some(self.domains[i].clone()),
            None => None,
        }
    }

    /// The domains of a workspace, in order.
    pub fn list_domains(&self, workspace_id: &str) -> (r: Vec<L1Domain>)
        ensures
            domains_view(r@) == self.domain_views().filter(of_workspace(workspace_id@)),
    {
        let ghost ds = self.domain_views();
        let mut r: Vec<L1Domain> = Vec::new();
        let mut i: usize = 0;
        while i < self.domains.len()
            invariant
                i <= self.domains.len(),
                ds == self.domain_views(),
                domains_view(r@) == ds.take(i as int).filter(of_workspace(workspace_id@)),
            decreases self.domains.len() - i,
        {
            proof {
                lemma_filter_step(ds, of_workspace(workspace_id@), i as int);
            }
            assert(ds[i as int] == self.domains@[i as int]@);
            let keep = match &self.domains[i].node.metadata.workspace_id {
                Some(w) => same_text(w.as_str(), workspace_id),
                None => false,
            } && self.domains[i].node.node_type == NodeType::Domain;
            if keep {
                let ghost before = domains_view(r@);
                r.push(self.domains[i].clone());
                assert(domains_view(r@) =~= before.push(ds[i as int]));
            }
            i += 1;
        }
        proof {
            lemma_take_full(ds);
        }
        r
    }

    /// The domain an atom is mapped to, if it is still stored.
    pub fn find_domain_for_atom(&self, atom_id: &NodeId) -> (r: Option<L1Domain>)
        requires
            self.wf(),
        ensures
            match domain_of_atom(self.atom_pairs(), atom_id@) {
                Some(d) => match r {
                    Some(x) => find_domain(self.domain_views(), d) == Some(x@),
                    None => find_domain(self.domain_views(), d) is None,
                },
                None => r is None,
            },
    {
        let ghost ps = self.atom_pairs();
        let mut i: usize = 0;
        while i < self.atom_to_domain.len()
            invariant
                self.wf(),
                i <= self.atom_to_domain.len(),
                ps == self.atom_pairs(),
                forall|k: int| 0 <= k < i ==> ps[k].0 != atom_id@,
            decreases self.atom_to_domain.len() - i,
        {
            assert(ps[i as int] == (self.atom_to_domain@[i as int].0@, self.atom_to_domain@[i as int].1@));
            if self.atom_to_domain[i].0.same(atom_id) {
                proof {
                    lemma_find_at(ps, pair_key(), i as int);
                }
                return self.get_domain(&self.atom_to_domain[i].1);
            }
            i += 1;
        }
        None
    }

    /// Record a `DerivedFrom` edge from a domain to an atom; the edge's id.
    pub fn add_domain_atom_edge(&mut self, domain_id: &NodeId, atom_id: &NodeId) -> (id: EdgeId)
        requires
            old(self).wf(),
        ensures
            final(self).wf(),
            final(self).domain_views() == old(self).domain_views(),
            final(self).atom_pairs() == old(self).atom_pairs(),
            final(self).edge_views().drop_last() == old(self).edge_views(),
            final(self).edge_views().len() == old(self).edge_views().len() + 1,
            final(self).edge_views().last().id == id@,
            final(self).edge_views().last().source == domain_id@,
            final(self).edge_views().last().target == atom_id@,
            final(self).edge_views().last().relation == Relation::DerivedFrom,
    {
        let e = Edge::new(domain_id.clone(), atom_id.clone(), Relation::DerivedFrom);
        let id = e.id.clone();
        let ghost ev = self.edge_views();
        let ghost e_v = e@;
        self.edges.push(e);
        assert(self.edge_views() =~= ev.push(e_v));
        id
    }

    /// Delete a domain and the atom mappings of its members.
    pub fn delete_domain(&mut self, domain_id: &NodeId)
        requires
            old(self).wf(),
        ensures
            final(self).wf(),
            match find_domain(old(self).domain_views(), domain_id@) {
                None => final(self).domain_views() == old(self).domain_views()
                    && final(self).atom_pairs() == old(self).atom_pairs(),
                Some(d) => final(self).domain_views() == old(self).domain_views().remove(domain_index(old(self).domain_views(), domain_id@))
                    && final(self).atom_pairs() == old(self).atom_pairs().filter(unmapped(d.members)),
            },
    {
        let ghost ds = self.domain_views();
        match self.position(domain_id) {
            None => {},
            Some(i) => {
                proof {
                    lemma_remove(ds, domain_key(), i as int);
                }
                let d = self.domains.remove(i);
                assert(self.domain_views() =~= ds.remove(i as int));
                let ghost ps = self.atom_pairs();
                let ghost pred = unmapped(d@.members);
                let mut kept: Vec<(NodeId, NodeId)> = Vec::new();
                let mut k: usize = 0;
                while k < self.atom_to_domain.len()
                    invariant
                        k <= self.atom_to_domain.len(),
                        ps == self.atom_pairs(),
                        keys_unique(ps, pair_key()),
                        pred == unmapped(d@.members),
                        kept@.map_values(|p: (NodeId, NodeId)| (p.0@, p.1@)) == ps.take(k as int).filter(pred),
                    decreases self.atom_to_domain.len() - k,
                {
                    proof {
                        lemma_filter_step(ps, pred, k as int);
                    }
                    assert(ps[k as int] == (self.atom_to_domain@[k as int].0@, self.atom_to_domain@[k as int].1@));
                    if !has_id(&d.member_atom_ids, &self.atom_to_domain[k].0) {
                        let ghost before = kept@.map_values(|p: (NodeId, NodeId)| (p.0@, p.1@));
                        kept.push((self.atom_to_domain[k].0.clone(), self.atom_to_domain[k].1.clone()));
                        assert(kept@.map_values(|p: (NodeId, NodeId)| (p.0@, p.1@)) =~= before.push(ps[k as int]));
                    }
                    k += 1;
                }
                proof {
                    lemma_take_full(ps);
                    lemma_filter_keys_unique(ps, pair_key(), pred);
                }
                self.atom_to_domain = kept;
            },
        }
    }

    /// The number of domains of a workspace and of the atoms they hold (at most
    /// `usize::MAX`).
    pub fn stats(&self, workspace_id: &str) -> (r: L1Counts)
        ensures
            r.domain_count == self.domain_views().filter(of_workspace(workspace_id@)).len(),
            r.total_atoms == crate::text::capped(member_total(self.domain_views().filter(of_workspace(workspace_id@)))),
    {
        let ds = self.list_domains(workspace_id);
        let ghost dv = domains_view(ds@);
        let mut total: usize = 0;
        let mut i: usize = 0;
        while i < ds.len()
            invariant
                i <= ds.len(),
                dv == domains_view(ds@),
                total == crate::text::capped(member_total(dv.take(i as int))),
            decreases ds.len() - i,
        {
            assert(dv.take(i + 1).drop_last() =~= dv.take(i as int));
            assert(dv.take(i + 1).last() == ds@[i as int]@);
            total = total.saturating_add(ds[i].member_atom_ids.len());
            i += 1;
        }
        assert(dv.take(ds.len() as int) =~= dv);
        L1Counts { domain_count: ds.len(), total_atoms: total }
    }
    /// The ids of a list of nodes.
    pub(crate) fn ids_of_nodes(ns: &Vec<Node>) -> (r: Vec<NodeId>)
        ensures
            ids_view(r@) == node_ids(nodes_view(ns@)),
    {
        let mut r: Vec<NodeId> = Vec::new();
        let mut i: usize = 0;
        while i < ns.len()
            invariant
                i <= ns.len(),
                ids_view(r@) == node_ids(nodes_view(ns@)).take(i as int),
            decreases ns.len() - i,
        {
            let ghost before = ids_view(r@);
            let c = ns[i].id.clone();
            assert(c@ == nodes_view(ns@)[i as int].id);
            r.push(c);
            assert(ids_view(r@) =~= before.push(c@));
            assert(node_ids(nodes_view(ns@))[i as int] == c@);
            assert(node_ids(nodes_view(ns@)).take(i + 1) =~= node_ids(nodes_view(ns@)).take(i as int).push(c@));
            assert(ids_view(r@) =~= node_ids(nodes_view(ns@)).take(i + 1));
            i += 1;
        }
        assert(node_ids(nodes_view(ns@)).take(ns.len() as int) =~= node_ids(nodes_view(ns@)));
        r
    }

    /// The source → target links of a list of edges.
    fn links_of_edges(es: &Vec<Edge>) -> (r: Vec<(NodeId, NodeId)>)
        ensures
            links_of(r@) == edge_links(crate::graph::edge::edges_view(es@)),
    {
        let ghost ev = crate::graph::edge::edges_view(es@);
        let mut r: Vec<(NodeId, NodeId)> = Vec::new();
        let mut i: usize = 0;
        while i < es.len()
            invariant
                i <= es.len(),
                ev == crate::graph::edge::edges_view(es@),
                links_of(r@) == edge_links(ev).take(i as int),
            decreases es.len() - i,
        {
            let ghost before = links_of(r@);
            let s = es[i].source.clone();
            let t = es[i].target.clone();
            assert(s@ == ev[i as int].source && t@ == ev[i as int].target);
            r.push((s, t));
            assert(links_of(r@) =~= before.push((ev[i as int].source, ev[i as int].target)));
            assert(edge_links(ev)[i as int] == (ev[i as int].source, ev[i as int].target));
            assert(edge_links(ev).take(i + 1) =~= edge_links(ev).take(i as int).push(edge_links(ev)[i as int]));
            assert(links_of(r@) =~= edge_links(ev).take(i + 1));
            i += 1;
        }
        assert(edge_links(ev).take(es.len() as int) =~= edge_links(ev));
        r
    }

    /// A fresh domain of workspace `ws` holding `members`, named after their contents
    /// among `atoms`.
    fn make_domain(workspace_id: &str, atoms: &Vec<Node>, members: &Vec<NodeId>) -> (d: L1Domain)
        ensures
            fresh_domain(d@, workspace_id@, group_name("Домен"@, "атомов"@,
                member_contents(nodes_view(atoms@), ids_view(members@))), ids_view(members@)),
    {
        let cs = collect_contents(atoms, members);
        let name = name_group("Домен", "атомов", &cs);
        let node = Node::new(NodeType::Domain, name).with_level(Level::L1).with_workspace(workspace_id.to_owned());
        L1Domain { node, member_atom_ids: copy_ids(members) }
    }

    /// Store a domain for each group of atoms that has members, in order, named as the
    /// group is (the grouping path).
    pub fn build_domains_from_groups(&mut self, workspace_id: &str, groups: &Vec<(String, Vec<NodeId>)>) -> (r: AutogenResult)
        requires
            old(self).wf(),
        ensures
            final(self).wf(),
            r.updated_domains@.len() == 0,
            r.orphan_atoms@.len() == 0,
            named_domains(domains_view(r.created_domains@), workspace_id@, nonempty_groups(groups_view(groups@))),
            final(self).domain_views() == store_domains(old(self).domain_views(), domains_view(r.created_domains@)),
            final(self).atom_pairs() == map_domains(old(self).atom_pairs(), domains_view(r.created_domains@)),
    {
        let ghost d0 = self.domain_views();
        let ghost p0 = self.atom_pairs();
        let ghost gv = groups_view(groups@);
        let mut created: Vec<L1Domain> = Vec::new();
        let mut k: usize = 0;
        while k < groups.len()
            invariant
                self.wf(),
                k <= groups.len(),
                gv == groups_view(groups@),
                named_domains(domains_view(created@), workspace_id@, nonempty_groups(gv.take(k as int))),
                self.domain_views() == store_domains(d0, domains_view(created@)),
                self.atom_pairs() == map_domains(p0, domains_view(created@)),
            decreases groups.len() - k,
        {
            let ghost t1 = gv.take(k + 1);
            assert(t1.drop_last() =~= gv.take(k as int));
            assert(t1.last() == (groups@[k as int].0@, ids_view(groups@[k as int].1@)));
            if groups[k].1.len() > 0 {
                let node = Node::new(NodeType::Domain, groups[k].0.clone()).with_level(Level::L1)
                    .with_workspace(workspace_id.to_owned());
                let d = L1Domain { node, member_atom_ids: copy_ids(&groups[k].1) };
                let ghost dv = d@;
                let ghost before = domains_view(created@);
                self.save_domain(&d);
                created.push(d);
                assert(domains_view(created@) =~= before.push(dv));
                assert(domains_view(created@).drop_last() =~= before);
                assert forall|j: int| 0 <= j < domains_view(created@).len() implies fresh_domain(
                    #[trigger] domains_view(created@)[j], workspace_id@, nonempty_groups(t1)[j].0, nonempty_groups(t1)[j].1) by {
                    if j < before.len() {
                        assert(domains_view(created@)[j] == before[j]);
                    }
                }
            }
            k += 1;
        }
        assert(gv.take(groups.len() as int) =~= gv);
        AutogenResult { created_domains: created, updated_domains: Vec::new(), orphan_atoms: Vec::new() }
    }

    /// Generate the domains of a workspace from its atoms and edges: the connected
    /// components of the atoms under the edges, met from the atoms in order; a component
    /// of one atom leaves it an orphan, any larger one becomes a stored domain named
    /// after its members.
    pub fn autogenerate_domains(&mut self, workspace_id: &str, l2_atoms: &Vec<Node>, l2_edges: &Vec<Edge>) -> (r: AutogenResult)
        requires
            old(self).wf(),
        ensures
            final(self).wf(),
            r.updated_domains@.len() == 0,
            exists|cs: Seq<Seq<Seq<char>>>| #[trigger] components_of(node_ids(nodes_view(l2_atoms@)),
                edge_links(crate::graph::edge::edges_view(l2_edges@)), cs)
                && ids_view(r.orphan_atoms@) == singles(cs)
                && domains_for(domains_view(r.created_domains@), workspace_id@, nodes_view(l2_atoms@), multis(cs)),
            final(self).domain_views() == store_domains(old(self).domain_views(), domains_view(r.created_domains@)),
            final(self).atom_pairs() == map_domains(old(self).atom_pairs(), domains_view(r.created_domains@)),
    {
        let seeds = Self::ids_of_nodes(l2_atoms);
        let links = Self::links_of_edges(l2_edges);
        let comps = connected_components(&seeds, &links);
        let ghost cs = comps_view(comps@);
        let ghost av = nodes_view(l2_atoms@);
        let ghost d0 = self.domain_views();
        let ghost p0 = self.atom_pairs();
        let mut created: Vec<L1Domain> = Vec::new();
        let mut orphans: Vec<NodeId> = Vec::new();
        let mut k: usize = 0;
        while k < comps.len()
            invariant
                self.wf(),
                k <= comps.len(),
                cs == comps_view(comps@),
                av == nodes_view(l2_atoms@),
                ids_view(orphans@) == singles(cs.take(k as int)),
                domains_for(domains_view(created@), workspace_id@, av, multis(cs.take(k as int))),
                self.domain_views() == store_domains(d0, domains_view(created@)),
                self.atom_pairs() == map_domains(p0, domains_view(created@)),
            decreases comps.len() - k,
        {
            let ghost t1 = cs.take(k + 1);
            assert(t1.drop_last() =~= cs.take(k as int));
            assert(t1.last() == ids_view(comps@[k as int]@));
            if comps[k].len() == 1 {
                let ghost before = ids_view(orphans@);
                let o = comps[k][0].clone();
                orphans.push(o);
                assert(ids_view(orphans@) =~= before.push(t1.last()[0]));
            } else {
                let d = Self::make_domain(workspace_id, l2_atoms, &comps[k]);
                let ghost dv = d@;
                let ghost before = domains_view(created@);
                self.save_domain(&d);
                created.push(d);
                assert(domains_view(created@) =~= before.push(dv));
                assert(domains_view(created@).drop_last() =~= before);
                assert forall|j: int| 0 <= j < domains_view(created@).len() implies fresh_domain(
                    #[trigger] domains_view(created@)[j], workspace_id@,
                    group_name("Домен"@, "атомов"@, member_contents(av, multis(t1)[j])), multis(t1)[j]) by {
                    if j < before.len() {
                        assert(domains_view(created@)[j] == before[j]);
                    }
                }
            }
            k += 1;
        }
        assert(cs.take(comps.len() as int) =~= cs);
        assert(components_of(node_ids(nodes_view(l2_atoms@)), edge_links(crate::graph::edge::edges_view(l2_edges@)), cs));
        AutogenResult { created_domains: created, updated_domains: Vec::new(), orphan_atoms: orphans }
    }

    /// Generate the domains of a workspace when an LLM was asked to group its atoms:
    /// `answer` is its reply (none when the LLM could not be asked or failed). The groups
    /// the reply describes become the domains when there are any; otherwise the domains
    /// come from the connectivity of the atoms (see `autogenerate_domains`).
    pub fn autogenerate_domains_with_answer(
        &mut self,
        workspace_id: &str,
        l2_atoms: &Vec<Node>,
        l2_edges: &Vec<Edge>,
        answer: Option<&str>,
    ) -> (r: AutogenResult)
        requires
            old(self).wf(),
        ensures
            final(self).wf(),
            r.updated_domains@.len() == 0,
            final(self).domain_views() == store_domains(old(self).domain_views(), domains_view(r.created_domains@)),
            final(self).atom_pairs() == map_domains(old(self).atom_pairs(), domains_view(r.created_domains@)),
            ({
                let gs = match answer {
                    Some(t) => grouping_answer(t@, nodes_view(l2_atoms@)),
                    None => Seq::empty(),
                };
                if gs.len() > 0 {
                    &&& r.orphan_atoms@.len() == 0
                    &&& named_domains(domains_view(r.created_domains@), workspace_id@, nonempty_groups(gs))
                } else {
                    exists|cs: Seq<Seq<Seq<char>>>| #[trigger] components_of(node_ids(nodes_view(l2_atoms@)),
                        edge_links(crate::graph::edge::edges_view(l2_edges@)), cs)
                        && ids_view(r.orphan_atoms@) == singles(cs)
                        && domains_for(domains_view(r.created_domains@), workspace_id@, nodes_view(l2_atoms@), multis(cs))
                }
            }),
    {
        let groups: Vec<(String, Vec<NodeId>)> = match answer {
            Some(t) => parse_grouping_response(t, l2_atoms),
            None => Vec::new(),
        };
        if groups.len() > 0 {
            self.build_domains_from_groups(workspace_id, &groups)
        } else {
            self.autogenerate_domains(workspace_id, l2_atoms, l2_edges)
        }
    }

    /// Regenerate the domains of a workspace (see `autogenerate_domains`), reporting as
    /// updated the new domains with some atom the workspace's earlier domains did not map
    /// to them.
    pub fn regenerate_domains(&mut self, workspace_id: &str, l2_atoms: &Vec<Node>, l2_edges: &Vec<Edge>) -> (r: AutogenResult)
        requires
            old(self).wf(),
        ensures
            final(self).wf(),
            exists|cs: Seq<Seq<Seq<char>>>| #[trigger] components_of(node_ids(nodes_view(l2_atoms@)),
                edge_links(crate::graph::edge::edges_view(l2_edges@)), cs)
                && ids_view(r.orphan_atoms@) == singles(cs)
                && domains_for(domains_view(r.created_domains@), workspace_id@, nodes_view(l2_atoms@), multis(cs)),
            domains_view(r.updated_domains@) == domains_view(r.created_domains@).filter(
                changed(map_domains(Seq::empty(), old(self).domain_views().filter(of_workspace(workspace_id@))))),
            final(self).domain_views() == store_domains(old(self).domain_views(), domains_view(r.created_domains@)),
            final(self).atom_pairs() == map_domains(old(self).atom_pairs(), domains_view(r.created_domains@)),
    {
        let current = self.list_domains(workspace_id);
        let ghost cur = domains_view(current@);
        let mut cov: Vec<(NodeId, NodeId)> = Vec::new();
        let mut i: usize = 0;
        proof {
            assert(links_of(cov@) =~= Seq::<(Seq<char>, Seq<char>)>::empty());
        }
        while i < current.len()
            invariant
                i <= current.len(),
                cur == domains_view(current@),
                keys_unique(links_of(cov@), pair_key()),
                links_of(cov@) == map_domains(Seq::empty(), cur.take(i as int)),
            decreases current.len() - i,
        {
            assert(cur.take(i + 1).drop_last() =~= cur.take(i as int));
            assert(cur.take(i + 1).last() == current@[i as int]@);
            let ghost base = links_of(cov@);
            let ms = &current[i].member_atom_ids;
            let mut k: usize = 0;
            while k < ms.len()
                invariant
                    i < current.len(),
                    ms == &current@[i as int].member_atom_ids,
                    k <= ms.len(),
                    keys_unique(links_of(cov@), pair_key()),
                    links_of(cov@) == map_all(base, ids_view(ms@).take(k as int), current@[i as int].node.id@),
                decreases ms.len() - k,
            {
                assert(ids_view(ms@).take(k + 1).drop_last() =~= ids_view(ms@).take(k as int));
                assert(ids_view(ms@).take(k + 1).last() == ms@[k as int]@);
                upsert_pair(&mut cov, &ms[k], &current[i].node.id);
                k += 1;
            }
            assert(ids_view(ms@).take(ms.len() as int) =~= ids_view(ms@));
            i += 1;
        }
        assert(cur.take(current.len() as int) =~= cur);
        let auto = self.autogenerate_domains(workspace_id, l2_atoms, l2_edges);
        let ghost cv = links_of(cov@);
        let ghost created = domains_view(auto.created_domains@);
        let mut updated: Vec<L1Domain> = Vec::new();
        let mut j: usize = 0;
        while j < auto.created_domains.len()
            invariant
                j <= auto.created_domains.len(),
                created == domains_view(auto.created_domains@),
                cv == links_of(cov@),
                keys_unique(cv, pair_key()),
                domains_view(updated@) == created.take(j as int).filter(changed(cv)),
            decreases auto.created_domains.len() - j,
        {
            proof {
                lemma_filter_step(created, changed(cv), j as int);
            }
            assert(created[j as int] == auto.created_domains@[j as int]@);
            if domain_changed(&cov, &auto.created_domains[j]) {
                let ghost before = domains_view(updated@);
                updated.push(auto.created_domains[j].clone());
                assert(domains_view(updated@) =~= before.push(created[j as int]));
            }
            j += 1;
        }
        proof {
            lemma_take_full(created);
        }
        AutogenResult { created_domains: auto.created_domains, updated_domains: updated, orphan_atoms: auto.orphan_atoms }
    }
}

/// The pair's atom is not one of `ms`.
pub open spec fn unmapped(ms: Seq<Seq<char>>) -> spec_fn((Seq<char>, Seq<char>)) -> bool {
    |p: (Seq<char>, Seq<char>)| !ms.contains(p.0)
}

/// The number of members of a list of domains.
pub open spec fn member_total(ds: Seq<L1DomainView>) -> nat
    decreases ds.len(),
{
    if ds.len() == 0 { 0 } else { member_total(ds.drop_last()) + ds.last().members.len() }
}

/// Whether `v` holds the id `x`.
pub fn has_id(v: &Vec<NodeId>, x: &NodeId) -> (b: bool)
    ensures
        b == ids_view(v@).contains(x@),
{
    let mut i: usize = 0;
    while i < v.len()
        invariant
            i <= v.len(),
            forall|k: int| 0 <= k < i ==> ids_view(v@)[k] != x@,
        decreases v.len() - i,
    {
        if v[i].same(x) {
            assert(ids_view(v@)[i as int] == x@);
            return true;
        }
        i += 1;
    }
    false
}

/// Filtering keeps keys unique.
pub proof fn lemma_filter_keys_unique<A>(s: Seq<A>, key: spec_fn(A) -> Seq<char>, pred: spec_fn(A) -> bool)
    requires
        keys_unique(s, key),
    ensures
        keys_unique(s.filter(pred), key),
    decreases s.len(),
{
    reveal_with_fuel(Seq::filter, 1);
    if s.len() > 0 {
        let p = s.drop_last();
        assert(keys_unique(p, key)) by {
            assert forall|i: int, j: int| 0 <= i < p.len() && 0 <= j < p.len() && i != j implies key(p[i]) != key(p[j]) by {
                assert(p[i] == s[i] && p[j] == s[j]);
            }
        }
        lemma_filter_keys_unique(p, key, pred);
        crate::keyed::lemma_filter_members(p, pred);
        let f = p.filter(pred);
        if pred(s.last()) {
            let g = f.push(s.last());
            assert forall|i: int, j: int| 0 <= i < g.len() && 0 <= j < g.len() && i != j implies key(g[i]) != key(g[j]) by {
                if i < f.len() && j < f.len() {
                } else {
                    let a = if i < f.len() { i } else { j };
                    assert(p.contains(f[a]));
                    let m = choose|m: int| 0 <= m < p.len() && p[m] == f[a];
                    assert(s[m] == p[m]);
                    assert(key(s[m]) != key(s[s.len() - 1]));
                }
            }
        }
    }
}

/// The contents of a list of (name, members) groups.
pub open spec fn groups_view(v: Seq<(String, Vec<NodeId>)>) -> Seq<(Seq<char>, Seq<Seq<char>>)> {
    v.map_values(|g: (String, Vec<NodeId>)| (g.0@, ids_view(g.1@)))
}

/// The groups that have members, in order.
pub open spec fn nonempty_groups(gs: Seq<(Seq<char>, Seq<Seq<char>>)>) -> Seq<(Seq<char>, Seq<Seq<char>>)>
    decreases gs.len(),
{
    if gs.len() == 0 {
        Seq::empty()
    } else if gs.last().1.len() > 0 {
        nonempty_groups(gs.drop_last()).push(gs.last())
    } else {
        nonempty_groups(gs.drop_last())
    }
}

/// `created` holds one fresh domain of workspace `ws` per group, in order, named as the
/// group is.
pub open spec fn named_domains(created: Seq<L1DomainView>, ws: Seq<char>, gs: Seq<(Seq<char>, Seq<Seq<char>>)>) -> bool {
    &&& created.len() == gs.len()
    &&& forall|k: int| 0 <= k < created.len() ==> fresh_domain(#[trigger] created[k], ws, gs[k].0, gs[k].1)
}

/// The domain holds an atom the coverage does not map to it.
pub open spec fn changed(cov: Seq<(Seq<char>, Seq<char>)>) -> spec_fn(L1DomainView) -> bool {
    |d: L1DomainView| exists|k: int| 0 <= k < d.members.len() && domain_of_atom(cov, #[trigger] d.members[k]) != Some(d.node.id)
}

/// Map atom `a` to domain `d` in a list of pairs.
pub fn upsert_pair(ps: &mut Vec<(NodeId, NodeId)>, a: &NodeId, d: &NodeId)
    requires
        keys_unique(links_of(old(ps)@), pair_key()),
    ensures
        keys_unique(links_of(final(ps)@), pair_key()),
        links_of(final(ps)@) == map_pair(links_of(old(ps)@), a@, d@),
{
    let ghost l = links_of(ps@);
    let mut i: usize = 0;
    while i < ps.len()
        invariant
            i <= ps.len(),
            l == links_of(ps@),
            ps@ == old(ps)@,
            keys_unique(l, pair_key()),
            forall|k: int| 0 <= k < i ==> l[k].0 != a@,
        decreases ps.len() - i,
    {
        assert(l[i as int] == (ps@[i as int].0@, ps@[i as int].1@));
        if ps[i].0.same(a) {
            proof {
                assert(pair_key()(l[i as int]) == a@);
                assert(has_key(l, pair_key(), a@));
                let j = pair_pos(l, a@);
                assert(pair_key()(l[j]) == pair_key()(l[i as int]));
                assert(j == i);
                lemma_replace(l, pair_key(), i as int, (a@, d@));
            }
            ps.set(i, (a.clone(), d.clone()));
            assert(links_of(ps@) =~= l.update(i as int, (a@, d@)));
            return;
        }
        i += 1;
    }
    proof {
        lemma_append(l, pair_key(), (a@, d@));
    }
    ps.push((a.clone(), d.clone()));
    assert(links_of(ps@) =~= l.push((a@, d@)));
}

/// The position of the pair of atom `a`, if any.
pub fn find_pair(cov: &Vec<(NodeId, NodeId)>, a: &NodeId) -> (r: Option<usize>)
    requires
        keys_unique(links_of(cov@), pair_key()),
    ensures
        match r {
            Some(j) => j < cov.len() && find_by_key(links_of(cov@), pair_key(), a@) == Some(links_of(cov@)[j as int])
                && links_of(cov@)[j as int] == (cov@[j as int].0@, cov@[j as int].1@),
            None => find_by_key(links_of(cov@), pair_key(), a@) is None,
        },
{
    let ghost cv = links_of(cov@);
    let mut i: usize = 0;
    while i < cov.len()
        invariant
            i <= cov.len(),
            cv == links_of(cov@),
            keys_unique(cv, pair_key()),
            forall|m: int| 0 <= m < i ==> cv[m].0 != a@,
        decreases cov.len() - i,
    {
        assert(cv[i as int] == (cov@[i as int].0@, cov@[i as int].1@));
        if cov[i].0.same(a) {
            proof {
                lemma_find_at(cv, pair_key(), i as int);
            }
            return Some(i);
        }
        i += 1;
    }
    None
}

/// Whether the domain holds an atom the coverage does not map to it.
fn domain_changed(cov: &Vec<(NodeId, NodeId)>, d: &L1Domain) -> (b: bool)
    requires
        keys_unique(links_of(cov@), pair_key()),
    ensures
        b == changed(links_of(cov@))(d@),
{
    let ghost cv = links_of(cov@);
    let mut k: usize = 0;
    while k < d.member_atom_ids.len()
        invariant
            k <= d.member_atom_ids.len(),
            cv == links_of(cov@),
            keys_unique(cv, pair_key()),
            forall|m: int| 0 <= m < k ==> domain_of_atom(cv, #[trigger] d@.members[m]) == Some(d@.node.id),
        decreases d.member_atom_ids.len() - k,
    {
        let a = &d.member_atom_ids[k];
        assert(d@.members[k as int] == a@);
        match find_pair(cov, a) {
            None => {
                return true;
            },
            Some(j) => {
                if !cov[j].1.same(&d.node.id) {
                    return true;
                }
            },
        }
        k += 1;
    }
    false
}

impl super::Actor for L1Actor {
    fn name(&self) -> &'static str {
        "L1Actor"
    }

    /// The number of stored domains.
    fn size(&self) -> (r: usize)
        ensures
            r == self.domain_views().len(),
    {
        self.domains.len()
    }
}

} // verus!
