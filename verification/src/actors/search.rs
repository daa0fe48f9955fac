//! SearchActor: the node side of search — the cache of indexed nodes, the metadata
//! filters, keyword ranking, and resolving the hits of a vector index to nodes.

use vstd::prelude::*;
use crate::graph::node::{Node, NodeId, NodeView, NodeType, Level, Status, Metadata, MetadataView, nodes_view,
    opt_view, strings_view, copy_opt, copy_strings};
use crate::keyed::{keys_unique, find_by_key, has_key, lemma_find_at, lemma_replace, lemma_append, lemma_remove,
    lemma_filter_step, lemma_take_full};
use crate::text::{is_substring, lowercase, to_lowercase, str_contains, same_text};
use super::embedding::{EmbeddingProvider, EmbeddingProviderView};
use super::gkl::has_any_tag;

verus! {

/// Search filters: every filter that is set must hold.
#[derive(Debug)]
pub struct SearchFilters {
    pub level: Option<Level>,
    pub status: Option<Status>,
    pub node_type: Option<NodeType>,
    pub tags: Vec<String>,
    pub workspace_id: Option<String>,
}

impl Default for SearchFilters {
    fn default() -> (r: Self)
        ensures
            r.level is None,
            r.status is None,
            r.node_type is None,
            r.tags@.len() == 0,
            r.workspace_id is None,
    {
        SearchFilters { level: None, status: None, node_type: None, tags: Vec::new(), workspace_id: None }
    }
}

impl Clone for SearchFilters {
    fn clone(&self) -> (r: Self)
        ensures
            r.level == self.level,
            r.status == self.status,
            r.node_type == self.node_type,
            strings_view(r.tags@) == strings_view(self.tags@),
            opt_view(r.workspace_id) == opt_view(self.workspace_id),
    {
        SearchFilters {
            level: self.level,
            status: self.status,
            node_type: self.node_type,
            tags: copy_strings(&self.tags),
            workspace_id: copy_opt(&self.workspace_id),
        }
    }
}

/// The metadata filters hold: the workspace, when set, is the node's, and when tags are
/// set the node has at least one of them.
pub open spec fn meta_matches(m: MetadataView, f: SearchFilters) -> bool {
    &&& match opt_view(f.workspace_id) {
        Some(w) => m.workspace_id == Some(w),
        None => true,
    }
    &&& (f.tags@.len() == 0 || exists|i: int| 0 <= i < f.tags@.len() && m.tags.contains(#[trigger] strings_view(f.tags@)[i]))
}

/// The node filters hold: level, status and type, when set, are the node's.
pub open spec fn kind_matches(n: NodeView, f: SearchFilters) -> bool {
    &&& (f.level matches Some(l) ==> n.level == l)
    &&& (f.status matches Some(s) ==> n.status == s)
    &&& (f.node_type matches Some(t) ==> n.node_type == t)
}

/// Every filter holds of the node.
pub open spec fn node_passes(n: NodeView, f: SearchFilters) -> bool {
    kind_matches(n, f) && meta_matches(n.metadata, f)
}

/// Whether the metadata filters (workspace and tags) hold of `metadata`.
pub fn matches_filters(metadata: &Metadata, filters: &SearchFilters) -> (b: bool)
    ensures
        b == meta_matches(metadata@, *filters),
{
    match &filters.workspace_id {
        Some(ws) => {
            let same = match &metadata.workspace_id {
                Some(w) => same_text(w.as_str(), ws.as_str()),
                None => false,
            };
            if !same {
                return false;
            }
        },
        None => {},
    }
    if filters.tags.len() > 0 {
        if !has_any_tag(&metadata.tags, &filters.tags) {
            return false;
        }
    }
    true
}

/// Whether the level, status and type filters hold of `node`.
fn kind_ok(node: &Node, filters: &SearchFilters) -> (b: bool)
    ensures
        b == kind_matches(node@, *filters),
{
    let level_ok = match filters.level {
        Some(l) => node.level == l,
        None => true,
    };
    let status_ok = match filters.status {
        Some(s) => node.status == s,
        None => true,
    };
    let type_ok = match filters.node_type {
        Some(t) => node.node_type == t,
        None => true,
    };
    level_ok && status_ok && type_ok
}

/// The keyword occurs in the text, ignoring case.
pub open spec fn keyword_in(content: Seq<char>) -> spec_fn(Seq<char>) -> bool {
    |k: Seq<char>| is_substring(lowercase(content), lowercase(k))
}

/// How many of the keywords occur in the text, ignoring case.
pub open spec fn match_count(content: Seq<char>, kws: Seq<Seq<char>>) -> nat {
    kws.filter(keyword_in(content)).len()
}

/// The number of keywords that occur in `content`, ignoring case.
pub fn keyword_matches(content: &str, keywords: &Vec<String>) -> (n: usize)
    ensures
        n == match_count(content@, strings_view(keywords@)),
{
    let ghost kv = strings_view(keywords@);
    let ghost pred = keyword_in(content@);
    let low = to_lowercase(content);
    let mut n: usize = 0;
    let mut i: usize = 0;
    while i < keywords.len()
        invariant
            i <= keywords.len(),
            kv == strings_view(keywords@),
            pred == keyword_in(content@),
            low@ == lowercase(content@),
            n == kv.take(i as int).filter(pred).len(),
            n <= i,
        decreases keywords.len() - i,
    {
        proof {
            lemma_filter_step(kv, pred, i as int);
        }
        assert(kv[i as int] == keywords@[i as int]@);
        let k = to_lowercase(keywords[i].as_str());
        if str_contains(low.as_str(), k.as_str()) {
            n += 1;
        }
        i += 1;
    }
    proof {
        lemma_take_full(kv);
    }
    n
}

/// A node found by keyword search and how many keywords it holds.
#[derive(Debug)]
pub struct KeywordHit {
    pub node: Node,
    pub matches: usize,
}

/// The nodes of `ns` that pass the filters and hold exactly `c` of the keywords, in order.
pub open spec fn band_pred(f: SearchFilters, kws: Seq<Seq<char>>, c: nat) -> spec_fn(NodeView) -> bool {
    |n: NodeView| node_passes(n, f) && match_count(n.content, kws) == c
}

/// The nodes of `ns` that pass the filters and hold at least one keyword, those holding
/// more keywords first, in their order in `ns` among equals (holding at most `c`).
pub open spec fn ranked(ns: Seq<NodeView>, f: SearchFilters, kws: Seq<Seq<char>>, c: nat) -> Seq<NodeView>
    decreases c,
{
    if c == 0 { Seq::empty() } else { ns.filter(band_pred(f, kws, c)) + ranked(ns, f, kws, (c - 1) as nat) }
}

/// The nodes of a list of hits.
pub open spec fn hit_nodes(v: Seq<KeywordHit>) -> Seq<NodeView> {
    v.map_values(|h: KeywordHit| h.node@)
}

/// The result of a vector search: a node and its score (the bit pattern of an IEEE-754
/// single-precision value, carried as it came from the index).
#[derive(Debug)]
pub struct SearchResult {
    pub node_id: NodeId,
    pub score_bits: u32,
    pub node_type: NodeType,
    pub level: Level,
    pub content: String,
    pub metadata: Metadata,
}

/// The content of a search result.
pub struct SearchResultView {
    pub node_id: Seq<char>,
    pub score_bits: u32,
    pub node_type: NodeType,
    pub level: Level,
    pub content: Seq<char>,
    pub metadata: MetadataView,
}

impl View for SearchResult {
    type V = SearchResultView;

    open spec fn view(&self) -> SearchResultView {
        SearchResultView {
            node_id: self.node_id@,
            score_bits: self.score_bits,
            node_type: self.node_type,
            level: self.level,
            content: self.content@,
            metadata: self.metadata@,
        }
    }
}

/// The views of a list of search results.
pub open spec fn results_view(v: Seq<SearchResult>) -> Seq<SearchResultView> {
    v.map_values(|r: SearchResult| r@)
}

/// The result for node `n` with score `bits`.
pub open spec fn result_of(n: NodeView, bits: u32) -> SearchResultView {
    SearchResultView {
        node_id: n.id,
        score_bits: bits,
        node_type: n.node_type,
        level: n.level,
        content: n.content,
        metadata: n.metadata,
    }
}

/// The results for the index hits `hs`, in order: each hit whose node is cached and meets
/// the level, status and type filters.
pub open spec fn resolved(ns: Seq<NodeView>, hs: Seq<(Seq<char>, u32)>, f: SearchFilters) -> Seq<SearchResultView>
    decreases hs.len(),
{
    if hs.len() == 0 {
        Seq::empty()
    } else {
        let r = resolved(ns, hs.drop_last(), f);
        match find_by_key(ns, node_key(), hs.last().0) {
            Some(n) => if kind_matches(n, f) { r.push(result_of(n, hs.last().1)) } else { r },
            None => r,
        }
    }
}

/// The key of a cached node: its id.
pub open spec fn node_key() -> spec_fn(NodeView) -> Seq<char> {
    |n: NodeView| n.id
}

/// The position of the cached node with id `id`.
pub open spec fn node_index(ns: Seq<NodeView>, id: Seq<char>) -> int {
    choose|i: int| 0 <= i < ns.len() && ns[i].id == id
}

/// The cache after indexing `n`: it replaces the node with its id, or is appended.
pub open spec fn store_node(ns: Seq<NodeView>, n: NodeView) -> Seq<NodeView> {
    if has_key(ns, node_key(), n.id) { ns.update(node_index(ns, n.id), n) } else { ns.push(n) }
}

/// Counts of a search actor.
#[derive(Debug, Clone, Copy)]
pub struct SearchStats {
    pub vector_count: usize,
    pub cache_count: usize,
}

/// SearchActor: the cached nodes (unique ids, in indexing order) and an optional
/// embedding provider. The vectors themselves live in a vector index beside it.
pub struct SearchActor {
    nodes: Vec<Node>,
    embedding: Option<EmbeddingProvider>,
}

impl SearchActor {
    /// The cached nodes, in order.
    pub closed spec fn cached(&self) -> Seq<NodeView> {
        nodes_view(self.nodes@)
    }

    /// Unique ids in the cache.
    pub open spec fn wf(&self) -> bool {
        keys_unique(self.cached(), node_key())
    }

    /// An actor with an empty cache and no embedding provider.
    pub fn new() -> (a: Self)
        ensures
            a.wf(),
            a.cached().len() == 0,
            a.provider() is None,
    {
        let a = SearchActor { nodes: Vec::new(), embedding: None };
        assert(a.cached() =~= Seq::<NodeView>::empty());
        a
    }

    /// The same actor with an embedding provider.
    pub fn with_embedding_provider(self, provider: EmbeddingProvider) -> (a: Self)
        requires
            self.wf(),
        ensures
            a.wf(),
            a.cached() == self.cached(),
            a.provider() == Some(provider@),
    {
        SearchActor { nodes: self.nodes, embedding: Some(provider) }
    }

    /// The embedding provider, if any.
    pub fn embedding_provider(&self) -> (r: Option<&EmbeddingProvider>)
        ensures
            match r {
                Some(p) => self.provider() == Some(p@),
                None => self.provider() is None,
            },
    {
        match &self.embedding {
            Some(p) => Some(p),
            None => None,
        }
    }

    /// The embedding provider, if any.
    pub closed spec fn provider(&self) -> Option<EmbeddingProviderView> {
        match self.embedding {
            Some(p) => Some(p@),
            None => None,
        }
    }

    /// The label of the embedding backend in use.
    pub fn embedding_backend_label(&self) -> (s: &'static str)
        ensures
            s@ == (match self.provider() {
                Some(p) => if p.enabled { "openai-compatible"@ } else { "char_bag_fallback"@ },
                None => "char_bag_fallback"@,
            }),
    {
        match &self.embedding {
            Some(p) => p.backend_label(),
            None => "char_bag_fallback",
        }
    }

    fn position(&self, id: &NodeId) -> (r: Option<usize>)
        requires
            self.wf(),
        ensures
            match r {
                Some(i) => i < self.cached().len() && self.cached()[i as int].id == id@
                    && node_index(self.cached(), id@) == i
                    && find_by_key(self.cached(), node_key(), id@) == Some(self.cached()[i as int]),
                None => !has_key(self.cached(), node_key(), id@)
                    && find_by_key(self.cached(), node_key(), id@) is None,
            },
    {
        let mut i: usize = 0;
        while i < self.nodes.len()
            invariant
                self.wf(),
                i <= self.nodes.len(),
                forall|k: int| 0 <= k < i ==> self.cached()[k].id != id@,
            decreases self.nodes.len() - i,
        {
            assert(self.cached()[i as int] == self.nodes@[i as int]@);
            if self.nodes[i].id.same(id) {
                proof {
                    lemma_find_at(self.cached(), node_key(), i as int);
                    let j = node_index(self.cached(), id@);
                    assert(node_key()(self.cached()[j]) == node_key()(self.cached()[i as int]));
                    assert(j == i);
                }
                return Some(i);
            }
            i += 1;
        }
        None
    }

    /// Cache a node (replacing the one with its id).
    pub fn index_node(&mut self, node: &Node)
        requires
            old(self).wf(),
        ensures
            final(self).wf(),
            final(self).cached() == store_node(old(self).cached(), node@),
            final(self).provider() == old(self).provider(),
    {
        let ghost ns = self.cached();
        let n = node.clone();
        match self.position(&node.id) {
            Some(i) => {
                proof {
                    lemma_replace(ns, node_key(), i as int, node@);
                }
                self.nodes.set(i, n);
                assert(self.cached() =~= ns.update(i as int, node@));
            },
            None => {
                proof {
                    lemma_append(ns, node_key(), node@);
                }
                self.nodes.push(n);
                assert(self.cached() =~= ns.push(node@));
            },
        }
    }

    /// Drop a node from the cache.
    pub fn remove_node(&mut self, node_id: &NodeId)
        requires
            old(self).wf(),
        ensures
            final(self).wf(),
            final(self).provider() == old(self).provider(),
            has_key(old(self).cached(), node_key(), node_id@) ==> final(self).cached()
                == old(self).cached().remove(node_index(old(self).cached(), node_id@)),
            !has_key(old(self).cached(), node_key(), node_id@) ==> final(self).cached() == old(self).cached(),
    {
        let ghost ns = self.cached();
        match self.position(node_id) {
            Some(i) => {
                proof {
                    lemma_remove(ns, node_key(), i as int);
                }
                self.nodes.remove(i);
                assert(self.cached() =~= ns.remove(i as int));
            },
            None => {},
        }
    }

    /// Empty the cache.
    pub fn clear_cache(&mut self)
        ensures
            final(self).wf(),
            final(self).cached().len() == 0,
            final(self).provider() == old(self).provider(),
    {
        self.nodes.clear();
        assert(self.cached() =~= Seq::<NodeView>::empty());
    }

    /// The counts of the actor, given the number of vectors in its index.
    pub fn stats(&self, vector_count: usize) -> (r: SearchStats)
        ensures
            r.vector_count == vector_count,
            r.cache_count == self.cached().len(),
    {
        SearchStats { vector_count, cache_count: self.nodes.len() }
    }

    /// The results for the hits of a vector index (see `resolved`).
    pub fn resolve_hits(&self, hits: &Vec<(NodeId, u32)>, filters: &SearchFilters) -> (r: Vec<SearchResult>)
        requires
            self.wf(),
        ensures
            results_view(r@) == resolved(self.cached(), hits@.map_values(|h: (NodeId, u32)| (h.0@, h.1)), *filters),
    {
        let ghost hv = hits@.map_values(|h: (NodeId, u32)| (h.0@, h.1));
        let mut r: Vec<SearchResult> = Vec::new();
        let mut k: usize = 0;
        while k < hits.len()
            invariant
                self.wf(),
                k <= hits.len(),
                hv == hits@.map_values(|h: (NodeId, u32)| (h.0@, h.1)),
                results_view(r@) == resolved(self.cached(), hv.take(k as int), *filters),
            decreases hits.len() - k,
        {
            assert(hv.take(k + 1).drop_last() =~= hv.take(k as int));
            assert(hv.take(k + 1).last() == (hits@[k as int].0@, hits@[k as int].1));
            match self.position(&hits[k].0) {
                Some(i) => {
                    let n = &self.nodes[i];
                    assert(self.cached()[i as int] == n@);
                    if kind_ok(n, filters) {
                        let ghost before = results_view(r@);
                        let res = SearchResult {
                            node_id: n.id.clone(),
                            score_bits: hits[k].1,
                            node_type: n.node_type,
                            level: n.level,
                            content: n.content.clone(),
                            metadata: n.metadata.clone(),
                        };
                        r.push(res);
                        assert(results_view(r@) =~= before.push(result_of(n@, hits@[k as int].1)));
                    }
                },
                None => {},
            }
            k += 1;
        }
        assert(hv.take(hits.len() as int) =~= hv);
        r
    }

    /// The cached nodes that pass the filters and hold at least one keyword (ignoring
    /// case), those holding more keywords first, in cache order among equals; at most
    /// `top_k` of them, each with its keyword count.
    pub fn keyword_search(&self, keywords: &Vec<String>, top_k: usize, filters: &SearchFilters) -> (r: Vec<KeywordHit>)
        ensures
            hit_nodes(r@) == ranked(self.cached(), *filters, strings_view(keywords@), keywords@.len() as nat)
                .take(if top_k < ranked(self.cached(), *filters, strings_view(keywords@), keywords@.len() as nat).len() {
                    top_k as int
                } else {
                    ranked(self.cached(), *filters, strings_view(keywords@), keywords@.len() as nat).len() as int
                }),
            forall|k: int| 0 <= k < r@.len() ==> (#[trigger] r@[k]).matches == match_count(r@[k].node@.content,
                strings_view(keywords@)),
    {
        let ghost ns = self.cached();
        let ghost kv = strings_view(keywords@);
        let mut counts: Vec<usize> = Vec::new();
        let mut i: usize = 0;
        while i < self.nodes.len()
            invariant
                i <= self.nodes.len(),
                ns == self.cached(),
                kv == strings_view(keywords@),
                counts@.len() == i,
                forall|m: int| 0 <= m < i ==> (#[trigger] counts@[m]) == (if node_passes(ns[m], *filters) {
                    match_count(ns[m].content, kv)
                } else {
                    0
                }),
            decreases self.nodes.len() - i,
        {
            assert(ns[i as int] == self.nodes@[i as int]@);
            let c = if kind_ok(&self.nodes[i], filters) && matches_filters(&self.nodes[i].metadata, filters) {
                keyword_matches(self.nodes[i].content.as_str(), keywords)
            } else {
                0
            };
            counts.push(c);
            i += 1;
        }
        let mut out: Vec<KeywordHit> = Vec::new();
        let mut c: usize = 0;
        proof {
            assert(hit_nodes(out@) =~= Seq::<NodeView>::empty());
        }
        while c < keywords.len()
            invariant
                c <= keywords.len(),
                ns == self.cached(),
                kv == strings_view(keywords@),
                kv.len() == keywords@.len(),
                counts@.len() == ns.len(),
                forall|m: int| 0 <= m < ns.len() ==> (#[trigger] counts@[m]) == (if node_passes(ns[m], *filters) {
                    match_count(ns[m].content, kv)
                } else {
                    0
                }),
                hit_nodes(out@) == ranked(ns, *filters, kv, c as nat),
                forall|k: int| 0 <= k < out@.len() ==> (#[trigger] out@[k]).matches == match_count(out@[k].node@.content, kv),
            decreases keywords.len() - c,
        {
            let level: usize = c + 1;
            let ghost pred = band_pred(*filters, kv, level as nat);
            let mut band: Vec<KeywordHit> = Vec::new();
            let mut j: usize = 0;
            while j < self.nodes.len()
                invariant
                    j <= self.nodes.len(),
                    ns == self.cached(),
                    level >= 1,
                    pred == band_pred(*filters, kv, level as nat),
                    counts@.len() == ns.len(),
                    forall|m: int| 0 <= m < ns.len() ==> (#[trigger] counts@[m]) == (if node_passes(ns[m], *filters) {
                        match_count(ns[m].content, kv)
                    } else {
                        0
                    }),
                    hit_nodes(band@) == ns.take(j as int).filter(pred),
                    forall|k: int| 0 <= k < band@.len() ==> (#[trigger] band@[k]).matches == level
                        && level == match_count(band@[k].node@.content, kv),
                decreases self.nodes.len() - j,
            {
                proof {
                    lemma_filter_step(ns, pred, j as int);
                }
                assert(ns[j as int] == self.nodes@[j as int]@);
                assert(counts@[j as int] == counts[j as int]);
                if counts[j] == level {
                    let ghost before = hit_nodes(band@);
                    band.push(KeywordHit { node: self.nodes[j].clone(), matches: level });
                    assert(hit_nodes(band@) =~= before.push(ns[j as int]));
                }
                j += 1;
            }
            proof {
                lemma_take_full(ns);
            }
            let ghost b = hit_nodes(band@);
            let ghost o = hit_nodes(out@);
            let mut m: usize = 0;
            while m < out.len()
                invariant
                    m <= out.len(),
                    level >= 1,
                    hit_nodes(band@) == b + o.take(m as int),
                    o == hit_nodes(out@),
                    forall|k: int| 0 <= k < out@.len() ==> (#[trigger] out@[k]).matches == match_count(out@[k].node@.content, kv),
                    forall|k: int| 0 <= k < band@.len() ==> (#[trigger] band@[k]).matches == match_count(band@[k].node@.content, kv),
                decreases out.len() - m,
            {
                let ghost before = hit_nodes(band@);
                let h = KeywordHit { node: out[m].node.clone(), matches: out[m].matches };
                assert(h.node@ == o[m as int]);
                band.push(h);
                assert(hit_nodes(band@) =~= before.push(o[m as int]));
                assert(o.take(m + 1) =~= o.take(m as int).push(o[m as int]));
                m += 1;
            }
            assert(o.take(out.len() as int) =~= o);
            out = band;
            c += 1;
        }
        let ghost full = hit_nodes(out@);
        if top_k < out.len() {
            out.truncate(top_k);
            assert(hit_nodes(out@) =~= full.take(top_k as int));
        } else {
            assert(full.take(full.len() as int) =~= full);
        }
        out
    }
}

} // verus!
