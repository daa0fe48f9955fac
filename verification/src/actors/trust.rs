//! The decision parts of the trust firewall: source kinds, the reputation of a source,
//! the counts the scores rest on and the write filter's choice of what to write.

use vstd::prelude::*;
use crate::graph::node::{NodeView, Status, nodes_view};
use crate::text::{lowercase, to_lowercase, is_substring, str_contains, has_prefix, chars_of, starts_with_chars};
use super::config::str_views;
use crate::keyed::{keys_unique, has_key, find_by_key, lemma_find_at, lemma_replace, lemma_append};
use crate::text::{same_text, numeric, is_numeric};
use super::l2::L2Actor;

verus! {

/// Kind of the source of a piece of information.
#[derive(Debug, Clone, Copy, PartialEq, Eq, Structural)]
pub enum SourceType {
    UserDirect,
    UserDocument,
    WebSearch,
    AgentInternal,
    ExternalAPI,
    Unknown,
}

/// The firewall's decision on an input.
#[derive(Debug, Clone, Copy, PartialEq, Eq, Structural)]
pub enum TrustDecision {
    Accept,
    Verify,
    Block,
}

/// The starting trust of a source, in tenths: 5 for sub-agents (`project:…`), else 6 for
/// the user, 5 for internal agents, 4 for the web and external APIs, 3 for unknown ones.
pub open spec fn base_tenths(source_id: Seq<char>, t: SourceType) -> u8 {
    if has_prefix(source_id, "project:"@) {
        5
    } else {
        match t {
            SourceType::UserDirect | SourceType::UserDocument => 6,
            SourceType::AgentInternal => 5,
            SourceType::WebSearch | SourceType::ExternalAPI => 4,
            SourceType::Unknown => 3,
        }
    }
}

/// The starting trust of a source, in tenths (see `base_tenths`).
pub fn base_score_tenths(source_id: &str, t: SourceType) -> (r: u8)
    ensures
        r == base_tenths(source_id@, t),
{
    let s = chars_of(source_id);
    let p = chars_of("project:");
    if starts_with_chars(&s, &p) {
        return 5;
    }
    match t {
        SourceType::UserDirect | SourceType::UserDocument => 6,
        SourceType::AgentInternal => 5,
        SourceType::WebSearch | SourceType::ExternalAPI => 4,
        SourceType::Unknown => 3,
    }
}

/// The content mentions a number: one of its characters is numeric.
pub open spec fn mentions_number(content: Seq<char>) -> bool {
    exists|i: int| 0 <= i < content.len() && numeric(#[trigger] content[i])
}

/// The content cites a source: it holds `по данным`, `источник` or `исследование`.
pub open spec fn cites_source(content: Seq<char>) -> bool {
    is_substring(content, "по данным"@) || is_substring(content, "источник"@) || is_substring(content, "исследование"@)
}

/// What makes a content verifiable: whether it mentions a number and whether it cites a
/// source (see `mentions_number`, `cites_source`).
pub fn verifiability_signals(content: &str) -> (r: (bool, bool))
    ensures
        r == (mentions_number(content@), cites_source(content@)),
{
    let cs = chars_of(content);
    let mut has_number = false;
    let mut i: usize = 0;
    while i < cs.len() && !has_number
        invariant
            i <= cs.len(),
            cs@ == content@,
            has_number == exists|k: int| 0 <= k < i && numeric(#[trigger] cs@[k]),
        decreases cs.len() - i,
    {
        if is_numeric(cs[i]) {
            has_number = true;
        }
        i += 1;
    }
    let cites = str_contains(content, "по данным") || str_contains(content, "источник")
        || str_contains(content, "исследование");
    (has_number, cites)
}

/// The track record of a source: claims made, verified and false.
#[derive(Debug)]
pub struct SourceReputation {
    pub source_id: String,
    pub total_claims: usize,
    pub verified_claims: usize,
    pub false_claims: usize,
}

impl Clone for SourceReputation {
    fn clone(&self) -> (r: Self)
        ensures
            rep_view(r) == rep_view(*self),
    {
        SourceReputation {
            source_id: self.source_id.clone(),
            total_claims: self.total_claims,
            verified_claims: self.verified_claims,
            false_claims: self.false_claims,
        }
    }
}

impl SourceReputation {
    /// Every claim is either verified or false.
    pub open spec fn consistent(&self) -> bool {
        self.total_claims == self.verified_claims + self.false_claims
    }

    /// A source without claims.
    pub fn new(source_id: String) -> (r: Self)
        ensures
            r.source_id@ == source_id@,
            r.total_claims == 0 && r.verified_claims == 0 && r.false_claims == 0,
            r.consistent(),
    {
        SourceReputation { source_id, total_claims: 0, verified_claims: 0, false_claims: 0 }
    }

    /// Record one more claim, verified or false.
    pub fn update(&mut self, was_correct: bool)
        requires
            old(self).total_claims < usize::MAX,
            old(self).verified_claims < usize::MAX,
            old(self).false_claims < usize::MAX,
        ensures
            final(self).source_id@ == old(self).source_id@,
            final(self).total_claims == old(self).total_claims + 1,
            final(self).verified_claims == old(self).verified_claims + (if was_correct { 1int } else { 0 }),
            final(self).false_claims == old(self).false_claims + (if was_correct { 0int } else { 1 }),
            old(self).consistent() ==> final(self).consistent(),
    {
        self.total_claims += 1;
        if was_correct {
            self.verified_claims += 1;
        } else {
            self.false_claims += 1;
        }
    }
}

/// What the write filter does with an input.
#[derive(Debug, Clone, Copy, PartialEq, Eq, Structural)]
pub enum GateChoice {
    /// Write the node with this status.
    Write(Status),
    /// Refuse to write it.
    Refuse,
}

/// The write filter's choice: on the trusted path, write as active unless the input looks
/// manipulative (then as draft); on the strict path, accepted inputs are active, inputs
/// to verify are drafts, and blocked inputs are refused when manipulative, drafts
/// otherwise.
pub open spec fn gate_choice_of(strict: bool, d: TrustDecision, manipulative: bool) -> GateChoice {
    if !strict {
        if manipulative { GateChoice::Write(Status::Draft) } else { GateChoice::Write(Status::Active) }
    } else {
        match d {
            TrustDecision::Accept => GateChoice::Write(Status::Active),
            TrustDecision::Verify => GateChoice::Write(Status::Draft),
            TrustDecision::Block => if manipulative { GateChoice::Refuse } else { GateChoice::Write(Status::Draft) },
        }
    }
}

/// The write filter's choice (see `gate_choice_of`).
pub fn gate_choice(strict: bool, d: TrustDecision, manipulative: bool) -> (r: GateChoice)
    ensures
        r == gate_choice_of(strict, d, manipulative),
{
    if !strict {
        if manipulative { GateChoice::Write(Status::Draft) } else { GateChoice::Write(Status::Active) }
    } else {
        match d {
            TrustDecision::Accept => GateChoice::Write(Status::Active),
            TrustDecision::Verify => GateChoice::Write(Status::Draft),
            TrustDecision::Block => if manipulative { GateChoice::Refuse } else { GateChoice::Write(Status::Draft) },
        }
    }
}

/// The content overlaps the node's: in lower case, either holds the other.
pub open spec fn overlaps(content: Seq<char>, n: NodeView) -> bool {
    is_substring(lowercase(content), lowercase(n.content)) || is_substring(lowercase(n.content), lowercase(content))
}

/// The number of nodes among `ns` whose content overlaps `content`.
pub open spec fn overlap_count(content: Seq<char>, ns: Seq<NodeView>) -> nat {
    ns.filter(|n: NodeView| overlaps(content, n)).len()
}

/// The number of stored nodes whose content overlaps the input (consistency evidence).
pub fn consistency_matches(l2: &L2Actor, content: &str) -> (r: usize)
    requires
        l2.wf(),
    ensures
        r == overlap_count(content@, l2.node_views()),
{
    let nodes = l2.list_all_nodes();
    let ghost ns = nodes_view(nodes@);
    let c = to_lowercase(content);
    let mut count: usize = 0;
    let mut i: usize = 0;
    while i < nodes.len()
        invariant
            i <= nodes.len(),
            ns == nodes_view(nodes@),
            c@ == lowercase(content@),
            count == ns.take(i as int).filter(|n: NodeView| overlaps(content@, n)).len(),
            count <= i,
        decreases nodes.len() - i,
    {
        proof {
            crate::keyed::lemma_filter_step(ns, |n: NodeView| overlaps(content@, n), i as int);
        }
        assert(ns[i as int] == nodes@[i as int]@);
        let n = to_lowercase(nodes[i].content.as_str());
        if str_contains(c.as_str(), n.as_str()) || str_contains(n.as_str(), c.as_str()) {
            count += 1;
        }
        i += 1;
    }
    proof {
        crate::keyed::lemma_take_full(ns);
    }
    count
}

/// Words that put pressure on the reader (compared in lower case).
pub open spec fn suspicious_words() -> Seq<Seq<char>> {
    seq!["срочно"@, "немедленно"@, "без вопросов"@, "никто не узнает"@, "только между нами"@,
        "гарантирую"@, "точно"@, "абсолютно"@]
}

/// Words of urgency (compared in lower case).
pub open spec fn urgency_words() -> Seq<Seq<char>> {
    seq!["срочно"@, "быстро"@, "немедленно"@, "сейчас же"@]
}

/// The number of the words of `ws` that occur in `low`.
pub open spec fn occurring(low: Seq<char>, ws: Seq<Seq<char>>) -> nat {
    ws.filter(|w: Seq<char>| is_substring(low, w)).len()
}

/// How many of the words `kws` occur in the text, in lower case.
fn count_occurring(content: &str, kws: &[&str]) -> (r: usize)
    ensures
        r == occurring(lowercase(content@), str_views(kws@)),
{
    let low = to_lowercase(content);
    let ghost ws = str_views(kws@);
    let mut count: usize = 0;
    let mut i: usize = 0;
    while i < kws.len()
        invariant
            i <= kws@.len(),
            ws == str_views(kws@),
            low@ == lowercase(content@),
            count == ws.take(i as int).filter(|w: Seq<char>| is_substring(lowercase(content@), w)).len(),
            count <= i,
        decreases kws@.len() - i,
    {
        proof {
            crate::keyed::lemma_filter_step(ws, |w: Seq<char>| is_substring(lowercase(content@), w), i as int);
        }
        assert(ws[i as int] == kws@[i as int]@);
        if str_contains(low.as_str(), kws[i]) {
            count += 1;
        }
        i += 1;
    }
    proof {
        crate::keyed::lemma_take_full(ws);
    }
    count
}

/// The number of pressuring words in an input (the intent evidence).
pub fn suspicious_count(content: &str) -> (r: usize)
    ensures
        r == occurring(lowercase(content@), suspicious_words()),
{
    let kws: [&str; 8] = ["срочно", "немедленно", "без вопросов", "никто не узнает", "только между нами",
        "гарантирую", "точно", "абсолютно"];
    assert(str_views(kws@) =~= suspicious_words());
    count_occurring(content, kws.as_slice())
}

/// Whether the input is urgent in tone.
pub fn has_urgency(content: &str) -> (r: bool)
    ensures
        r == (occurring(lowercase(content@), urgency_words()) > 0),
{
    let kws: [&str; 4] = ["срочно", "быстро", "немедленно", "сейчас же"];
    assert(str_views(kws@) =~= urgency_words());
    count_occurring(content, kws.as_slice()) > 0
}

/// A tone anomaly: urgency, or more than two earlier anomalies of the source.
pub fn tone_anomaly(content: &str, previous_anomalies: usize) -> (r: bool)
    ensures
        r == (occurring(lowercase(content@), urgency_words()) > 0 || previous_anomalies > 2),
{
    has_urgency(content) || previous_anomalies > 2
}

/// The key of an anomaly counter: its source.
pub open spec fn count_key() -> spec_fn((Seq<char>, usize)) -> Seq<char> {
    |c: (Seq<char>, usize)| c.0
}

/// The key of a reputation: its source.
pub open spec fn rep_key() -> spec_fn(RepView) -> Seq<char> {
    |r: RepView| r.0
}

/// A reputation as (source, claims, verified, false).
pub type RepView = (Seq<char>, usize, usize, usize);

/// The view of a reputation.
pub open spec fn rep_view(r: SourceReputation) -> RepView {
    (r.source_id@, r.total_claims, r.verified_claims, r.false_claims)
}

/// The number of earlier anomalies of `source` (zero if none is counted).
pub open spec fn anomalies_of(cs: Seq<(Seq<char>, usize)>, source: Seq<char>) -> usize {
    match find_by_key(cs, count_key(), source) {
        Some(c) => c.1,
        None => 0,
    }
}

/// The reputation of `source` after one more claim: one more verified or false claim,
/// counted from a fresh reputation if there is none; a count at `usize::MAX` stays.
pub open spec fn recorded(r: Option<RepView>, source: Seq<char>, was_correct: bool) -> RepView {
    let (t, v, f) = match r {
        Some(x) => (x.1, x.2, x.3),
        None => (0usize, 0usize, 0usize),
    };
    if t < usize::MAX && v < usize::MAX && f < usize::MAX {
        if was_correct { (source, (t + 1) as usize, (v + 1) as usize, f) } else { (source, (t + 1) as usize, v, (f + 1) as usize) }
    } else {
        (source, t, v, f)
    }
}

/// The state of the trust firewall: the reputation of each source and the number of tone
/// anomalies seen from each (one entry per source).
pub struct TrustFirewall {
    reputations: Vec<SourceReputation>,
    anomaly_counts: Vec<(String, usize)>,
}

impl TrustFirewall {
    /// The reputations, one per source.
    pub closed spec fn reps(&self) -> Seq<RepView> {
        self.reputations@.map_values(|r: SourceReputation| rep_view(r))
    }

    /// The anomaly counters, one per source.
    pub closed spec fn counts(&self) -> Seq<(Seq<char>, usize)> {
        self.anomaly_counts@.map_values(|c: (String, usize)| (c.0@, c.1))
    }

    /// One reputation and one counter per source.
    pub open spec fn wf(&self) -> bool {
        keys_unique(self.reps(), rep_key()) && keys_unique(self.counts(), count_key())
    }

    /// The number of sources with a reputation.
    pub fn reputation_count(&self) -> (n: usize)
        ensures
            n == self.reps().len(),
    {
        self.reputations.len()
    }

    /// A firewall with no history.
    pub fn new() -> (f: Self)
        ensures
            f.wf(),
            f.reps().len() == 0,
            f.counts().len() == 0,
    {
        let f = TrustFirewall { reputations: Vec::new(), anomaly_counts: Vec::new() };
        assert(f.reps() =~= Seq::<RepView>::empty());
        assert(f.counts() =~= Seq::<(Seq<char>, usize)>::empty());
        f
    }

    fn count_position(&self, source: &str) -> (r: Option<usize>)
        requires
            self.wf(),
        ensures
            match r {
                Some(i) => i < self.counts().len() && self.counts()[i as int].0 == source@
                    && find_by_key(self.counts(), count_key(), source@) == Some(self.counts()[i as int]),
                None => !has_key(self.counts(), count_key(), source@)
                    && find_by_key(self.counts(), count_key(), source@) is None,
            },
    {
        let mut i: usize = 0;
        while i < self.anomaly_counts.len()
            invariant
                self.wf(),
                i <= self.anomaly_counts.len(),
                forall|k: int| 0 <= k < i ==> self.counts()[k].0 != source@,
            decreases self.anomaly_counts.len() - i,
        {
            assert(self.counts()[i as int].0 == self.anomaly_counts@[i as int].0@);
            if same_text(self.anomaly_counts[i].0.as_str(), source) {
                proof {
                    lemma_find_at(self.counts(), count_key(), i as int);
                }
                return Some(i);
            }
            i += 1;
        }
        None
    }

    fn rep_position(&self, source: &str) -> (r: Option<usize>)
        requires
            self.wf(),
        ensures
            match r {
                Some(i) => i < self.reps().len() && self.reps()[i as int].0 == source@
                    && find_by_key(self.reps(), rep_key(), source@) == Some(self.reps()[i as int]),
                None => !has_key(self.reps(), rep_key(), source@)
                    && find_by_key(self.reps(), rep_key(), source@) is None,
            },
    {
        let mut i: usize = 0;
        while i < self.reputations.len()
            invariant
                self.wf(),
                i <= self.reputations.len(),
                forall|k: int| 0 <= k < i ==> self.reps()[k].0 != source@,
            decreases self.reputations.len() - i,
        {
            assert(self.reps()[i as int].0 == self.reputations@[i as int].source_id@);
            if same_text(self.reputations[i].source_id.as_str(), source) {
                proof {
                    lemma_find_at(self.reps(), rep_key(), i as int);
                }
                return Some(i);
            }
            i += 1;
        }
        None
    }

    /// The number of tone anomalies seen from `source`.
    pub fn anomaly_count(&self, source: &str) -> (n: usize)
        requires
            self.wf(),
        ensures
            n == anomalies_of(self.counts(), source@),
    {
        match self.count_position(source) {
            Some(i) => self.anomaly_counts[i].1,
            None => 0,
        }
    }

    /// Whether the input shows a tone anomaly (urgency, or more than two earlier anomalies
    /// of its source); an anomaly is counted for the source (staying at `usize::MAX`).
    pub fn detect_tone_anomaly(&mut self, source: &str, content: &str) -> (r: bool)
        requires
            old(self).wf(),
        ensures
            final(self).wf(),
            final(self).reps() == old(self).reps(),
            r == (occurring(lowercase(content@), urgency_words()) > 0 || anomalies_of(old(self).counts(), source@) > 2),
            r ==> anomalies_of(final(self).counts(), source@) == (if anomalies_of(old(self).counts(), source@) < usize::MAX {
                (anomalies_of(old(self).counts(), source@) + 1) as usize
            } else {
                anomalies_of(old(self).counts(), source@)
            }),
            r ==> forall|other: Seq<char>| other != source@ ==> find_by_key(final(self).counts(), count_key(), other)
                == find_by_key(old(self).counts(), count_key(), other),
            !r ==> final(self).counts() == old(self).counts(),
    {
        let ghost cs = self.counts();
        let prev = self.anomaly_count(source);
        let r = tone_anomaly(content, prev);
        if r {
            let n = prev.saturating_add(1);
            match self.count_position(source) {
                Some(i) => {
                    proof {
                        lemma_replace(cs, count_key(), i as int, (source@, n));
                    }
                    self.anomaly_counts.set(i, (source.to_owned(), n));
                    assert(self.counts() =~= cs.update(i as int, (source@, n)));
                },
                None => {
                    proof {
                        lemma_append(cs, count_key(), (source@, n));
                    }
                    self.anomaly_counts.push((source.to_owned(), n));
                    assert(self.counts() =~= cs.push((source@, n)));
                },
            }
        }
        r
    }

    /// The reputation of `source`, if it has one.
    pub fn reputation(&self, source: &str) -> (r: Option<SourceReputation>)
        requires
            self.wf(),
        ensures
            match r {
                Some(x) => find_by_key(self.reps(), rep_key(), source@) == Some(rep_view(x)),
                None => find_by_key(self.reps(), rep_key(), source@) is None,
            },
    {
        match self.rep_position(source) {
            Some(i) => Some(self.reputations[i].clone()),
            None => None,
        }
    }

    /// Record one more claim of `source`, verified or false (see `recorded`).
    pub fn update_reputation(&mut self, source: &str, was_correct: bool)
        requires
            old(self).wf(),
        ensures
            final(self).wf(),
            final(self).counts() == old(self).counts(),
            find_by_key(final(self).reps(), rep_key(), source@)
                == Some(recorded(find_by_key(old(self).reps(), rep_key(), source@), source@, was_correct)),
            forall|other: Seq<char>| other != source@ ==> find_by_key(final(self).reps(), rep_key(), other)
                == find_by_key(old(self).reps(), rep_key(), other),
    {
        let ghost rs = self.reps();
        let pos = self.rep_position(source);
        let mut rep = match pos {
            Some(i) => self.reputations[i].clone(),
            None => SourceReputation::new(source.to_owned()),
        };
        proof {
            if let Some(i) = pos {
                assert(rep_view(rep) == rs[i as int]);
            }
        }
        if rep.total_claims < usize::MAX && rep.verified_claims < usize::MAX && rep.false_claims < usize::MAX {
            rep.update(was_correct);
        }
        let ghost nv = rep_view(rep);
        assert(nv == recorded(find_by_key(rs, rep_key(), source@), source@, was_correct));
        match pos {
            Some(i) => {
                proof {
                    lemma_replace(rs, rep_key(), i as int, nv);
                }
                self.reputations.set(i, rep);
                assert(self.reps() =~= rs.update(i as int, nv));
            },
            None => {
                proof {
                    lemma_append(rs, rep_key(), nv);
                }
                self.reputations.push(rep);
                assert(self.reps() =~= rs.push(nv));
            },
        }
    }
}

} // verus!
