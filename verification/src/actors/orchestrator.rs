//! OrchestratorActor: task-size estimation, decomposition depth and the handling of the
//! LLM's decomposition answers.

use vstd::prelude::*;
use crate::text::{str_contains, chars_of, string_from_chars, trim_chars, trim, is_substring, lowercase, to_lowercase,
    copy_range, starts_with_chars, has_prefix, views_of};
use crate::graph::node::strings_view;
use crate::keyed::{lemma_filter_step, lemma_take_full};
use super::config::str_views;
use super::llm_client::LlmClient;
use super::plan_actor::PlanError;

verus! {

/// Size category of a task, which fixes how deep it is decomposed.
#[derive(Debug, Clone, Copy, PartialEq, Eq, Structural)]
pub enum SizeCategory {
    /// No decomposition (depth 0).
    Tiny,
    /// P0 → P1 (depth 1).
    Small,
    /// P0 → P1 → P2 (depth 2).
    Medium,
    /// P0 → P1 → P2 → P3 (depth 3).
    Large,
}

/// The decomposition depth of a size category.
pub open spec fn depth_of(s: SizeCategory) -> nat {
    match s {
        SizeCategory::Tiny => 0,
        SizeCategory::Small => 1,
        SizeCategory::Medium => 2,
        SizeCategory::Large => 3,
    }
}

impl SizeCategory {
    /// The decomposition depth of this category.
    pub fn depth(&self) -> (d: usize)
        ensures
            d == depth_of(*self),
    {
        match self {
            SizeCategory::Tiny => 0,
            SizeCategory::Small => 1,
            SizeCategory::Medium => 2,
            SizeCategory::Large => 3,
        }
    }
}

/// Words that mark a task as an action (compared in lower case).
pub open spec fn action_words() -> Seq<Seq<char>> {
    seq!["создать"@, "сделать"@, "реализовать"@, "implement"@, "build"@, "create"@]
}

/// Words that name a domain of work (compared in lower case).
pub open spec fn domain_keywords() -> Seq<Seq<char>> {
    seq!["frontend"@, "backend"@, "database"@, "api"@, "ui"@, "ux"@, "mobile"@, "web"@, "devops"@,
        "security"@, "analytics"@, "фронтенд"@, "бэкенд"@, "база данных"@, "мобильный"@, "веб"@]
}

/// The predicate "occurs in `low`" over words.
pub open spec fn occurs_in(low: Seq<char>) -> spec_fn(Seq<char>) -> bool {
    |w: Seq<char>| is_substring(low, w)
}

/// The size category of a task from its length in bytes, whether it names an action and
/// how many domains it names: short and without action is tiny; up to 200 bytes and no
/// domain is small; up to 1000 bytes and at most three domains is medium; the rest large.
pub open spec fn size_rule(len: nat, action: bool, domains: nat) -> SizeCategory {
    if len <= 50 && !action {
        SizeCategory::Tiny
    } else if len <= 200 && domains == 0 {
        SizeCategory::Small
    } else if len <= 1000 && domains <= 3 {
        SizeCategory::Medium
    } else {
        SizeCategory::Large
    }
}

/// The size category of a task description (its length counted in UTF-8 bytes).
pub open spec fn size_of(d: Seq<char>) -> SizeCategory {
    let low = lowercase(d);
    size_rule(
        (vstd::utf8::encode_utf8(d).len() as usize) as nat,
        exists|i: int| 0 <= i < action_words().len() && is_substring(low, #[trigger] action_words()[i]),
        domain_keywords().filter(occurs_in(low)).len(),
    )
}

/// The suggested number of children at a decomposition depth.
pub open spec fn suggested_count_of(depth: nat) -> nat {
    if depth == 1 || depth == 2 { 3 } else { 2 }
}

/// A character equals the lower-case ASCII character `t`, ignoring ASCII case.
pub open spec fn same_ci(c: char, t: char) -> bool {
    c == t || ('A' <= c <= 'Z' && (c as u32) + 32 == (t as u32))
}

/// `tag` occurs at position `i` of `s`, ignoring ASCII case.
pub open spec fn ci_at(s: Seq<char>, i: int, tag: Seq<char>) -> bool {
    0 <= i && i + tag.len() <= s.len() && forall|j: int| 0 <= j < tag.len() ==> same_ci(#[trigger] s[i + j], tag[j])
}

/// The first position at or after `from` where `tag` occurs, ignoring ASCII case.
pub open spec fn find_ci(s: Seq<char>, tag: Seq<char>, from: int) -> Option<int>
    decreases s.len() - from,
{
    if from < 0 || from + tag.len() > s.len() {
        None
    } else if ci_at(s, from, tag) {
        Some(from)
    } else {
        find_ci(s, tag, from + 1)
    }
}

/// The case-insensitive search from `from` finds the first position of the tag there,
/// or reports that there is none.
pub proof fn lemma_find_ci(s: Seq<char>, tag: Seq<char>, from: int)
    requires
        0 <= from,
    ensures
        find_ci(s, tag, from) matches Some(o) ==> from <= o && ci_at(s, o, tag)
            && forall|p: int| from <= p < o ==> !ci_at(s, p, tag),
        find_ci(s, tag, from) is None ==> forall|p: int| from <= p ==> !ci_at(s, p, tag),
    decreases s.len() - from,
{
    if from + tag.len() <= s.len() && !ci_at(s, from, tag) {
        lemma_find_ci(s, tag, from + 1);
    }
}

/// The opening reasoning tag.
pub open spec fn think_open() -> Seq<char> {
    seq!['<', 't', 'h', 'i', 'n', 'k', '>']
}

/// The closing reasoning tag.
pub open spec fn think_close() -> Seq<char> {
    seq!['<', '/', 't', 'h', 'i', 'n', 'k', '>']
}

/// The text of `s` from `i` on with every reasoning block removed: each run from an
/// opening tag to the end of the next closing tag goes, and an unclosed block runs to the
/// end of the text.
pub open spec fn strip_from(s: Seq<char>, i: int) -> Seq<char>
    decreases s.len() - i,
{
    if i < 0 || i > s.len() {
        Seq::empty()
    } else {
        match find_ci(s, think_open(), i) {
            None => s.subrange(i, s.len() as int),
            Some(o) => s.subrange(i, o) + match find_ci(s, think_close(), o) {
                None => Seq::empty(),
                Some(c) => {
                    proof {
                        lemma_find_ci(s, think_open(), i);
                        lemma_find_ci(s, think_close(), o);
                    }
                    strip_from(s, c + 8)
                },
            },
        }
    }
}

/// A reasoning model's answer without its reasoning blocks, trimmed.
pub open spec fn stripped(s: Seq<char>) -> Seq<char> {
    trim(strip_from(s, 0))
}

/// The first position at or after `from` where `tag` occurs in `s`, ignoring ASCII case.
fn find_tag(s: &Vec<char>, tag: &Vec<char>, from: usize) -> (r: Option<usize>)
    ensures
        match r {
            Some(o) => find_ci(s@, tag@, from as int) == Some(o as int),
            None => find_ci(s@, tag@, from as int) is None,
        },
{
    let mut p: usize = from;
    while tag.len() <= s.len() && p <= s.len() - tag.len()
        invariant
            from <= p,
            find_ci(s@, tag@, from as int) == find_ci(s@, tag@, p as int),
        decreases s.len() - p,
    {
        let mut j: usize = 0;
        let mut ok = true;
        while j < tag.len()
            invariant
                j <= tag.len(),
                p + tag.len() <= s.len(),
                ok == forall|k: int| 0 <= k < j ==> same_ci(#[trigger] s@[p + k], tag@[k]),
            decreases tag.len() - j,
        {
            let c = s[p + j];
            let t = tag[j];
            let same = c == t || ('A' <= c && c <= 'Z' && (c as u32) + 32 == (t as u32));
            if !same {
                ok = false;
            }
            j += 1;
        }
        if ok {
            return Some(p);
        }
        p += 1;
    }
    None
}

/// Append `s[a..b]` to `out`.
fn push_range(out: &mut Vec<char>, s: &Vec<char>, a: usize, b: usize)
    requires
        a <= b <= s.len(),
    ensures
        final(out)@ == old(out)@ + s@.subrange(a as int, b as int),
{
    let mut i: usize = a;
    while i < b
        invariant
            a <= i <= b <= s.len(),
            out@ == old(out)@ + s@.subrange(a as int, i as int),
        decreases b - i,
    {
        out.push(s[i]);
        assert(s@.subrange(a as int, i + 1) =~= s@.subrange(a as int, i as int).push(s@[i as int]));
        i += 1;
    }
}

/// Remove the `<think>…</think>` reasoning blocks (tags matched regardless of ASCII
/// case; an unclosed block runs to the end) from an LLM answer, and trim it.
pub fn strip_reasoning(text: &str) -> (r: String)
    ensures
        r@ == stripped(text@),
{
    let s = chars_of(text);
    let open: Vec<char> = vec!['<', 't', 'h', 'i', 'n', 'k', '>'];
    let close: Vec<char> = vec!['<', '/', 't', 'h', 'i', 'n', 'k', '>'];
    assert(open@ =~= think_open());
    assert(close@ =~= think_close());
    let mut out: Vec<char> = Vec::new();
    let mut i: usize = 0;
    loop
        invariant_except_break
            out@ + strip_from(s@, i as int) == strip_from(s@, 0),
        invariant
            i <= s.len(),
            s@ == text@,
            open@ == think_open(),
            close@ == think_close(),
        ensures
            out@ == strip_from(s@, 0),
        decreases s.len() - i,
    {
        let ghost before = out@;
        match find_tag(&s, &open, i) {
            None => {
                push_range(&mut out, &s, i, s.len());
                assert(out@ =~= before + strip_from(s@, i as int));
                break;
            },
            Some(o) => {
                proof {
                    lemma_find_ci(s@, think_open(), i as int);
                }
                push_range(&mut out, &s, i, o);
                match find_tag(&s, &close, o) {
                    None => {
                        assert(out@ =~= before + strip_from(s@, i as int));
                        break;
                    },
                    Some(c) => {
                        proof {
                            lemma_find_ci(s@, think_close(), o as int);
                        }
                        assert(out@ + strip_from(s@, c + 8) =~= before + strip_from(s@, i as int));
                        i = c + 8;
                    },
                }
            },
        }
    }
    assert(out@ =~= strip_from(s@, 0));
    let t = trim_chars(&out);
    string_from_chars(t.as_slice())
}

/// Orchestrator: estimates task sizes and turns LLM answers into subtasks. It holds the
/// LLM client and, for tests, a queue of prepared answers.
pub struct OrchestratorActor {
    llm: LlmClient,
    test_responses: Vec<Vec<String>>,
}

impl OrchestratorActor {
    /// The prepared answers, oldest first.
    pub closed spec fn prepared(&self) -> Seq<Vec<String>> {
        self.test_responses@
    }

    /// The LLM client's settings.
    pub closed spec fn client(&self) -> super::llm_client::LlmClientView {
        self.llm@
    }

    /// An orchestrator with explicit LLM settings and no prepared answers.
    pub fn new(llm_base_url: String, llm_api_key: Option<String>, llm_model: String) -> (o: Self)
        ensures
            o.prepared().len() == 0,
            o.client().provider == super::config::LlmProvider::OpenAICompatible,
            o.client().base_url == llm_base_url@,
            o.client().api_key == crate::graph::node::opt_view(llm_api_key),
            o.client().model == llm_model@,
            o.client().timeout_secs == 30,
    {
        OrchestratorActor {
            llm: LlmClient::new(llm_base_url, llm_api_key, llm_model),
            test_responses: Vec::new(),
        }
    }

    /// An orchestrator around a ready LLM client.
    pub fn with_client(llm: LlmClient) -> (o: Self)
        ensures
            o.prepared().len() == 0,
            o.client() == llm@,
    {
        OrchestratorActor { llm, test_responses: Vec::new() }
    }

    /// The same orchestrator with `responses` as its queue of prepared answers.
    pub fn with_test_responses(self, responses: Vec<Vec<String>>) -> (o: Self)
        ensures
            o.prepared() == responses@,
            o.client() == self.client(),
    {
        OrchestratorActor { llm: self.llm, test_responses: responses }
    }

    /// Queue one more prepared answer.
    pub fn add_test_response(&mut self, response: Vec<String>)
        ensures
            final(self).prepared() == old(self).prepared().push(response),
            final(self).client() == old(self).client(),
    {
        self.test_responses.push(response);
    }

    /// Take the oldest queued prepared answer, if any: answers come out in the order
    /// they were queued.
    pub fn next_test_response(&mut self) -> (r: Option<Vec<String>>)
        ensures
            old(self).prepared().len() == 0 ==> r is None && final(self).prepared() == old(self).prepared(),
            old(self).prepared().len() > 0 ==> r == Some(old(self).prepared()[0])
                && final(self).prepared() == old(self).prepared().drop_first(),
            final(self).client() == old(self).client(),
    {
        if self.test_responses.len() > 0 {
            let first = self.test_responses.remove(0);
            proof {
                assert(self.test_responses@ =~= old(self).test_responses@.drop_first());
            }
            Some(first)
        } else {
            None
        }
    }

    /// The LLM client.
    pub fn llm(&self) -> (c: &LlmClient)
        ensures
            c@ == self.client(),
    {
        &self.llm
    }

    /// Estimate the size of a task from its description: its length in bytes, whether it
    /// names an action and how many domains it names (words compared in lower case).
    pub fn estimate_size(&self, description: &str) -> (s: SizeCategory)
        ensures
            s == size_of(description@),
    {
        let low = to_lowercase(description);
        let actions: [&str; 6] = ["создать", "сделать", "реализовать", "implement", "build", "create"];
        assert(str_views(actions@) =~= action_words());
        let mut has_action = false;
        let mut i: usize = 0;
        while i < actions.len()
            invariant
                i <= actions@.len(),
                str_views(actions@) == action_words(),
                low@ == lowercase(description@),
                has_action == exists|k: int| 0 <= k < i && is_substring(low@, #[trigger] action_words()[k]),
            decreases actions@.len() - i,
        {
            assert(action_words()[i as int] == actions@[i as int]@);
            if str_contains(low.as_str(), actions[i]) {
                has_action = true;
            }
            i += 1;
        }
        let domains: [&str; 16] = ["frontend", "backend", "database", "api", "ui", "ux", "mobile", "web",
            "devops", "security", "analytics", "фронтенд", "бэкенд", "база данных", "мобильный", "веб"];
        assert(str_views(domains@) =~= domain_keywords());
        let mut count: usize = 0;
        let mut j: usize = 0;
        while j < domains.len()
            invariant
                j <= domains@.len(),
                str_views(domains@) == domain_keywords(),
                low@ == lowercase(description@),
                count == domain_keywords().take(j as int).filter(occurs_in(low@)).len(),
                count <= j,
            decreases domains@.len() - j,
        {
            proof {
                lemma_filter_step(domain_keywords(), occurs_in(low@), j as int);
            }
            assert(domain_keywords()[j as int] == domains@[j as int]@);
            if str_contains(low.as_str(), domains[j]) {
                count += 1;
            }
            j += 1;
        }
        let len = description.len();
        proof {
            lemma_take_full(domain_keywords());
            assert(has_action == exists|k: int| 0 <= k < action_words().len() && is_substring(lowercase(description@), #[trigger] action_words()[k]));
            assert(count == domain_keywords().filter(occurs_in(lowercase(description@))).len());
        }
        if len <= 50 && !has_action {
            SizeCategory::Tiny
        } else if len <= 200 && count == 0 {
            SizeCategory::Small
        } else if len <= 1000 && count <= 3 {
            SizeCategory::Medium
        } else {
            SizeCategory::Large
        }
    }

    /// The decomposition depth for a size category.
    pub fn depth_for_size(&self, size: SizeCategory) -> (d: usize)
        ensures
            d == depth_of(size),
    {
        size.depth()
    }

    /// The suggested number of subtasks at a depth: three for P1 and P2, two otherwise.
    pub fn suggested_count(&self, depth: usize) -> (n: usize)
        ensures
            n == suggested_count_of(depth as nat),
    {
        if depth == 1 || depth == 2 { 3 } else { 2 }
    }
}

/// The pieces of `s` between line feeds (one more than there are line feeds).
pub open spec fn split_lines(s: Seq<char>) -> Seq<Seq<char>>
    decreases s.len(),
{
    if s.len() == 0 {
        seq![Seq::<char>::empty()]
    } else {
        let p = split_lines(s.drop_last());
        if s.last() == '\n' { p.push(Seq::empty()) } else { p.update(p.len() - 1, p.last().push(s.last())) }
    }
}

/// Splitting a text into lines gives at least one line.
pub proof fn lemma_split_lines_nonempty(s: Seq<char>)
    ensures
        split_lines(s).len() >= 1,
    decreases s.len(),
{
    if s.len() > 0 {
        lemma_split_lines_nonempty(s.drop_last());
    }
}

/// Which leading characters a list line may carry.
#[derive(Clone, Copy, PartialEq, Eq, Structural)]
pub enum Lead {
    /// List markers `-`, `*`, `•`, `·`, `–`, `—`.
    Marker,
    /// ASCII digits of a numbering.
    Digit,
    /// `.` or `)` after a number.
    Close,
}

/// `c` is a leading character of kind `k`.
pub open spec fn is_lead(k: Lead, c: char) -> bool {
    match k {
        Lead::Marker => c == '-' || c == '*' || c == '•' || c == '·' || c == '–' || c == '—',
        Lead::Digit => '0' <= c <= '9',
        Lead::Close => c == '.' || c == ')',
    }
}

/// `s` without its leading characters of kind `k`.
pub open spec fn drop_lead(s: Seq<char>, k: Lead) -> Seq<char>
    decreases s.len(),
{
    if s.len() > 0 && is_lead(k, s[0]) { drop_lead(s.drop_first(), k) } else { s }
}

/// What a line of a decomposition answer contributes: the trimmed line without list
/// markers and numbering; nothing for blank lines, headings (`#`), code fences and short
/// preambles ending in `:`.
pub open spec fn child_line(l: Seq<char>) -> Option<Seq<char>> {
    let t = trim(l);
    if t.len() == 0 || has_prefix(t, seq!['#']) || has_prefix(t, seq!['`', '`', '`']) {
        None
    } else {
        let c = trim(drop_lead(drop_lead(trim(drop_lead(t, Lead::Marker)), Lead::Digit), Lead::Close));
        if c.len() == 0 || (c.last() == ':' && c.len() < 40) { None } else { Some(c) }
    }
}

/// The contributions of a list of lines, in order.
pub open spec fn child_lines(ls: Seq<Seq<char>>) -> Seq<Seq<char>>
    decreases ls.len(),
{
    if ls.len() == 0 {
        Seq::empty()
    } else {
        let r = child_lines(ls.drop_last());
        match child_line(ls.last()) {
            Some(c) => r.push(c),
            None => r,
        }
    }
}

/// The subtasks of an LLM decomposition answer: its lines, reasoning removed, each
/// cleaned as `child_line` says.
pub open spec fn children_of(answer: Seq<char>) -> Seq<Seq<char>> {
    child_lines(split_lines(stripped(answer)))
}

/// Whether `c` is a leading character of kind `k`.
fn lead_char(k: Lead, c: char) -> (b: bool)
    ensures
        b == is_lead(k, c),
{
    match k {
        Lead::Marker => c == '-' || c == '*' || c == '•' || c == '·' || c == '–' || c == '—',
        Lead::Digit => '0' <= c && c <= '9',
        Lead::Close => c == '.' || c == ')',
    }
}

proof fn lemma_drop_lead_at(s: Seq<char>, k: Lead, n: int)
    requires
        0 <= n <= s.len(),
        forall|j: int| 0 <= j < n ==> is_lead(k, #[trigger] s[j]),
        n == s.len() || !is_lead(k, s[n]),
    ensures
        drop_lead(s, k) == s.subrange(n, s.len() as int),
    decreases n,
{
    if n == 0 {
        assert(s.subrange(0, s.len() as int) =~= s);
    } else {
        let t = s.drop_first();
        assert forall|j: int| 0 <= j < n - 1 implies is_lead(k, #[trigger] t[j]) by {
            assert(t[j] == s[j + 1]);
        }
        lemma_drop_lead_at(t, k, n - 1);
        assert(t.subrange(n - 1, t.len() as int) =~= s.subrange(n, s.len() as int));
    }
}

/// `v` without its leading characters of kind `k`.
fn drop_leading(v: &Vec<char>, k: Lead) -> (r: Vec<char>)
    ensures
        r@ == drop_lead(v@, k),
{
    let mut n: usize = 0;
    while n < v.len() && lead_char(k, v[n])
        invariant
            n <= v.len(),
            forall|j: int| 0 <= j < n ==> is_lead(k, #[trigger] v@[j]),
        decreases v.len() - n,
    {
        n += 1;
    }
    proof {
        lemma_drop_lead_at(v@, k, n as int);
    }
    copy_range(v, n, v.len())
}

/// The contribution of one line (see `child_line`).
fn clean_line(l: &Vec<char>) -> (r: Option<Vec<char>>)
    ensures
        match r {
            Some(c) => child_line(l@) == Some(c@),
            None => child_line(l@) is None,
        },
{
    let t = trim_chars(l);
    let hash: Vec<char> = vec!['#'];
    let fence: Vec<char> = vec!['`', '`', '`'];
    assert(hash@ =~= seq!['#']);
    assert(fence@ =~= seq!['`', '`', '`']);
    if t.len() == 0 || starts_with_chars(&t, &hash) || starts_with_chars(&t, &fence) {
        return None;
    }
    let a = drop_leading(&t, Lead::Marker);
    let b = trim_chars(&a);
    let c = drop_leading(&b, Lead::Digit);
    let d = drop_leading(&c, Lead::Close);
    let e = trim_chars(&d);
    if e.len() == 0 || (e[e.len() - 1] == ':' && e.len() < 40) {
        None
    } else {
        Some(e)
    }
}

/// Split `s` at its line feeds.
pub fn lines_of(s: &Vec<char>) -> (r: Vec<Vec<char>>)
    ensures
        views_of(r@) == split_lines(s@),
{
    let mut done: Vec<Vec<char>> = Vec::new();
    let mut cur: Vec<char> = Vec::new();
    let mut i: usize = 0;
    proof {
        assert(s@.take(0) =~= Seq::<char>::empty());
        assert(views_of(done@).push(cur@) =~= split_lines(s@.take(0)));
    }
    while i < s.len()
        invariant
            i <= s.len(),
            views_of(done@).push(cur@) == split_lines(s@.take(i as int)),
        decreases s.len() - i,
    {
        let ghost pre = s@.take(i as int);
        let ghost post = s@.take(i + 1);
        assert(post.drop_last() =~= pre);
        assert(post.last() == s@[i as int]);
        let ghost dv = views_of(done@);
        if s[i] == '\n' {
            let finished = cur;
            done.push(finished);
            cur = Vec::new();
            assert(views_of(done@).push(cur@) =~= dv.push(finished@).push(Seq::empty()));
        } else {
            let ghost c0 = cur@;
            cur.push(s[i]);
            assert(views_of(done@).push(cur@) =~= dv.push(c0).update(dv.len() as int, c0.push(s@[i as int])));
        }
        i += 1;
    }
    assert(s@.take(s.len() as int) =~= s@);
    let ghost dv = views_of(done@);
    let last = cur;
    done.push(last);
    assert(views_of(done@) =~= dv.push(last@));
    done
}

/// The subtasks of an LLM decomposition answer (see `children_of`).
pub fn parse_children(answer: &str) -> (r: Vec<String>)
    ensures
        strings_view(r@) == children_of(answer@),
{
    let text = strip_reasoning(answer);
    let ls = lines_of(&chars_of(text.as_str()));
    let ghost lv = split_lines(stripped(answer@));
    let mut out: Vec<String> = Vec::new();
    let mut i: usize = 0;
    while i < ls.len()
        invariant
            i <= ls.len(),
            views_of(ls@) == lv,
            strings_view(out@) == child_lines(lv.take(i as int)),
        decreases ls.len() - i,
    {
        assert(lv.take(i + 1).drop_last() =~= lv.take(i as int));
        assert(lv.take(i + 1).last() == ls@[i as int]@);
        match clean_line(&ls[i]) {
            Some(c) => {
                let ghost before = strings_view(out@);
                out.push(string_from_chars(c.as_slice()));
                assert(strings_view(out@) =~= before.push(c@));
            },
            None => {},
        }
        i += 1;
    }
    assert(lv.take(ls.len() as int) =~= lv);
    out
}

} // verus!

verus! {

/// No subtask of a decomposition answer is empty: every line that contributes keeps at
/// least one character once cleaned.
pub proof fn law_children_nonblank(answer: Seq<char>)
    ensures
        forall|i: int| 0 <= i < children_of(answer).len() ==> #[trigger] children_of(answer)[i].len() > 0,
{
    lemma_child_lines_nonblank(split_lines(stripped(answer)));
}

proof fn lemma_child_lines_nonblank(ls: Seq<Seq<char>>)
    ensures
        forall|i: int| 0 <= i < child_lines(ls).len() ==> #[trigger] child_lines(ls)[i].len() > 0,
    decreases ls.len(),
{
    if ls.len() > 0 {
        let r = child_lines(ls.drop_last());
        lemma_child_lines_nonblank(ls.drop_last());
        match child_line(ls.last()) {
            Some(c) => {
                assert(c.len() > 0);
                assert forall|i: int| 0 <= i < r.push(c).len() implies #[trigger] r.push(c)[i].len() > 0 by {
                    if i < r.len() {
                        assert(r.push(c)[i] == r[i]);
                    }
                }
            },
            None => {},
        }
    }
}

/// The subtasks of a decomposition answer, refused as `EmptyDecomposition` when no line
/// of it contributes one. What is handed back is never empty and holds no empty subtask.
pub fn children_from_answer(answer: &str) -> (r: Result<Vec<String>, PlanError>)
    ensures
        children_of(answer@).len() == 0 <==> r == Err::<Vec<String>, PlanError>(PlanError::EmptyDecomposition),
        children_of(answer@).len() > 0 ==> (r matches Ok(v) && strings_view(v@) == children_of(answer@)),
        r matches Ok(v) ==> v@.len() > 0 && forall|i: int| 0 <= i < v@.len() ==> #[trigger] v@[i]@.len() > 0,
{
    let children = parse_children(answer);
    proof {
        law_children_nonblank(answer@);
        assert forall|i: int| 0 <= i < children@.len() implies #[trigger] children@[i]@.len() > 0 by {
            assert(strings_view(children@)[i] == children@[i]@);
        }
    }
    if children.len() == 0 {
        Err(PlanError::EmptyDecomposition)
    } else {
        Ok(children)
    }
}

} // verus!

verus! {

/// Prepared answers form a queue: after queuing `a` behind `q` (as `add_test_response`
/// does), the next answer taken (as `next_test_response` takes it) is the oldest of `q`,
/// or `a` itself when `q` was empty, and `a` stays last.
pub proof fn law_prepared_answers_queue(q: Seq<Vec<String>>, a: Vec<String>)
    ensures
        q.len() > 0 ==> q.push(a)[0] == q[0] && q.push(a).drop_first() == q.drop_first().push(a),
        q.len() == 0 ==> q.push(a)[0] == a && q.push(a).drop_first().len() == 0,
{
    if q.len() > 0 {
        assert(q.push(a).drop_first() =~= q.drop_first().push(a));
    }
}

} // verus!
