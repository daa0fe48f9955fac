//! The texts sent to the LLM (cluster naming, atom grouping, task decomposition, causal
//! questions) and the reading of its plain-text answers.

use vstd::prelude::*;
use crate::graph::node::{Node, NodeView, nodes_view};
use crate::text::{views_of, chars_of, string_from_chars, trim, trim_chars, is_ws};
use super::summary::{decimal, decimal_of};
use super::orchestrator::{split_lines, lines_of, lemma_split_lines_nonempty};

verus! {

/// Texts joined with `sep` between them.
pub open spec fn joined(cs: Seq<Seq<char>>, sep: Seq<char>) -> Seq<char>
    decreases cs.len(),
{
    if cs.len() == 0 {
        Seq::empty()
    } else if cs.len() == 1 {
        cs[0]
    } else {
        joined(cs.drop_last(), sep) + sep + cs.last()
    }
}

/// Append the characters of `s`.
fn push_all(out: &mut Vec<char>, s: &Vec<char>)
    ensures
        final(out)@ == old(out)@ + s@,
{
    let ghost base = out@;
    let mut i: usize = 0;
    while i < s.len()
        invariant
            i <= s.len(),
            out@ == base + s@.take(i as int),
        decreases s.len() - i,
    {
        out.push(s[i]);
        assert(s@.take(i + 1) =~= s@.take(i as int).push(s@[i as int]));
        i += 1;
    }
    assert(s@.take(s.len() as int) =~= s@);
}

/// Texts joined with `sep` between them (see `joined`).
pub fn join_texts(cs: &Vec<Vec<char>>, sep: &str) -> (r: Vec<char>)
    ensures
        r@ == joined(views_of(cs@), sep@),
{
    let sv = chars_of(sep);
    let ghost cv = views_of(cs@);
    let mut out: Vec<char> = Vec::new();
    let mut i: usize = 0;
    while i < cs.len()
        invariant
            i <= cs.len(),
            cv == views_of(cs@),
            sv@ == sep@,
            out@ == joined(cv.take(i as int), sep@),
        decreases cs.len() - i,
    {
        let ghost t1 = cv.take(i + 1);
        assert(t1.drop_last() =~= cv.take(i as int));
        assert(t1.last() == cs@[i as int]@);
        if i > 0 {
            push_all(&mut out, &sv);
        } else {
            assert(t1 =~= seq![cs@[0]@]);
        }
        push_all(&mut out, &cs[i]);
        i += 1;
    }
    assert(cv.take(cs.len() as int) =~= cv);
    out
}

/// `s` with each line feed read as a space.
pub open spec fn one_line(s: Seq<char>) -> Seq<char> {
    s.map_values(|c: char| if c == '\n' { ' ' } else { c })
}

/// One line `<i>: <text>` per text, numbered from `from`, each ending in a line feed.
pub open spec fn numbered(cs: Seq<Seq<char>>, from: nat) -> Seq<char>
    decreases cs.len(),
{
    if cs.len() == 0 {
        Seq::empty()
    } else {
        numbered(cs.drop_last(), from) + decimal_of((from + cs.len() - 1) as nat) + ": "@ + cs.last() + seq!['\n']
    }
}

/// Lines `<i>: <text>`, numbered from zero (see `numbered`).
pub fn number_lines(cs: &Vec<Vec<char>>) -> (r: Vec<char>)
    ensures
        r@ == numbered(views_of(cs@), 0),
{
    let ghost cv = views_of(cs@);
    let colon = chars_of(": ");
    proof {
        reveal_strlit(": ");
    }
    let mut out: Vec<char> = Vec::new();
    let mut i: usize = 0;
    while i < cs.len()
        invariant
            i <= cs.len(),
            cv == views_of(cs@),
            colon@ == ": "@,
            out@ == numbered(cv.take(i as int), 0),
        decreases cs.len() - i,
    {
        let ghost t1 = cv.take(i + 1);
        assert(t1.drop_last() =~= cv.take(i as int));
        assert(t1.last() == cs@[i as int]@);
        let d = decimal(i);
        push_all(&mut out, &d);
        push_all(&mut out, &colon);
        push_all(&mut out, &cs[i]);
        out.push('\n');
        i += 1;
    }
    assert(cv.take(cs.len() as int) =~= cv);
    out
}

/// The contents of a list of nodes, each on one line.
pub open spec fn one_line_contents(ns: Seq<NodeView>) -> Seq<Seq<char>> {
    ns.map_values(|n: NodeView| one_line(n.content))
}

/// The contents of a list of nodes.
pub open spec fn contents_of(ns: Seq<NodeView>) -> Seq<Seq<char>> {
    ns.map_values(|n: NodeView| n.content)
}

/// The contents of a list of nodes, each with line feeds read as spaces when `flat`.
fn node_texts(ns: &Vec<Node>, flat: bool) -> (r: Vec<Vec<char>>)
    ensures
        views_of(r@) == (if flat { one_line_contents(nodes_view(ns@)) } else { contents_of(nodes_view(ns@)) }),
{
    let ghost nv = nodes_view(ns@);
    let ghost want = if flat { one_line_contents(nv) } else { contents_of(nv) };
    let mut r: Vec<Vec<char>> = Vec::new();
    let mut i: usize = 0;
    while i < ns.len()
        invariant
            i <= ns.len(),
            nv == nodes_view(ns@),
            want == (if flat { one_line_contents(nv) } else { contents_of(nv) }),
            views_of(r@) == want.take(i as int),
        decreases ns.len() - i,
    {
        let c = chars_of(ns[i].content.as_str());
        let mut t: Vec<char> = Vec::new();
        let mut j: usize = 0;
        while j < c.len()
            invariant
                j <= c.len(),
                t@ == (if flat { one_line(c@.take(j as int)) } else { c@.take(j as int) }),
            decreases c.len() - j,
        {
            let ch = c[j];
            t.push(if flat && ch == '\n' { ' ' } else { ch });
            assert(c@.take(j + 1) =~= c@.take(j as int).push(ch));
            assert(one_line(c@.take(j + 1)) =~= one_line(c@.take(j as int)).push(if ch == '\n' { ' ' } else { ch }));
            j += 1;
        }
        assert(c@.take(c.len() as int) =~= c@);
        assert(nv[i as int].content == c@);
        let ghost before = views_of(r@);
        r.push(t);
        assert(views_of(r@) =~= before.push(want[i as int]));
        assert(want.take(i + 1) =~= want.take(i as int).push(want[i as int]));
        i += 1;
    }
    assert(want.take(ns.len() as int) =~= want);
    r
}

// ---------------- L0: naming a cluster ----------------

/// The question naming a cluster of domains with these contents.
pub open spec fn cluster_name_question(contents: Seq<Seq<char>>) -> Seq<char> {
    "Дай короткое имя (2-4 слова) области знаний, объединяющей эти домены:\n"@ + joined(contents, seq!['\n'])
        + "\nВерни ТОЛЬКО имя, без пояснений и кавычек."@
}

/// The question naming a cluster with these domain contents; none without contents.
pub fn cluster_name_prompt(contents: &Vec<Vec<char>>) -> (r: Option<String>)
    ensures
        contents@.len() == 0 ==> r is None,
        contents@.len() > 0 ==> (r matches Some(p) && p@ == cluster_name_question(views_of(contents@))),
{
    if contents.len() == 0 {
        return None;
    }
    let body = join_texts(contents, "\n");
    proof {
        reveal_strlit("\n");
        assert("\n"@ =~= seq!['\n']);
    }
    let mut p = "Дай короткое имя (2-4 слова) области знаний, объединяющей эти домены:\n".to_owned();
    p.append(string_from_chars(body.as_slice()).as_str());
    p.append("\nВерни ТОЛЬКО имя, без пояснений и кавычек.");
    Some(p)
}

/// `s` without leading `"` characters.
pub open spec fn unquote_start(s: Seq<char>) -> Seq<char>
    decreases s.len(),
{
    if s.len() > 0 && s[0] == '"' { unquote_start(s.drop_first()) } else { s }
}

/// `s` without trailing `"` characters.
pub open spec fn unquote_end(s: Seq<char>) -> Seq<char>
    decreases s.len(),
{
    if s.len() > 0 && s.last() == '"' { unquote_end(s.drop_last()) } else { s }
}

/// The name in an answer: the first line of the trimmed answer, trimmed, without the
/// quotes around it.
pub open spec fn answer_name(answer: Seq<char>) -> Seq<char> {
    unquote_end(unquote_start(trim(split_lines(trim(answer))[0])))
}

proof fn lemma_unquote_start_at(s: Seq<char>, k: int)
    requires
        0 <= k <= s.len(),
        forall|j: int| 0 <= j < k ==> #[trigger] s[j] == '"',
        k == s.len() || s[k] != '"',
    ensures
        unquote_start(s) == s.subrange(k, s.len() as int),
    decreases k,
{
    if k == 0 {
        assert(s.subrange(0, s.len() as int) =~= s);
    } else {
        let t = s.drop_first();
        assert forall|j: int| 0 <= j < k - 1 implies #[trigger] t[j] == '"' by {
            assert(t[j] == s[j + 1]);
        }
        lemma_unquote_start_at(t, k - 1);
        assert(t.subrange(k - 1, t.len() as int) =~= s.subrange(k, s.len() as int));
    }
}

proof fn lemma_unquote_end_at(s: Seq<char>, k: int)
    requires
        0 <= k <= s.len(),
        forall|j: int| k <= j < s.len() ==> #[trigger] s[j] == '"',
        k == 0 || s[k - 1] != '"',
    ensures
        unquote_end(s) == s.subrange(0, k),
    decreases s.len(),
{
    if s.len() > k {
        let t = s.drop_last();
        assert forall|j: int| k <= j < t.len() implies #[trigger] t[j] == '"' by {
            assert(t[j] == s[j]);
        }
        lemma_unquote_end_at(t, k);
        assert(t.subrange(0, k) =~= s.subrange(0, k));
    } else {
        assert(s.subrange(0, k) =~= s);
    }
}

/// `v` without the `"` characters at its ends.
fn unquote(v: &Vec<char>) -> (r: Vec<char>)
    ensures
        r@ == unquote_end(unquote_start(v@)),
{
    let mut a: usize = 0;
    while a < v.len() && v[a] == '"'
        invariant
            a <= v.len(),
            forall|j: int| 0 <= j < a ==> #[trigger] v@[j] == '"',
        decreases v.len() - a,
    {
        a += 1;
    }
    let mut b: usize = v.len();
    while b > a && v[b - 1] == '"'
        invariant
            a <= b <= v.len(),
            forall|j: int| b <= j < v.len() ==> #[trigger] v@[j] == '"',
        decreases b,
    {
        b -= 1;
    }
    proof {
        lemma_unquote_start_at(v@, a as int);
        let t = v@.subrange(a as int, v.len() as int);
        assert forall|j: int| b - a <= j < t.len() implies #[trigger] t[j] == '"' by {
            assert(t[j] == v@[a + j]);
        }
        if b > a {
            assert(t[b - a - 1] == v@[b - 1]);
        }
        lemma_unquote_end_at(t, b - a);
        assert(t.subrange(0, b - a) =~= v@.subrange(a as int, b as int));
    }
    crate::text::copy_range(v, a, b)
}

/// The cluster content an LLM answer names: `Кластер: <name>` (see `answer_name`), none
/// when the name is empty.
pub fn cluster_name_from_answer(answer: &str) -> (r: Option<String>)
    ensures
        answer_name(answer@).len() == 0 ==> r is None,
        answer_name(answer@).len() > 0 ==> (r matches Some(n) && n@ == "Кластер: "@ + answer_name(answer@)),
{
    let t = trim_chars(&chars_of(answer));
    let ls = lines_of(&t);
    proof {
        lemma_split_lines_nonempty(t@);
    }
    assert(views_of(ls@)[0] == ls@[0]@);
    let first = trim_chars(&ls[0]);
    let name = unquote(&first);
    if name.len() == 0 {
        None
    } else {
        let mut out = "Кластер: ".to_owned();
        out.append(string_from_chars(name.as_slice()).as_str());
        Some(out)
    }
}

// ---------------- L1: grouping atoms ----------------

/// The question grouping atoms into domains: the atoms numbered from zero, one per line.
pub open spec fn grouping_question(atoms: Seq<NodeView>) -> Seq<char> {
    "Сгруппируй факты по темам (доменам). Факты по индексам:\n"@ + numbered(one_line_contents(atoms), 0)
        + "\nВерни ТОЛЬКО JSON-массив групп, формат:\n[{\"name\": \"короткое имя домена (2-4 слова)\", \"members\": [индексы фактов]}]\nПравила: каждый факт в ровно одной группе; близкие по смыслу факты — в один домен."@
}

/// The question grouping atoms into domains (see `grouping_question`).
pub fn grouping_prompt(atoms: &Vec<Node>) -> (r: String)
    ensures
        r@ == grouping_question(nodes_view(atoms@)),
{
    let texts = node_texts(atoms, true);
    let lines = number_lines(&texts);
    let mut p = "Сгруппируй факты по темам (доменам). Факты по индексам:\n".to_owned();
    p.append(string_from_chars(lines.as_slice()).as_str());
    p.append("\nВерни ТОЛЬКО JSON-массив групп, формат:\n[{\"name\": \"короткое имя домена (2-4 слова)\", \"members\": [индексы фактов]}]\nПравила: каждый факт в ровно одной группе; близкие по смыслу факты — в один домен.");
    p
}

// ---------------- Plans: decomposing a task ----------------

/// The name of the plan level a decomposition depth produces.
pub open spec fn level_title(depth: nat) -> Seq<char> {
    if depth == 1 {
        "P1 (стратегические направления)"@
    } else if depth == 2 {
        "P2 (конкретные задачи)"@
    } else if depth == 3 {
        "P3 (подзадачи для выполнения)"@
    } else {
        "подзадачи"@
    }
}

/// The question decomposing a task into `count` subtasks of the level of `depth`.
pub open spec fn decomposition_question(description: Seq<char>, count: nat, depth: nat) -> Seq<char> {
    "Декомпозируй задачу '"@ + description + "' на "@ + decimal_of(count) + " осмысленных подзадач уровня "@
        + level_title(depth)
        + ".\nТребования:\n1. Каждая подзадача должна быть конкретной и измеримой\n2. Избегай общих фраз вроде 'сделать то же самое'\n3. Подзадачи должны покрывать разные аспекты родительской задачи\n4. Формулируй как императивы (сделай X, создай Y)\n5. Верни ТОЛЬКО список подзадач, по одной на строку, без нумерации и маркеров\n6. Никаких дополнительных объяснений, только список\nПример формата вывода:\nСоздать структуру проекта\nРеализовать базовый API\nНастроить CI/CD пайплайн"@
}

/// The question decomposing a task (see `decomposition_question`).
pub fn decomposition_prompt(description: &str, count: usize, depth: usize) -> (r: String)
    ensures
        r@ == decomposition_question(description@, count as nat, depth as nat),
{
    let title = if depth == 1 {
        "P1 (стратегические направления)"
    } else if depth == 2 {
        "P2 (конкретные задачи)"
    } else if depth == 3 {
        "P3 (подзадачи для выполнения)"
    } else {
        "подзадачи"
    };
    let mut p = "Декомпозируй задачу '".to_owned();
    p.append(description);
    p.append("' на ");
    let d = decimal(count);
    p.append(string_from_chars(d.as_slice()).as_str());
    p.append(" осмысленных подзадач уровня ");
    p.append(title);
    p.append(".\nТребования:\n1. Каждая подзадача должна быть конкретной и измеримой\n2. Избегай общих фраз вроде 'сделать то же самое'\n3. Подзадачи должны покрывать разные аспекты родительской задачи\n4. Формулируй как императивы (сделай X, создай Y)\n5. Верни ТОЛЬКО список подзадач, по одной на строку, без нумерации и маркеров\n6. Никаких дополнительных объяснений, только список\nПример формата вывода:\nСоздать структуру проекта\nРеализовать базовый API\nНастроить CI/CD пайплайн");
    p
}

// ---------------- Inference: causal questions ----------------

/// The question asking which relation leads from `source` to `target`.
pub open spec fn relation_question(source: Seq<char>, target: Seq<char>) -> Seq<char> {
    "Источник: «"@ + source + "»\nЦель: «"@ + target
        + "»\n\nКакая связь ведёт от источника к цели? Выбери ОДИН тип:\n- leads_to (источник приводит к цели: причина→следствие)\n- explained_by (цель объясняет источник)\n- inhibits (источник препятствует цели)\n- derived_from (источник выведен из цели)\n- contradicts (источник противоречит цели)\n- related_to (связаны, но без причинности)\n\nВерни ТОЛЬКО JSON: {\"relation\": \"<тип>\", \"confidence\": <0..1>, \"reasoning\": \"<кратко>\"}."@
}

/// The question asking which relation leads from one node to another.
pub fn relation_prompt(source: &Node, target: &Node) -> (r: String)
    ensures
        r@ == relation_question(source.content@, target.content@),
{
    let mut p = "Источник: «".to_owned();
    p.append(source.content.as_str());
    p.append("»\nЦель: «");
    p.append(target.content.as_str());
    p.append("»\n\nКакая связь ведёт от источника к цели? Выбери ОДИН тип:\n- leads_to (источник приводит к цели: причина→следствие)\n- explained_by (цель объясняет источник)\n- inhibits (источник препятствует цели)\n- derived_from (источник выведен из цели)\n- contradicts (источник противоречит цели)\n- related_to (связаны, но без причинности)\n\nВерни ТОЛЬКО JSON: {\"relation\": \"<тип>\", \"confidence\": <0..1>, \"reasoning\": \"<кратко>\"}.");
    p
}

/// The question asking which of the numbered statements contradict each other.
pub open spec fn contradictions_question(nodes: Seq<NodeView>) -> Seq<char> {
    "Ниже пронумерованный список утверждений из памяти. Найди ПАРЫ, которые смыслово противоречат друг другу (одно отрицает/исключает другое), даже если сформулированы разными словами.\n\n"@
        + numbered(contents_of(nodes), 0)
        + "\nВключай пару ТОЛЬКО если утверждения ДЕЙСТВИТЕЛЬНО несовместимы — одно исключает другое. Если они лишь дополняют друг друга, согласуются или связаны причинно — НЕ включай. При сомнении не включай.\nВерни ТОЛЬКО JSON-массив: [{\"a\": <индекс>, \"b\": <индекс>, \"explanation\": \"<кратко почему несовместимы>\"}]. Если противоречий нет — верни []."@
}

/// The question asking which statements contradict each other (see
/// `contradictions_question`).
pub fn contradictions_prompt(nodes: &Vec<Node>) -> (r: String)
    ensures
        r@ == contradictions_question(nodes_view(nodes@)),
{
    let texts = node_texts(nodes, false);
    let lines = number_lines(&texts);
    let mut p = "Ниже пронумерованный список утверждений из памяти. Найди ПАРЫ, которые смыслово противоречат друг другу (одно отрицает/исключает другое), даже если сформулированы разными словами.\n\n".to_owned();
    p.append(string_from_chars(lines.as_slice()).as_str());
    p.append("\nВключай пару ТОЛЬКО если утверждения ДЕЙСТВИТЕЛЬНО несовместимы — одно исключает другое. Если они лишь дополняют друг друга, согласуются или связаны причинно — НЕ включай. При сомнении не включай.\nВерни ТОЛЬКО JSON-массив: [{\"a\": <индекс>, \"b\": <индекс>, \"explanation\": \"<кратко почему несовместимы>\"}]. Если противоречий нет — верни [].");
    p
}

/// The question rating the severity of each numbered effect of a cause.
pub open spec fn severity_question(cause: Seq<char>, effects: Seq<Seq<char>>) -> Seq<char> {
    "Причина: «"@ + cause + "»\n\nОцени СЕРЬЁЗНОСТЬ каждого последствия по смыслу (0.0 незначимо … 1.0 критично):\n\n"@
        + numbered(effects, 0) + "\nВерни ТОЛЬКО JSON-массив: [{\"i\": <индекс>, \"severity\": <0..1>}]."@
}

/// The question rating the severity of the effects of a cause (see `severity_question`).
pub fn severity_prompt(cause: &str, effects: &Vec<Vec<char>>) -> (r: String)
    ensures
        r@ == severity_question(cause@, views_of(effects@)),
{
    let lines = number_lines(effects);
    let mut p = "Причина: «".to_owned();
    p.append(cause);
    p.append("»\n\nОцени СЕРЬЁЗНОСТЬ каждого последствия по смыслу (0.0 незначимо … 1.0 критично):\n\n");
    p.append(string_from_chars(lines.as_slice()).as_str());
    p.append("\nВерни ТОЛЬКО JSON-массив: [{\"i\": <индекс>, \"severity\": <0..1>}].");
    p
}

/// One line `- <text>` per text.
pub open spec fn bulleted(cs: Seq<Seq<char>>) -> Seq<char>
    decreases cs.len(),
{
    if cs.len() == 0 { Seq::empty() } else { bulleted(cs.drop_last()) + seq!['-', ' '] + cs.last() + seq!['\n'] }
}

/// The question generalising similar causes into one rule.
pub open spec fn rule_question(causes: Seq<NodeView>) -> Seq<char> {
    "Ниже похожие ПРИЧИНЫ из памяти. Обобщи их в одно правило IF … THEN … .\n\n"@ + bulleted(contents_of(causes))
        + "\nВерни ТОЛЬКО JSON: {\"if_conditions\": [\"...\"], \"then_effect\": \"...\"}."@
}

/// The question generalising similar causes into one rule (see `rule_question`).
pub fn rule_prompt(causes: &Vec<Node>) -> (r: String)
    ensures
        r@ == rule_question(nodes_view(causes@)),
{
    let texts = node_texts(causes, false);
    let ghost tv = views_of(texts@);
    let mut lines: Vec<char> = Vec::new();
    let mut i: usize = 0;
    while i < texts.len()
        invariant
            i <= texts.len(),
            tv == views_of(texts@),
            lines@ == bulleted(tv.take(i as int)),
        decreases texts.len() - i,
    {
        assert(tv.take(i + 1).drop_last() =~= tv.take(i as int));
        assert(tv.take(i + 1).last() == texts@[i as int]@);
        lines.push('-');
        lines.push(' ');
        push_all(&mut lines, &texts[i]);
        lines.push('\n');
        i += 1;
    }
    assert(tv.take(texts.len() as int) =~= tv);
    let mut p = "Ниже похожие ПРИЧИНЫ из памяти. Обобщи их в одно правило IF … THEN … .\n\n".to_owned();
    p.append(string_from_chars(lines.as_slice()).as_str());
    p.append("\nВерни ТОЛЬКО JSON: {\"if_conditions\": [\"...\"], \"then_effect\": \"...\"}.");
    p
}

} // verus!
