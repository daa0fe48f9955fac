//! Reading the JSON answers of the LLM: atom groups, contradictions between statements,
//! a causal relation, a generalised rule, and severity ratings. Each reader takes the
//! part of the answer from its first opening bracket to its last closing one.

use vstd::prelude::*;
use crate::graph::node::{Node, NodeId, NodeView, nodes_view};
use crate::graph::edge::Relation;
use crate::text::{chars_of, string_from_chars, same_text};
use crate::graph::node::strings_view;
use crate::json::{Json, JsonView, json_view, jsons_view, parse_json, parsed_json, bracketed, bracketed_part, field,
    unsigned_of, text_of, items_of, number_text_of};
use super::causal_engine::{Contradiction, ConflictType};
use super::inference::{relation_named, parse_relation_name};
use super::l1::groups_view;

verus! {

/// The JSON value in the part of `response` between `open` and `close`, if it parses.
pub open spec fn answer_json(response: Seq<char>, open: char, close: char) -> Option<JsonView> {
    match bracketed(response, open, close) {
        Some(t) => parsed_json(t),
        None => None,
    }
}

/// The JSON value in the part of `response` between `open` and `close` (see
/// `answer_json`).
pub fn read_answer(response: &str, open: char, close: char) -> (r: Option<Json>)
    ensures
        match r {
            Some(j) => answer_json(response@, open, close) == Some(json_view(j)),
            None => answer_json(response@, open, close) is None,
        },
{
    let cs = chars_of(response);
    match bracketed_part(&cs, open, close) {
        Some(part) => {
            let text = string_from_chars(part.as_slice());
            parse_json(text.as_str())
        },
        None => None,
    }
}

/// The items of an array value (none for other values).
fn array_items(j: &Json) -> (r: Option<&Vec<Json>>)
    ensures
        match r {
            Some(v) => json_view(*j) == JsonView::Array(jsons_view(v@)),
            None => !(json_view(*j) is Array),
        },
{
    match j {
        Json::Array(v) => {
            let ghost q = match json_view(*j) {
                JsonView::Array(q) => q,
                _ => Seq::empty(),
            };
            assert(q =~= jsons_view(v@));
            Some(v)
        },
        _ => None,
    }
}

// ---------------- atom groups ----------------

/// The ids of the atoms named by the index numbers among `xs`, in order; items that are
/// not unsigned numbers, or name no atom, are skipped.
pub open spec fn member_ids(xs: Seq<JsonView>, atoms: Seq<NodeView>) -> Seq<Seq<char>>
    decreases xs.len(),
{
    if xs.len() == 0 {
        Seq::empty()
    } else {
        let r = member_ids(xs.drop_last(), atoms);
        match unsigned_of(Some(xs.last())) {
            Some(i) => if i < atoms.len() { r.push(atoms[i as int].id) } else { r },
            None => r,
        }
    }
}

/// The group an item describes: its `name` (`Домен` when there is no text) and the atoms
/// its `members` name.
pub open spec fn group_of(item: JsonView, atoms: Seq<NodeView>) -> (Seq<char>, Seq<Seq<char>>) {
    (
        match text_of(field(item, "name"@)) {
            Some(t) => t,
            None => "Домен"@,
        },
        match items_of(field(item, "members"@)) {
            Some(xs) => member_ids(xs, atoms),
            None => Seq::empty(),
        },
    )
}

/// The groups the items describe that have members, in order.
pub open spec fn groups_from(items: Seq<JsonView>, atoms: Seq<NodeView>) -> Seq<(Seq<char>, Seq<Seq<char>>)>
    decreases items.len(),
{
    if items.len() == 0 {
        Seq::empty()
    } else {
        let r = groups_from(items.drop_last(), atoms);
        let g = group_of(items.last(), atoms);
        if g.1.len() > 0 { r.push(g) } else { r }
    }
}

/// The grouping an answer holds: the groups of its array (none for other answers).
pub open spec fn grouping_answer(response: Seq<char>, atoms: Seq<NodeView>) -> Seq<(Seq<char>, Seq<Seq<char>>)> {
    match answer_json(response, '[', ']') {
        Some(JsonView::Array(items)) => groups_from(items, atoms),
        _ => Seq::empty(),
    }
}

/// The atoms named by index numbers (see `member_ids`).
fn members_from(xs: &Vec<Json>, atoms: &Vec<Node>) -> (r: Vec<NodeId>)
    ensures
        crate::components::ids_view(r@) == member_ids(jsons_view(xs@), nodes_view(atoms@)),
{
    let ghost xv = jsons_view(xs@);
    let ghost av = nodes_view(atoms@);
    let mut r: Vec<NodeId> = Vec::new();
    let mut i: usize = 0;
    while i < xs.len()
        invariant
            i <= xs.len(),
            xv == jsons_view(xs@),
            av == nodes_view(atoms@),
            crate::components::ids_view(r@) == member_ids(xv.take(i as int), av),
        decreases xs.len() - i,
    {
        assert(xv.take(i + 1).drop_last() =~= xv.take(i as int));
        assert(xv.take(i + 1).last() == json_view(xs@[i as int]));
        match xs[i].as_u64() {
            Some(k) => {
                if k < atoms.len() as u64 {
                    let ghost before = crate::components::ids_view(r@);
                    let id = atoms[k as usize].id.clone();
                    assert(id@ == av[k as int].id);
                    r.push(id);
                    assert(crate::components::ids_view(r@) =~= before.push(av[k as int].id));
                }
            },
            None => {},
        }
        i += 1;
    }
    assert(xv.take(xs.len() as int) =~= xv);
    r
}

/// The groups an array answer describes (see `groups_from`).
pub fn groups_from_json(j: &Json, atoms: &Vec<Node>) -> (r: Vec<(String, Vec<NodeId>)>)
    ensures
        groups_view(r@) == (match json_view(*j) {
            JsonView::Array(items) => groups_from(items, nodes_view(atoms@)),
            _ => Seq::empty(),
        }),
{
    let mut out: Vec<(String, Vec<NodeId>)> = Vec::new();
    match array_items(j) {
        None => {
            assert(groups_view(out@) =~= Seq::<(Seq<char>, Seq<Seq<char>>)>::empty());
            out
        },
        Some(items) => {
            let ghost iv = jsons_view(items@);
            let ghost av = nodes_view(atoms@);
            let mut i: usize = 0;
            proof {
                assert(groups_view(out@) =~= Seq::<(Seq<char>, Seq<Seq<char>>)>::empty());
            }
            while i < items.len()
                invariant
                    i <= items.len(),
                    iv == jsons_view(items@),
                    av == nodes_view(atoms@),
                    groups_view(out@) == groups_from(iv.take(i as int), av),
                decreases items.len() - i,
            {
                assert(iv.take(i + 1).drop_last() =~= iv.take(i as int));
                assert(iv.take(i + 1).last() == json_view(items@[i as int]));
                let item = &items[i];
                let name: String = match item.get("name") {
                    Some(n) => match n.as_text() {
                        Some(t) => t.clone(),
                        None => "Домен".to_owned(),
                    },
                    None => "Домен".to_owned(),
                };
                let members: Vec<NodeId> = match item.get("members") {
                    Some(m) => match array_items(m) {
                        Some(xs) => members_from(xs, atoms),
                        None => Vec::new(),
                    },
                    None => Vec::new(),
                };
                proof {
                    reveal_strlit("name");
                    reveal_strlit("members");
                }
                assert(name@ == group_of(json_view(*item), av).0);
                assert(crate::components::ids_view(members@) =~= group_of(json_view(*item), av).1);
                if members.len() > 0 {
                    let ghost before = groups_view(out@);
                    out.push((name, members));
                    assert(groups_view(out@) =~= before.push(group_of(json_view(*item), av)));
                }
                i += 1;
            }
            assert(iv.take(items.len() as int) =~= iv);
            out
        },
    }
}

/// The groups an LLM answer describes (see `grouping_answer`).
pub fn parse_grouping_response(response: &str, atoms: &Vec<Node>) -> (r: Vec<(String, Vec<NodeId>)>)
    ensures
        groups_view(r@) == grouping_answer(response@, nodes_view(atoms@)),
{
    match read_answer(response, '[', ']') {
        Some(j) => groups_from_json(&j, atoms),
        None => Vec::new(),
    }
}

// ---------------- field readers ----------------

/// The text of the field `key` of `item`.
fn field_text(item: &Json, key: &str) -> (r: Option<String>)
    ensures
        match r {
            Some(t) => text_of(field(json_view(*item), key@)) == Some(t@),
            None => text_of(field(json_view(*item), key@)) is None,
        },
{
    match item.get(key) {
        Some(x) => match x.as_text() {
            Some(t) => Some(t.clone()),
            None => None,
        },
        None => None,
    }
}

/// The unsigned-integer value of the field `key` of `item`.
fn field_u64(item: &Json, key: &str) -> (r: Option<u64>)
    ensures
        r == unsigned_of(field(json_view(*item), key@)),
{
    match item.get(key) {
        Some(x) => x.as_u64(),
        None => None,
    }
}

/// The number text of the field `key` of `item`.
fn field_number_text(item: &Json, key: &str) -> (r: Option<String>)
    ensures
        match r {
            Some(t) => number_text_of(field(json_view(*item), key@)) == Some(t@),
            None => number_text_of(field(json_view(*item), key@)) is None,
        },
{
    match item.get(key) {
        Some(x) => match x.as_number_text() {
            Some(t) => Some(t.clone()),
            None => None,
        },
        None => None,
    }
}

// ---------------- contradictions ----------------

/// The contradiction an item of the answer states: the ids of the statements its `a` and
/// `b` index (two different positions among `nodes`) and its `explanation` (a default
/// text when it has none).
pub open spec fn contradiction_from(item: JsonView, nodes: Seq<NodeView>) -> Option<(Seq<char>, Seq<char>, Seq<char>)> {
    match (unsigned_of(field(item, "a"@)), unsigned_of(field(item, "b"@))) {
        (Some(a), Some(b)) => if a != b && a < nodes.len() && b < nodes.len() {
            Some((nodes[a as int].id, nodes[b as int].id, match text_of(field(item, "explanation"@)) {
                Some(t) => t,
                None => "смысловое противоречие"@,
            }))
        } else {
            None
        },
        _ => None,
    }
}

/// The contradictions the items state, in order.
pub open spec fn contradictions_from(items: Seq<JsonView>, nodes: Seq<NodeView>) -> Seq<(Seq<char>, Seq<char>, Seq<char>)>
    decreases items.len(),
{
    if items.len() == 0 {
        Seq::empty()
    } else {
        let r = contradictions_from(items.drop_last(), nodes);
        match contradiction_from(items.last(), nodes) {
            Some(c) => r.push(c),
            None => r,
        }
    }
}

/// The contradictions an answer states: those of its array (none for other answers).
pub open spec fn contradictions_answer(response: Seq<char>, nodes: Seq<NodeView>) -> Seq<(Seq<char>, Seq<char>, Seq<char>)> {
    match answer_json(response, '[', ']') {
        Some(JsonView::Array(items)) => contradictions_from(items, nodes),
        _ => Seq::empty(),
    }
}

/// The two ids and the explanation of each contradiction.
pub open spec fn stated_view(v: Seq<Contradiction>) -> Seq<(Seq<char>, Seq<char>, Seq<char>)> {
    v.map_values(|c: Contradiction| (c.node_a@, c.node_b@, c.explanation@))
}

/// The contradictions an array answer states between `nodes` (see
/// `contradictions_from`), each a semantic opposition; none for other values.
pub fn contradictions_from_json(j: &Json, nodes: &Vec<Node>) -> (r: Vec<Contradiction>)
    ensures
        stated_view(r@) == (match json_view(*j) {
            JsonView::Array(items) => contradictions_from(items, nodes_view(nodes@)),
            _ => Seq::empty(),
        }),
        forall|i: int| 0 <= i < r@.len() ==> (#[trigger] r@[i]).conflict_type == ConflictType::SemanticOpposition,
{
    let mut out: Vec<Contradiction> = Vec::new();
    let ghost nv = nodes_view(nodes@);
    proof {
        assert(stated_view(out@) =~= Seq::<(Seq<char>, Seq<char>, Seq<char>)>::empty());
    }
    let items = match array_items(j) {
        Some(items) => items,
        None => return out,
    };
    let ghost iv = jsons_view(items@);
    let mut i: usize = 0;
    while i < items.len()
        invariant
            i <= items.len(),
            iv == jsons_view(items@),
            nv == nodes_view(nodes@),
            stated_view(out@) == contradictions_from(iv.take(i as int), nv),
            forall|k: int| 0 <= k < out@.len() ==> (#[trigger] out@[k]).conflict_type == ConflictType::SemanticOpposition,
        decreases items.len() - i,
    {
        assert(iv.take(i + 1).drop_last() =~= iv.take(i as int));
        assert(iv.take(i + 1).last() == json_view(items@[i as int]));
        let item = &items[i];
        let a = field_u64(item, "a");
        let b = field_u64(item, "b");
        let expl: String = match field_text(item, "explanation") {
            Some(t) => t,
            None => "смысловое противоречие".to_owned(),
        };
        if let (Some(a), Some(b)) = (a, b) {
            if a != b && a < nodes.len() as u64 && b < nodes.len() as u64 {
                let ghost before = stated_view(out@);
                let c = Contradiction {
                    node_a: nodes[a as usize].id.clone(),
                    node_b: nodes[b as usize].id.clone(),
                    conflict_type: ConflictType::SemanticOpposition,
                    explanation: expl,
                };
                assert((c.node_a@, c.node_b@, c.explanation@) == contradiction_from(json_view(*item), nv)->0);
                out.push(c);
                assert(stated_view(out@) =~= before.push(contradiction_from(json_view(*item), nv)->0));
            }
        }
        i += 1;
    }
    assert(iv.take(items.len() as int) =~= iv);
    out
}

/// The contradictions an LLM answer states between `nodes` (see `contradictions_answer`),
/// each a semantic opposition.
pub fn parse_contradictions_response(response: &str, nodes: &Vec<Node>) -> (r: Vec<Contradiction>)
    ensures
        stated_view(r@) == contradictions_answer(response@, nodes_view(nodes@)),
        forall|i: int| 0 <= i < r@.len() ==> (#[trigger] r@[i]).conflict_type == ConflictType::SemanticOpposition,
{
    match read_answer(response, '[', ']') {
        Some(j) => contradictions_from_json(&j, nodes),
        None => {
            let out: Vec<Contradiction> = Vec::new();
            assert(stated_view(out@) =~= Seq::<(Seq<char>, Seq<char>, Seq<char>)>::empty());
            out
        },
    }
}

// ---------------- a causal relation ----------------

/// A relation an LLM proposed between two statements: the relation, the text of its
/// confidence number (when the answer gives one) and its reasoning.
#[derive(Debug, Clone)]
pub struct RelationAnswer {
    pub relation: Relation,
    pub confidence: Option<String>,
    pub reasoning: String,
}

/// The relation an answer object proposes: the `relation` it names (required), the text of
/// its `confidence` number, and its `reasoning` (a default text when it has none).
pub open spec fn relation_of(j: JsonView) -> Option<(Relation, Option<Seq<char>>, Seq<char>)> {
    match text_of(field(j, "relation"@)) {
        Some(name) => Some((
            relation_named(name),
            number_text_of(field(j, "confidence"@)),
            match text_of(field(j, "reasoning"@)) {
                Some(t) => t,
                None => "LLM-инференс"@,
            },
        )),
        None => None,
    }
}

/// The relation an answer proposes: that of the object it holds (see `relation_of`).
pub open spec fn relation_answer(response: Seq<char>) -> Option<(Relation, Option<Seq<char>>, Seq<char>)> {
    match answer_json(response, '{', '}') {
        Some(j) => relation_of(j),
        None => None,
    }
}

/// The view of a proposed relation: the relation, its confidence text, its reasoning.
pub open spec fn relation_answer_view(a: RelationAnswer) -> (Relation, Option<Seq<char>>, Seq<char>) {
    (a.relation, match a.confidence {
        Some(t) => Some(t@),
        None => None::<Seq<char>>,
    }, a.reasoning@)
}

/// The relation an answer object proposes (see `relation_of`).
pub fn relation_from_json(j: &Json) -> (r: Option<RelationAnswer>)
    ensures
        match r {
            Some(a) => relation_of(json_view(*j)) == Some(relation_answer_view(a)),
            None => relation_of(json_view(*j)) is None,
        },
{
    let name = match field_text(j, "relation") {
        Some(n) => n,
        None => return None,
    };
    let relation = parse_relation_name(name.as_str());
    let confidence = field_number_text(j, "confidence");
    let reasoning: String = match field_text(j, "reasoning") {
        Some(t) => t,
        None => "LLM-инференс".to_owned(),
    };
    Some(RelationAnswer { relation, confidence, reasoning })
}

/// The relation an LLM answer proposes (see `relation_answer`).
pub fn parse_relation_response(response: &str) -> (r: Option<RelationAnswer>)
    ensures
        match r {
            Some(a) => relation_answer(response@) == Some(relation_answer_view(a)),
            None => relation_answer(response@) is None,
        },
{
    match read_answer(response, '{', '}') {
        Some(j) => relation_from_json(&j),
        None => None,
    }
}

// ---------------- a generalised rule ----------------

/// The texts among `xs`, in order (other items are skipped).
pub open spec fn texts_among(xs: Seq<JsonView>) -> Seq<Seq<char>>
    decreases xs.len(),
{
    if xs.len() == 0 {
        Seq::empty()
    } else {
        let r = texts_among(xs.drop_last());
        match text_of(Some(xs.last())) {
            Some(t) => r.push(t),
            None => r,
        }
    }
}

/// The rule an answer object states: the texts of its `if_conditions` and its non-empty
/// `then_effect` text (required).
pub open spec fn rule_of(j: JsonView) -> Option<(Seq<Seq<char>>, Seq<char>)> {
    match text_of(field(j, "then_effect"@)) {
        Some(t) => if t.len() == 0 {
            None
        } else {
            Some((match items_of(field(j, "if_conditions"@)) {
                Some(xs) => texts_among(xs),
                None => Seq::empty(),
            }, t))
        },
        None => None,
    }
}

/// The rule an answer states: that of the object it holds (see `rule_of`).
pub open spec fn rule_answer(response: Seq<char>) -> Option<(Seq<Seq<char>>, Seq<char>)> {
    match answer_json(response, '{', '}') {
        Some(j) => rule_of(j),
        None => None,
    }
}

/// The texts among a list of JSON values (see `texts_among`).
fn texts_from(xs: &Vec<Json>) -> (r: Vec<String>)
    ensures
        strings_view(r@) == texts_among(jsons_view(xs@)),
{
    let ghost xv = jsons_view(xs@);
    let mut r: Vec<String> = Vec::new();
    let mut i: usize = 0;
    while i < xs.len()
        invariant
            i <= xs.len(),
            xv == jsons_view(xs@),
            strings_view(r@) == texts_among(xv.take(i as int)),
        decreases xs.len() - i,
    {
        assert(xv.take(i + 1).drop_last() =~= xv.take(i as int));
        assert(xv.take(i + 1).last() == json_view(xs@[i as int]));
        match xs[i].as_text() {
            Some(t) => {
                let ghost before = strings_view(r@);
                r.push(t.clone());
                assert(strings_view(r@) =~= before.push(t@));
            },
            None => {},
        }
        i += 1;
    }
    assert(xv.take(xs.len() as int) =~= xv);
    r
}

/// The texts of the `if_conditions` of a rule object (none when it has no such array).
fn rule_conditions(j: &Json) -> (r: Vec<String>)
    ensures
        strings_view(r@) == (match items_of(field(json_view(*j), "if_conditions"@)) {
            Some(xs) => texts_among(xs),
            None => Seq::<Seq<char>>::empty(),
        }),
{
    let ghost none = strings_view(Seq::<String>::empty());
    assert(none =~= Seq::<Seq<char>>::empty());
    match j.get("if_conditions") {
        Some(x) => match array_items(x) {
            Some(xs) => texts_from(xs),
            None => Vec::new(),
        },
        None => Vec::new(),
    }
}

/// The rule an answer object states (see `rule_of`): its conditions and its effect.
pub fn rule_from_json(j: &Json) -> (r: Option<(Vec<String>, String)>)
    ensures
        match r {
            Some((ifs, then)) => rule_of(json_view(*j)) == Some((strings_view(ifs@), then@)),
            None => rule_of(json_view(*j)) is None,
        },
{
    let then = match field_text(j, "then_effect") {
        Some(t) => t,
        None => return None,
    };
    proof {
        reveal_strlit("");
    }
    if same_text(then.as_str(), "") {
        return None;
    }
    assert(then@.len() > 0) by {
        if then@.len() == 0 {
            assert(then@ =~= ""@);
        }
    }
    let ifs = rule_conditions(j);
    Some((ifs, then))
}

/// The rule an LLM answer states (see `rule_answer`): its conditions and its effect.
pub fn parse_rule_response(response: &str) -> (r: Option<(Vec<String>, String)>)
    ensures
        match r {
            Some((ifs, then)) => rule_answer(response@) == Some((strings_view(ifs@), then@)),
            None => rule_answer(response@) is None,
        },
{
    match read_answer(response, '{', '}') {
        Some(j) => rule_from_json(&j),
        None => None,
    }
}

// ---------------- severity ratings ----------------

/// The rating an item gives: the position its `i` names among `count` effects and the
/// text of its `severity` number.
pub open spec fn rating_from(item: JsonView, count: nat) -> Option<(nat, Seq<char>)> {
    match (unsigned_of(field(item, "i"@)), number_text_of(field(item, "severity"@))) {
        (Some(i), Some(t)) => if i < count { Some((i as nat, t)) } else { None },
        _ => None,
    }
}

/// The ratings the items give, in order.
pub open spec fn ratings_from(items: Seq<JsonView>, count: nat) -> Seq<(nat, Seq<char>)>
    decreases items.len(),
{
    if items.len() == 0 {
        Seq::empty()
    } else {
        let r = ratings_from(items.drop_last(), count);
        match rating_from(items.last(), count) {
            Some(x) => r.push(x),
            None => r,
        }
    }
}

/// The ratings an answer gives: those of its array (none for other answers).
pub open spec fn ratings_answer(response: Seq<char>, count: nat) -> Seq<(nat, Seq<char>)> {
    match answer_json(response, '[', ']') {
        Some(JsonView::Array(items)) => ratings_from(items, count),
        _ => Seq::empty(),
    }
}

/// Positions and severity texts of a list of ratings.
pub open spec fn ratings_view(v: Seq<(usize, String)>) -> Seq<(nat, Seq<char>)> {
    v.map_values(|x: (usize, String)| (x.0 as nat, x.1@))
}

/// The severity ratings an array answer gives to `count` effects (see `ratings_from`), in
/// order; none for other values.
pub fn ratings_from_json(j: &Json, count: usize) -> (r: Vec<(usize, String)>)
    ensures
        ratings_view(r@) == (match json_view(*j) {
            JsonView::Array(items) => ratings_from(items, count as nat),
            _ => Seq::empty(),
        }),
{
    let mut out: Vec<(usize, String)> = Vec::new();
    proof {
        assert(ratings_view(out@) =~= Seq::<(nat, Seq<char>)>::empty());
    }
    let items = match array_items(j) {
        Some(items) => items,
        None => return out,
    };
    let ghost iv = jsons_view(items@);
    let mut i: usize = 0;
    while i < items.len()
        invariant
            i <= items.len(),
            iv == jsons_view(items@),
            ratings_view(out@) == ratings_from(iv.take(i as int), count as nat),
        decreases items.len() - i,
    {
        assert(iv.take(i + 1).drop_last() =~= iv.take(i as int));
        assert(iv.take(i + 1).last() == json_view(items@[i as int]));
        let item = &items[i];
        if let (Some(k), Some(t)) = (field_u64(item, "i"), field_number_text(item, "severity")) {
            if k < count as u64 {
                let ghost before = ratings_view(out@);
                out.push((k as usize, t));
                assert(ratings_view(out@) =~= before.push(rating_from(json_view(*item), count as nat)->0));
            }
        }
        i += 1;
    }
    assert(iv.take(items.len() as int) =~= iv);
    out
}

/// The severity ratings an LLM answer gives to `count` effects (see `ratings_answer`), in
/// the order the answer gives them; a later rating of one effect replaces an earlier one.
pub fn parse_severity_ratings(response: &str, count: usize) -> (r: Vec<(usize, String)>)
    ensures
        ratings_view(r@) == ratings_answer(response@, count as nat),
{
    match read_answer(response, '[', ']') {
        Some(j) => ratings_from_json(&j, count),
        None => {
            let out: Vec<(usize, String)> = Vec::new();
            assert(ratings_view(out@) =~= Seq::<(nat, Seq<char>)>::empty());
            out
        },
    }
}

} // verus!
