//! What the automatic L1 grouping makes of the connected components of the atom graph:
//! the groups with more than one atom become domains, the single atoms stay orphans.

use vstd::prelude::*;
use crate::components::{components_of, connected, comps_sound, seeds_met, met, law_components_are_classes};
use super::l1::{singles, multis};

verus! {

proof fn lemma_multis_members(cs: Seq<Seq<Seq<char>>>)
    ensures
        forall|i: int| 0 <= i < multis(cs).len() ==> exists|k: int| 0 <= k < cs.len()
            && #[trigger] multis(cs)[i] == cs[k] && cs[k].len() != 1,
        forall|k: int| 0 <= k < cs.len() && (#[trigger] cs[k]).len() != 1 ==> exists|i: int| 0 <= i < multis(cs).len()
            && multis(cs)[i] == cs[k],
    decreases cs.len(),
{
    if cs.len() > 0 {
        let c0 = cs.drop_last();
        lemma_multis_members(c0);
        assert forall|k: int| 0 <= k < c0.len() implies #[trigger] c0[k] == cs[k] by {}
        let m0 = multis(c0);
        if cs.last().len() == 1 {
            assert(multis(cs) == m0);
            assert forall|k: int| 0 <= k < cs.len() && (#[trigger] cs[k]).len() != 1 implies exists|i: int| 0 <= i < multis(cs).len()
                && multis(cs)[i] == cs[k] by {
                assert(k < c0.len());
                assert(c0[k] == cs[k]);
                let i = choose|i: int| 0 <= i < m0.len() && m0[i] == c0[k];
                assert(multis(cs)[i] == cs[k]);
            }
            assert forall|i: int| 0 <= i < multis(cs).len() implies exists|k: int| 0 <= k < cs.len()
                && #[trigger] multis(cs)[i] == cs[k] && cs[k].len() != 1 by {
                let k = choose|k: int| 0 <= k < c0.len() && #[trigger] m0[i] == c0[k] && c0[k].len() != 1;
                assert(c0[k] == cs[k]);
            }
        } else {
            let m = m0.push(cs.last());
            assert(multis(cs) == m);
            assert forall|k: int| 0 <= k < cs.len() && (#[trigger] cs[k]).len() != 1 implies exists|i: int| 0 <= i < multis(cs).len()
                && multis(cs)[i] == cs[k] by {
                if k < c0.len() {
                    assert(c0[k] == cs[k]);
                    assert(c0[k].len() != 1);
                    let i = choose|i: int| 0 <= i < m0.len() && m0[i] == c0[k];
                    assert(m[i] == m0[i]);
                } else {
                    assert(m[m0.len() as int] == cs[k]);
                }
            }
            assert forall|i: int| 0 <= i < multis(cs).len() implies exists|k: int| 0 <= k < cs.len()
                && #[trigger] multis(cs)[i] == cs[k] && cs[k].len() != 1 by {
                if i < m0.len() {
                    assert(m[i] == m0[i]);
                    let k = choose|k: int| 0 <= k < c0.len() && #[trigger] m0[i] == c0[k] && c0[k].len() != 1;
                    assert(c0[k] == cs[k]);
                } else {
                    assert(m[i] == cs[cs.len() - 1]);
                }
            }
        }
    }
}

/// `a` is the atom of a single-atom component.
pub open spec fn single_in(cs: Seq<Seq<Seq<char>>>, a: Seq<char>) -> bool {
    exists|k: int| #![trigger cs[k]] 0 <= k < cs.len() && cs[k].len() == 1 && cs[k][0] == a
}

proof fn lemma_singles_members(cs: Seq<Seq<Seq<char>>>)
    ensures
        forall|i: int| 0 <= i < singles(cs).len() ==> #[trigger] single_in(cs, singles(cs)[i]),
        forall|k: int| 0 <= k < cs.len() && (#[trigger] cs[k]).len() == 1 ==> exists|i: int| 0 <= i < singles(cs).len()
            && singles(cs)[i] == cs[k][0],
    decreases cs.len(),
{
    if cs.len() > 0 {
        let c0 = cs.drop_last();
        lemma_singles_members(c0);
        assert forall|k: int| 0 <= k < c0.len() implies #[trigger] c0[k] == cs[k] by {}
        let s0 = singles(c0);
        if cs.last().len() == 1 {
            let s = s0.push(cs.last()[0]);
            assert(singles(cs) == s);
            assert forall|k: int| 0 <= k < cs.len() && (#[trigger] cs[k]).len() == 1 implies exists|i: int| 0 <= i < singles(cs).len()
                && singles(cs)[i] == cs[k][0] by {
                if k < c0.len() {
                    assert(c0[k] == cs[k]);
                    let i = choose|i: int| 0 <= i < s0.len() && s0[i] == c0[k][0];
                    assert(s[i] == s0[i]);
                } else {
                    assert(s[s0.len() as int] == cs[k][0]);
                }
            }
            assert forall|i: int| 0 <= i < singles(cs).len() implies #[trigger] single_in(cs, singles(cs)[i]) by {
                if i < s0.len() {
                    assert(s[i] == s0[i]);
                    assert(single_in(c0, s0[i]));
                    let k = choose|k: int| #![trigger c0[k]] 0 <= k < c0.len() && c0[k].len() == 1 && c0[k][0] == s0[i];
                    assert(c0[k] == cs[k]);
                } else {
                    assert(s[i] == cs[cs.len() - 1][0]);
                    assert(cs[cs.len() - 1].len() == 1);
                }
            }
        } else {
            assert(singles(cs) == s0);
            assert forall|k: int| 0 <= k < cs.len() && (#[trigger] cs[k]).len() == 1 implies exists|i: int| 0 <= i < singles(cs).len()
                && singles(cs)[i] == cs[k][0] by {
                assert(k < c0.len());
                assert(c0[k] == cs[k]);
                let i = choose|i: int| 0 <= i < s0.len() && s0[i] == c0[k][0];
                assert(singles(cs)[i] == cs[k][0]);
            }
            assert forall|i: int| 0 <= i < singles(cs).len() implies #[trigger] single_in(cs, singles(cs)[i]) by {
                assert(singles(cs) == s0);
                assert(single_in(c0, s0[i]));
                let k = choose|k: int| #![trigger c0[k]] 0 <= k < c0.len() && c0[k].len() == 1 && c0[k][0] == s0[i];
                assert(c0[k] == cs[k]);
                assert(singles(cs)[i] == cs[k][0]);
            }
        }
    }
}

/// Atom `a` is in the group of some domain or is an orphan.
pub open spec fn grouped(cs: Seq<Seq<Seq<char>>>, a: Seq<char>) -> bool {
    (exists|g: int| 0 <= g < multis(cs).len() && #[trigger] multis(cs)[g].contains(a))
        || (exists|o: int| 0 <= o < singles(cs).len() && #[trigger] singles(cs)[o] == a)
}

/// The automatic grouping of atoms (as `L1Actor::autogenerate_domains` states it over
/// `multis` and `singles` of the components): every group that becomes a domain has at
/// least two atoms and holds exactly the atoms connected to its first one; every orphan
/// is connected to no other atom; and every atom is in a domain's group or an orphan.
pub proof fn law_domains_are_connected_groups(
    seeds: Seq<Seq<char>>,
    links: Seq<(Seq<char>, Seq<char>)>,
    cs: Seq<Seq<Seq<char>>>,
)
    requires
        components_of(seeds, links, cs),
    ensures
        forall|i: int| 0 <= i < multis(cs).len() ==> (#[trigger] multis(cs)[i]).len() >= 2,
        forall|i: int, y: Seq<char>| 0 <= i < multis(cs).len() ==>
            (#[trigger] multis(cs)[i].contains(y) <==> connected(links, multis(cs)[i][0], y)),
        forall|i: int, y: Seq<char>| 0 <= i < singles(cs).len() ==>
            (#[trigger] connected(links, singles(cs)[i], y) <==> y == singles(cs)[i]),
        forall|i: int| 0 <= i < seeds.len() ==> grouped(cs, #[trigger] seeds[i]),
{
    law_components_are_classes(seeds, links, cs);
    lemma_multis_members(cs);
    lemma_singles_members(cs);
    reveal(comps_sound);
    reveal(seeds_met);
    assert forall|i: int| 0 <= i < multis(cs).len() implies (#[trigger] multis(cs)[i]).len() >= 2 by {
        let k = choose|k: int| 0 <= k < cs.len() && #[trigger] multis(cs)[i] == cs[k] && cs[k].len() != 1;
        assert(cs[k].len() >= 1);
    }
    assert forall|i: int, y: Seq<char>| 0 <= i < multis(cs).len() implies
        (#[trigger] multis(cs)[i].contains(y) <==> connected(links, multis(cs)[i][0], y)) by {
        let k = choose|k: int| 0 <= k < cs.len() && #[trigger] multis(cs)[i] == cs[k] && cs[k].len() != 1;
        assert(cs[k].contains(y) <==> connected(links, cs[k][0], y));
    }
    assert forall|i: int, y: Seq<char>| 0 <= i < singles(cs).len() implies
        (#[trigger] connected(links, singles(cs)[i], y) <==> y == singles(cs)[i]) by {
        assert(single_in(cs, singles(cs)[i]));
        let k = choose|k: int| #![trigger cs[k]] 0 <= k < cs.len() && cs[k].len() == 1 && cs[k][0] == singles(cs)[i];
        assert(cs[k].contains(y) <==> connected(links, cs[k][0], y));
        if y == singles(cs)[i] {
            assert(cs[k][0] == y);
            assert(cs[k].contains(y));
        }
        if cs[k].contains(y) {
            let j = choose|j: int| 0 <= j < cs[k].len() && cs[k][j] == y;
            assert(j == 0);
        }
    }
    assert forall|i: int| 0 <= i < seeds.len() implies grouped(cs, #[trigger] seeds[i]) by {
        assert(met(cs).contains(seeds[i]));
        let k = choose|k: int| 0 <= k < cs.len() && (#[trigger] cs[k]).contains(seeds[i]);
        if cs[k].len() == 1 {
            let j = choose|j: int| 0 <= j < cs[k].len() && cs[k][j] == seeds[i];
            assert(j == 0);
            let o = choose|o: int| 0 <= o < singles(cs).len() && singles(cs)[o] == cs[k][0];
        } else {
            let g = choose|g: int| 0 <= g < multis(cs).len() && multis(cs)[g] == cs[k];
            assert(multis(cs)[g].contains(seeds[i]));
        }
    }
}

} // verus!
