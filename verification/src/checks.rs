//! Runtime checks for the assemblers' preconditions, for callers that take
//! topologies from outside (a parsed catalogue) and must reject bad input
//! the way the assemblers' contracts demand.

use vstd::prelude::*;
use crate::record::ChemicalRecord;
use crate::model::{all_bonds_wf, flat_ids, lemma_flat_ids_push, lemma_flat_ids_take_le,
    lemma_total_bonds_take, total_bonds};

verus! {

/// Whether every bond of every topology stays inside its segment list.
pub fn check_bonds_wf(chems: &Vec<ChemicalRecord>) -> (r: bool)
    ensures
        r == all_bonds_wf(chems@),
{
    let mut i: usize = 0;
    while i < chems.len()
        invariant
            i <= chems@.len(),
            forall|t: int| 0 <= t < i ==> (#[trigger] chems@[t]).bonds_wf(),
        decreases chems@.len() - i,
    {
        let c = &chems[i];
        let mut k: usize = 0;
        while k < c.bonds.len()
            invariant
                k <= c.bonds@.len(),
                i < chems@.len(),
                c == &chems[i as int],
                forall|t: int| 0 <= t < k
                    ==> (#[trigger] c.bonds@[t]).a < c.segments@.len()
                        && c.bonds@[t].b < c.segments@.len(),
            decreases c.bonds@.len() - k,
        {
            let bd = c.bonds[k];
            if bd.a >= c.segments.len() || bd.b >= c.segments.len() {
                proof {
                    assert(chems@[i as int].bonds@[k as int] == bd);
                    if chems@[i as int].bonds_wf() {
                        assert(chems@[i as int].bonds@[k as int].a
                            < chems@[i as int].segments@.len());
                        assert(chems@[i as int].bonds@[k as int].b
                            < chems@[i as int].segments@.len());
                    }
                    assert(!chems@[i as int].bonds_wf());
                    if all_bonds_wf(chems@) {
                        assert(chems@[i as int].bonds_wf());
                    }
                    assert(!all_bonds_wf(chems@));
                }
                return false;
            }
            k = k + 1;
        }
        proof {
            assert(chems@[i as int].bonds_wf());
        }
        i = i + 1;
    }
    true
}

/// Whether the total number of bonds over all topologies fits the machine.
pub fn check_total_bonds(chems: &Vec<ChemicalRecord>) -> (r: bool)
    ensures
        r == (total_bonds(chems@) <= usize::MAX),
{
    let mut acc: usize = 0;
    let mut i: usize = 0;
    while i < chems.len()
        invariant
            i <= chems@.len(),
            acc == total_bonds(chems@.take(i as int)),
        decreases chems@.len() - i,
    {
        let len = chems[i].bonds.len();
        proof {
            lemma_total_bonds_take(chems@, i as int);
            lemma_total_bonds_take(chems@, i + 1);
        }
        if len > usize::MAX - acc {
            return false;
        }
        acc = acc + len;
        i = i + 1;
    }
    proof {
        assert(chems@.take(chems@.len() as int) =~= chems@);
    }
    true
}

/// Whether the total number of bonds stays below the edge index limit of
/// the bond graph.
pub fn check_bond_count(chems: &Vec<ChemicalRecord>) -> (r: bool)
    ensures
        r == (total_bonds(chems@) < 0xFFFF_FFFF),
{
    let mut acc: usize = 0;
    let mut i: usize = 0;
    while i < chems.len()
        invariant
            i <= chems@.len(),
            acc == total_bonds(chems@.take(i as int)),
            acc < 0xFFFF_FFFF,
        decreases chems@.len() - i,
    {
        let len = chems[i].bonds.len();
        proof {
            lemma_total_bonds_take(chems@, i as int);
            lemma_total_bonds_take(chems@, i + 1);
        }
        if len >= 0xFFFF_FFFF - acc {
            proof {
                assert(total_bonds(chems@.take(i + 1)) >= 0xFFFF_FFFF);
            }
            return false;
        }
        acc = acc + len;
        i = i + 1;
    }
    proof {
        assert(chems@.take(chems@.len() as int) =~= chems@);
    }
    true
}

/// Whether the number of ordered segment occurrences stays below the node
/// index limit of the bond graph.
pub fn check_flat_count(chems: &Vec<ChemicalRecord>) -> (r: bool)
    ensures
        r == (flat_ids(chems@).len() < 0xFFFF_FFFF),
{
    let mut acc: usize = 0;
    let mut i: usize = 0;
    while i < chems.len()
        invariant
            i <= chems@.len(),
            acc == flat_ids(chems@.take(i as int)).len(),
            acc < 0xFFFF_FFFF,
        decreases chems@.len() - i,
    {
        let len = chems[i].segments.len();
        proof {
            assert(chems@.take(i + 1) =~= chems@.take(i as int).push(chems@[i as int]));
            lemma_flat_ids_push(chems@.take(i as int), chems@[i as int]);
            lemma_flat_ids_take_le(chems@, i + 1);
        }
        if len >= 0xFFFF_FFFF - acc {
            proof {
                assert(flat_ids(chems@.take(i + 1)).len() >= 0xFFFF_FFFF);
            }
            return false;
        }
        acc = acc + len;
        i = i + 1;
    }
    proof {
        assert(chems@.take(chems@.len() as int) =~= chems@);
    }
    true
}

} // verus!
