//! The mathematical model of parameter assembly. Every contract of the
//! assemblers is stated against the functions of this module, so that both
//! public variants (the grouped one of the equation of state and the ordered
//! one of the functional) are pinned to one description, and re-assembly of a
//! subset can be compared with direct assembly.

use vstd::prelude::*;
use crate::record::{BinaryRecord, Bond, ChemicalRecord, SegmentRecord};
pub use crate::record::strs;

verus! {

/// The segment identifiers of one molecule, in topology order.
pub open spec fn chem_ids(c: ChemicalRecord) -> Seq<Seq<char>> {
    strs(c.segments@)
}

/// The record that a segment identifier resolves to: the last record of the
/// store carrying that identifier (a later record shadows an earlier one of
/// the same identifier).
pub open spec fn seg_lookup(segs: Seq<SegmentRecord>, id: Seq<char>) -> Option<int>
    decreases segs.len(),
{
    if segs.len() == 0 {
        None
    } else if segs.last().identifier@ == id {
        Some(segs.len() - 1)
    } else {
        seg_lookup(segs.drop_last(), id)
    }
}

pub proof fn lemma_seg_lookup_push(segs: Seq<SegmentRecord>, rec: SegmentRecord, id: Seq<char>)
    ensures
        seg_lookup(segs.push(rec), id) == (if rec.identifier@ == id {
            Some(segs.len() as int)
        } else {
            seg_lookup(segs, id)
        }),
{
    assert(segs.push(rec).drop_last() =~= segs);
}

pub proof fn lemma_seg_lookup_bounds(segs: Seq<SegmentRecord>, id: Seq<char>)
    ensures
        match seg_lookup(segs, id) {
            Some(k) => 0 <= k < segs.len() && segs[k].identifier@ == id,
            None => forall|k: int| 0 <= k < segs.len() ==> (#[trigger] segs[k]).identifier@ != id,
        },
    decreases segs.len(),
{
    if segs.len() > 0 {
        lemma_seg_lookup_bounds(segs.drop_last(), id);
        assert(forall|k: int| 0 <= k < segs.len() - 1 ==> segs.drop_last()[k] == #[trigger] segs[k]);
    }
}

/// Every identifier of every molecule resolves to a record.
pub open spec fn all_segments_known(chems: Seq<ChemicalRecord>, segs: Seq<SegmentRecord>) -> bool {
    forall|i: int, j: int| 0 <= i < chems.len() && 0 <= j < chem_ids(chems[i]).len()
        ==> seg_lookup(segs, #[trigger] chem_ids(chems[i])[j]) is Some
}

/// The first identifier of the scan (molecules in order, segments in topology
/// order) that resolves to no record.
pub open spec fn first_unknown_in(ids: Seq<Seq<char>>, segs: Seq<SegmentRecord>) -> Option<Seq<char>>
    decreases ids.len(),
{
    if ids.len() == 0 {
        None
    } else if seg_lookup(segs, ids[0]) is None {
        Some(ids[0])
    } else {
        first_unknown_in(ids.drop_first(), segs)
    }
}

pub open spec fn first_unknown(chems: Seq<ChemicalRecord>, segs: Seq<SegmentRecord>) -> Option<Seq<char>>
    decreases chems.len(),
{
    if chems.len() == 0 {
        None
    } else if first_unknown_in(chem_ids(chems[0]), segs) is Some {
        first_unknown_in(chem_ids(chems[0]), segs)
    } else {
        first_unknown(chems.drop_first(), segs)
    }
}

pub proof fn lemma_first_unknown_in_none(ids: Seq<Seq<char>>, segs: Seq<SegmentRecord>)
    ensures
        (first_unknown_in(ids, segs) is None)
            <==> (forall|j: int| 0 <= j < ids.len() ==> seg_lookup(segs, #[trigger] ids[j]) is Some),
    decreases ids.len(),
{
    if ids.len() > 0 {
        lemma_first_unknown_in_none(ids.drop_first(), segs);
        assert(forall|j: int| 0 <= j < ids.len() - 1 ==> ids.drop_first()[j] == #[trigger] ids[j + 1]);
        if first_unknown_in(ids, segs) is None {
            assert forall|j: int| 0 <= j < ids.len()
                implies seg_lookup(segs, #[trigger] ids[j]) is Some
            by {
                if j > 0 {
                    assert(ids.drop_first()[j - 1] == ids[j]);
                }
            }
        } else {
            if seg_lookup(segs, ids[0]) is Some {
                let j: int = choose|j: int| 0 <= j < ids.drop_first().len()
                    && !(seg_lookup(segs, #[trigger] ids.drop_first()[j]) is Some);
                assert(ids.drop_first()[j] == ids[j + 1]);
            }
        }
    }
}

pub proof fn lemma_first_unknown_in_at(ids: Seq<Seq<char>>, segs: Seq<SegmentRecord>, j: int)
    requires
        0 <= j < ids.len(),
        forall|t: int| 0 <= t < j ==> seg_lookup(segs, #[trigger] ids[t]) is Some,
        seg_lookup(segs, ids[j]) is None,
    ensures
        first_unknown_in(ids, segs) == Some(ids[j]),
    decreases j,
{
    if j > 0 {
        assert(forall|t: int| 0 <= t < j - 1 ==> ids.drop_first()[t] == #[trigger] ids[t + 1]);
        assert(ids.drop_first()[j - 1] == ids[j]);
        lemma_first_unknown_in_at(ids.drop_first(), segs, j - 1);
    }
}

pub proof fn lemma_first_unknown_push(chems: Seq<ChemicalRecord>, c: ChemicalRecord, segs: Seq<SegmentRecord>)
    ensures
        first_unknown(chems.push(c), segs) == (if first_unknown(chems, segs) is Some {
            first_unknown(chems, segs)
        } else {
            first_unknown_in(chem_ids(c), segs)
        }),
    decreases chems.len(),
{
    if chems.len() == 0 {
        assert(chems.push(c)[0] == c);
        assert(chems.push(c).drop_first() =~= Seq::<ChemicalRecord>::empty());
    } else {
        assert(chems.push(c)[0] == chems[0]);
        assert(chems.push(c).drop_first() =~= chems.drop_first().push(c));
        lemma_first_unknown_push(chems.drop_first(), c, segs);
    }
}

pub proof fn lemma_first_unknown_none(chems: Seq<ChemicalRecord>, segs: Seq<SegmentRecord>)
    ensures
        (first_unknown(chems, segs) is None) <==> all_segments_known(chems, segs),
    decreases chems.len(),
{
    if chems.len() == 0 {
        assert(all_segments_known(chems, segs));
    } else {
        lemma_first_unknown_in_none(chem_ids(chems[0]), segs);
        lemma_first_unknown_none(chems.drop_first(), segs);
        assert(forall|i: int| 0 <= i < chems.len() - 1
            ==> chems.drop_first()[i] == #[trigger] chems[i + 1]);
        if first_unknown(chems, segs) is None {
            assert forall|i: int, j: int|
                0 <= i < chems.len() && 0 <= j < chem_ids(chems[i]).len()
                implies seg_lookup(segs, #[trigger] chem_ids(chems[i])[j]) is Some
            by {
                if i > 0 {
                    assert(chems.drop_first()[i - 1] == chems[i]);
                    assert(all_segments_known(chems.drop_first(), segs));
                }
            }
        } else {
            if first_unknown_in(chem_ids(chems[0]), segs) is Some {
                assert(!all_segments_known(chems, segs));
            } else {
                assert(!all_segments_known(chems.drop_first(), segs));
                let (i, j): (int, int) = choose|i: int, j: int|
                    0 <= i < chems.drop_first().len()
                        && 0 <= j < chem_ids(chems.drop_first()[i]).len()
                        && !(seg_lookup(segs, #[trigger] chem_ids(chems.drop_first()[i])[j]) is Some);
                assert(chems.drop_first()[i] == chems[i + 1]);
                assert(!(seg_lookup(segs, chem_ids(chems[i + 1])[j]) is Some));
            }
        }
    }
}

/// The first unknown of the whole list is the first unknown of molecule `i`
/// when every earlier molecule is clean and molecule `i` is not.
pub proof fn lemma_unknown_decided_at(chems: Seq<ChemicalRecord>, segs: Seq<SegmentRecord>, i: int)
    requires
        0 <= i < chems.len(),
        first_unknown(chems.take(i), segs) is None,
        first_unknown_in(chem_ids(chems[i]), segs) is Some,
    ensures
        first_unknown(chems, segs) == first_unknown_in(chem_ids(chems[i]), segs),
    decreases i,
{
    if i == 0 {
    } else {
        assert(chems.take(i)[0] == chems[0]);
        assert(first_unknown_in(chem_ids(chems[0]), segs) is None) by {
            if first_unknown_in(chem_ids(chems.take(i)[0]), segs) is Some {
                assert(first_unknown(chems.take(i), segs) is Some);
            }
        }
        assert(chems.take(i).drop_first() =~= chems.drop_first().take(i - 1));
        assert(chems.drop_first()[i - 1] == chems[i]);
        lemma_unknown_decided_at(chems.drop_first(), segs, i - 1);
    }
}

pub proof fn lemma_flat_ids_push(chems: Seq<ChemicalRecord>, c: ChemicalRecord)
    ensures
        flat_ids(chems.push(c)) == flat_ids(chems) + chem_ids(c),
        flat_component_index(chems.push(c)) == flat_component_index(chems)
            + rep_idx(chem_ids(c).len(), chems.len() as usize),
        flat_bonds(chems.push(c)) == flat_bonds(chems)
            + shift_bonds(flat_ids(chems).len(), c.bonds@),
{
    assert(chems.push(c).drop_last() =~= chems);
    assert(chems.push(c).last() == c);
}

pub proof fn lemma_flat_record_index_push(chems: Seq<ChemicalRecord>, c: ChemicalRecord, segs: Seq<SegmentRecord>)
    ensures
        flat_record_index(chems.push(c), segs) == flat_record_index(chems, segs)
            + ridx_map(segs, chem_ids(c)),
{
    assert(chems.push(c).drop_last() =~= chems);
    assert(chems.push(c).last() == c);
}

/// The flattened arrays all have one entry per segment occurrence.
pub proof fn lemma_flat_lens(chems: Seq<ChemicalRecord>, segs: Seq<SegmentRecord>)
    ensures
        flat_component_index(chems).len() == flat_ids(chems).len(),
        flat_record_index(chems, segs).len() == flat_ids(chems).len(),
    decreases chems.len(),
{
    if chems.len() > 0 {
        lemma_flat_lens(chems.drop_last(), segs);
    }
}

/// Every bond of every molecule stays inside its segment list.
pub open spec fn all_bonds_wf(chems: Seq<ChemicalRecord>) -> bool {
    forall|i: int| 0 <= i < chems.len() ==> (#[trigger] chems[i]).bonds_wf()
}

// ---------------------------------------------------------------------------
// The ordered flattening: one occurrence per entry of each segment list.
// ---------------------------------------------------------------------------

/// All segment identifiers of all molecules, flattened in order.
pub open spec fn flat_ids(chems: Seq<ChemicalRecord>) -> Seq<Seq<char>>
    decreases chems.len(),
{
    if chems.len() == 0 {
        Seq::empty()
    } else {
        flat_ids(chems.drop_last()) + chem_ids(chems.last())
    }
}

/// `n` copies of one molecule index.
pub open spec fn rep_idx(n: nat, v: usize) -> Seq<usize> {
    Seq::new(n, |k: int| v)
}

/// The molecule that each flattened occurrence belongs to.
pub open spec fn flat_component_index(chems: Seq<ChemicalRecord>) -> Seq<usize>
    decreases chems.len(),
{
    if chems.len() == 0 {
        Seq::empty()
    } else {
        flat_component_index(chems.drop_last())
            + rep_idx(chem_ids(chems.last()).len(), (chems.len() - 1) as usize)
    }
}

/// The record index that each identifier of a list resolves to.
pub open spec fn ridx_map(segs: Seq<SegmentRecord>, ids: Seq<Seq<char>>) -> Seq<usize> {
    ids.map(|k: int, id: Seq<char>| seg_lookup(segs, id).unwrap() as usize)
}

pub proof fn lemma_ridx_map_push(segs: Seq<SegmentRecord>, ids: Seq<Seq<char>>, id: Seq<char>)
    ensures
        ridx_map(segs, ids.push(id)) == ridx_map(segs, ids).push(seg_lookup(segs, id).unwrap() as usize),
{
    assert(ridx_map(segs, ids.push(id)) =~= ridx_map(segs, ids).push(seg_lookup(segs, id).unwrap() as usize));
}

/// The record index that each flattened occurrence resolves to.
pub open spec fn flat_record_index(chems: Seq<ChemicalRecord>, segs: Seq<SegmentRecord>) -> Seq<usize>
    decreases chems.len(),
{
    if chems.len() == 0 {
        Seq::empty()
    } else {
        flat_record_index(chems.drop_last(), segs) + ridx_map(segs, chem_ids(chems.last()))
    }
}

/// One molecule's bonds, shifted by the occurrence offset of the molecule.
pub open spec fn shift_bonds(base: nat, bonds: Seq<Bond>) -> Seq<Bond> {
    bonds.map(|k: int, b: Bond| Bond { a: (base + b.a) as usize, b: (base + b.b) as usize })
}

pub proof fn lemma_shift_bonds_push(base: nat, bonds: Seq<Bond>, bd: Bond)
    ensures
        shift_bonds(base, bonds.push(bd)) == shift_bonds(base, bonds)
            .push(Bond { a: (base + bd.a) as usize, b: (base + bd.b) as usize }),
{
    assert(shift_bonds(base, bonds.push(bd)) =~= shift_bonds(base, bonds)
        .push(Bond { a: (base + bd.a) as usize, b: (base + bd.b) as usize }));
}

/// All bonds of all molecules, re-indexed into the flattened occurrence
/// space: each molecule's bonds are shifted by the number of occurrences
/// that precede it.
pub open spec fn flat_bonds(chems: Seq<ChemicalRecord>) -> Seq<Bond>
    decreases chems.len(),
{
    if chems.len() == 0 {
        Seq::empty()
    } else {
        flat_bonds(chems.drop_last())
            + shift_bonds(flat_ids(chems.drop_last()).len(), chems.last().bonds@)
    }
}

/// The flattened occurrences that carry association sites, in order.
pub open spec fn assoc_occurrences(ridx: Seq<usize>, segs: Seq<SegmentRecord>) -> Seq<usize>
    decreases ridx.len(),
{
    if ridx.len() == 0 {
        Seq::empty()
    } else {
        let p = assoc_occurrences(ridx.drop_last(), segs);
        if segs[ridx.last() as int].model_record.is_associating() {
            p.push((ridx.len() - 1) as usize)
        } else {
            p
        }
    }
}

// ---------------------------------------------------------------------------
// Binary interaction lookup.
// ---------------------------------------------------------------------------

/// The correction that a pair of segment identifiers resolves to: the last
/// binary record naming the unordered pair (a later record shadows an
/// earlier one of the same pair).
pub open spec fn bin_lookup(bins: Seq<BinaryRecord>, a: Seq<char>, b: Seq<char>) -> Option<u64>
    decreases bins.len(),
{
    if bins.len() == 0 {
        None
    } else if bins.last().names_pair(a, b) {
        Some(bins.last().model_record.0)
    } else {
        bin_lookup(bins.drop_last(), a, b)
    }
}

pub proof fn lemma_bin_lookup_symmetric(bins: Seq<BinaryRecord>, a: Seq<char>, b: Seq<char>)
    ensures
        bin_lookup(bins, a, b) == bin_lookup(bins, b, a),
    decreases bins.len(),
{
    if bins.len() > 0 {
        lemma_bin_lookup_symmetric(bins.drop_last(), a, b);
    }
}

/// The records a binary interaction correction is taken from when the input
/// carries none.
pub open spec fn bins_of(bins: Option<Vec<BinaryRecord>>) -> Seq<BinaryRecord> {
    match bins {
        Some(v) => v@,
        None => Seq::empty(),
    }
}

pub proof fn lemma_strs_push(v: Seq<String>, s: String)
    ensures
        strs(v.push(s)) == strs(v).push(s@),
{
    assert(strs(v.push(s)) =~= strs(v).push(s@));
}

pub proof fn lemma_flat_ids_take_le(chems: Seq<ChemicalRecord>, i: int)
    requires
        0 <= i <= chems.len(),
    ensures
        flat_ids(chems.take(i)).len() <= flat_ids(chems).len(),
    decreases chems.len() - i,
{
    if i < chems.len() {
        assert(chems.take(i + 1).drop_last() =~= chems.take(i));
        assert(chems.take(i + 1).last() == chems[i]);
        lemma_flat_ids_take_le(chems, i + 1);
    } else {
        assert(chems.take(i) =~= chems);
    }
}

// ---------------------------------------------------------------------------
// The grouped flattening: equal segments of one molecule share an occurrence.
// ---------------------------------------------------------------------------

/// The distinct identifiers of a segment list, in order of first occurrence.
pub open spec fn firsts(ids: Seq<Seq<char>>) -> Seq<Seq<char>>
    decreases ids.len(),
{
    if ids.len() == 0 {
        Seq::empty()
    } else {
        let f = firsts(ids.drop_last());
        if f.contains(ids.last()) {
            f
        } else {
            f.push(ids.last())
        }
    }
}

/// How often an identifier occurs in a segment list.
pub open spec fn count_of(ids: Seq<Seq<char>>, id: Seq<char>) -> nat
    decreases ids.len(),
{
    if ids.len() == 0 {
        0
    } else {
        count_of(ids.drop_last(), id) + (if ids.last() == id { 1nat } else { 0nat })
    }
}

/// The first position of an identifier in a list, and -1 when absent.
pub open spec fn pos_in(s: Seq<Seq<char>>, id: Seq<char>) -> int
    decreases s.len(),
{
    if s.len() == 0 {
        -1
    } else if s[0] == id {
        0
    } else {
        let p = pos_in(s.drop_first(), id);
        if p < 0 {
            -1
        } else {
            p + 1
        }
    }
}

pub proof fn lemma_firsts_props(ids: Seq<Seq<char>>)
    ensures
        firsts(ids).len() <= ids.len(),
        forall|x: Seq<char>| firsts(ids).contains(x) == ids.contains(x),
        forall|k1: int, k2: int| 0 <= k1 < k2 < firsts(ids).len()
            ==> firsts(ids)[k1] != firsts(ids)[k2],
    decreases ids.len(),
{
    if ids.len() > 0 {
        lemma_firsts_props(ids.drop_last());
        let f = firsts(ids.drop_last());
        assert forall|x: Seq<char>| firsts(ids).contains(x) == ids.contains(x) by {
            if firsts(ids).contains(x) {
                if f.contains(x) {
                    assert(ids.drop_last().contains(x));
                    let w: int = choose|w: int| 0 <= w < ids.drop_last().len()
                        && ids.drop_last()[w] == x;
                    assert(ids[w] == x);
                } else {
                    assert(x == ids.last());
                    assert(ids[ids.len() - 1] == x);
                }
            }
            if ids.contains(x) {
                let w: int = choose|w: int| 0 <= w < ids.len() && ids[w] == x;
                if w < ids.len() - 1 {
                    assert(ids.drop_last()[w] == x);
                    assert(ids.drop_last().contains(x));
                    assert(f.contains(x));
                    if !f.contains(ids.last()) {
                        assert(firsts(ids) == f.push(ids.last()));
                        let q: int = choose|q: int| 0 <= q < f.len() && f[q] == x;
                        assert(firsts(ids)[q] == x);
                    }
                } else {
                    assert(x == ids.last());
                    if f.contains(x) {
                    } else {
                        assert(firsts(ids).last() == x);
                    }
                }
            }
        }
        if !f.contains(ids.last()) {
            assert forall|k1: int, k2: int| 0 <= k1 < k2 < firsts(ids).len()
                implies firsts(ids)[k1] != firsts(ids)[k2]
            by {
                if k2 == firsts(ids).len() - 1 {
                    assert(firsts(ids)[k2] == ids.last());
                    assert(f[k1] == firsts(ids)[k1]);
                    assert(f.contains(f[k1]));
                }
            }
        }
    }
}

pub proof fn lemma_count_le(ids: Seq<Seq<char>>, id: Seq<char>)
    ensures
        count_of(ids, id) <= ids.len(),
        !ids.contains(id) ==> count_of(ids, id) == 0,
    decreases ids.len(),
{
    if ids.len() > 0 {
        lemma_count_le(ids.drop_last(), id);
        if !ids.contains(id) {
            assert(ids[ids.len() - 1] == ids.last());
            assert forall|w: int| 0 <= w < ids.len() - 1
                implies ids.drop_last()[w] != id
            by {
                assert(ids[w] == ids.drop_last()[w]);
            }
            if ids.drop_last().contains(id) {
                let w: int = choose|w: int| 0 <= w < ids.drop_last().len()
                    && ids.drop_last()[w] == id;
            }
        }
    }
}

pub proof fn lemma_pos_in_props(s: Seq<Seq<char>>, id: Seq<char>)
    ensures
        s.contains(id) ==> 0 <= pos_in(s, id) < s.len() && s[pos_in(s, id)] == id,
        !s.contains(id) ==> pos_in(s, id) == -1,
    decreases s.len(),
{
    if s.len() > 0 {
        lemma_pos_in_props(s.drop_first(), id);
        assert(forall|w: int| 0 <= w < s.len() - 1 ==> s.drop_first()[w] == #[trigger] s[w + 1]);
        if s.contains(id) {
            let w: int = choose|w: int| 0 <= w < s.len() && s[w] == id;
            if s[0] != id {
                assert(s.drop_first()[w - 1] == id);
                assert(s.drop_first().contains(id));
            }
        } else {
            assert(s[0] != id);
            if s.drop_first().contains(id) {
                let w: int = choose|w: int| 0 <= w < s.drop_first().len()
                    && s.drop_first()[w] == id;
                assert(s[w + 1] == id);
            }
        }
    }
}

pub proof fn lemma_pos_in_push(s: Seq<Seq<char>>, x: Seq<char>, y: Seq<char>)
    ensures
        pos_in(s.push(x), y) == (if s.contains(y) {
            pos_in(s, y)
        } else if x == y {
            s.len() as int
        } else {
            -1
        }),
    decreases s.len(),
{
    lemma_pos_in_props(s, y);
    let sp = s.push(x);
    if s.len() == 0 {
        assert(sp[0] == x);
        assert(sp.drop_first() =~= Seq::<Seq<char>>::empty());
        assert(!s.contains(y));
        if x == y {
            assert(pos_in(sp, y) == 0);
        } else {
            assert(pos_in(sp.drop_first(), y) == -1);
            assert(pos_in(sp, y) == -1);
        }
    } else {
        assert(sp[0] == s[0]);
        assert(sp.drop_first() =~= s.drop_first().push(x));
        lemma_pos_in_push(s.drop_first(), x, y);
        lemma_pos_in_props(s.drop_first(), y);
        if s[0] == y {
            assert(s.contains(y));
            assert(pos_in(sp, y) == 0);
            assert(pos_in(s, y) == 0);
        } else {
            assert(s.drop_first().contains(y) == s.contains(y)) by {
                if s.contains(y) {
                    let w: int = choose|w: int| 0 <= w < s.len() && s[w] == y;
                    assert(w >= 1);
                    assert(s.drop_first()[w - 1] == s[w]);
                    assert(s.drop_first().contains(y));
                }
                if s.drop_first().contains(y) {
                    let w: int = choose|w: int| 0 <= w < s.drop_first().len()
                        && s.drop_first()[w] == y;
                    assert(s[w + 1] == s.drop_first()[w]);
                    assert(s.contains(y));
                }
            }
            let p = pos_in(sp.drop_first(), y);
            assert(p == pos_in(s.drop_first().push(x), y));
            if s.contains(y) {
                assert(p == pos_in(s.drop_first(), y));
                assert(p >= 0);
                assert(pos_in(sp, y) == p + 1);
                assert(pos_in(s, y) == pos_in(s.drop_first(), y) + 1);
            } else if x == y {
                assert(p == s.drop_first().len());
                assert(pos_in(sp, y) == p + 1);
                assert(p + 1 == s.len());
            } else {
                assert(p == -1);
                assert(pos_in(sp, y) == -1);
            }
        }
    }
}

/// The occurrence multiplicities of a molecule, aligned to `firsts`.
pub open spec fn mol_counts(ids: Seq<Seq<char>>) -> Seq<usize> {
    firsts(ids).map(|k: int, id: Seq<char>| count_of(ids, id) as usize)
}

pub proof fn lemma_firsts_push(ids: Seq<Seq<char>>, x: Seq<char>)
    ensures
        firsts(ids.push(x)) == (if firsts(ids).contains(x) {
            firsts(ids)
        } else {
            firsts(ids).push(x)
        }),
        count_of(ids.push(x), x) == count_of(ids, x) + 1,
        forall|y: Seq<char>| y != x ==> #[trigger] count_of(ids.push(x), y) == count_of(ids, y),
{
    assert(ids.push(x).drop_last() =~= ids);
    assert(ids.push(x).last() == x);
}

pub proof fn lemma_mol_counts_push(ids: Seq<Seq<char>>, x: Seq<char>)
    ensures
        firsts(ids).contains(x) ==> mol_counts(ids.push(x))
            == mol_counts(ids).update(pos_in(firsts(ids), x), (count_of(ids, x) + 1) as usize),
        !firsts(ids).contains(x) ==> mol_counts(ids.push(x))
            == mol_counts(ids).push(1usize) && count_of(ids, x) == 0,
{
    lemma_firsts_props(ids);
    lemma_firsts_push(ids, x);
    lemma_pos_in_props(firsts(ids), x);
    let f = firsts(ids);
    if f.contains(x) {
        let pos = pos_in(f, x);
        assert forall|k: int| 0 <= k < f.len()
            implies mol_counts(ids.push(x))[k]
                == mol_counts(ids).update(pos, (count_of(ids, x) + 1) as usize)[k]
        by {
            if k == pos {
                assert(f[k] == x);
            } else {
                assert(f[k] != x) by {
                    if f[k] == x {
                        if k < pos {
                            assert(f[k] != f[pos]);
                        } else {
                            assert(f[pos] != f[k]);
                        }
                    }
                }
            }
        }
        assert(mol_counts(ids.push(x))
            =~= mol_counts(ids).update(pos, (count_of(ids, x) + 1) as usize));
    } else {
        assert(!ids.contains(x));
        lemma_count_le(ids, x);
        assert forall|k: int| 0 <= k < f.len() + 1
            implies mol_counts(ids.push(x))[k] == mol_counts(ids).push(1usize)[k]
        by {
            if k < f.len() {
                assert(f.contains(f[k]));
                assert(f[k] != x);
                assert(firsts(ids.push(x))[k] == f[k]);
            } else {
                assert(firsts(ids.push(x))[k] == x);
            }
        }
        assert(mol_counts(ids.push(x)) =~= mol_counts(ids).push(1usize));
    }
}

/// The grouped flattening likewise reads nothing of a topology but its
/// segment list and its bonds.
pub proof fn lemma_grouped_congruent(a: Seq<ChemicalRecord>, b: Seq<ChemicalRecord>, segs: Seq<SegmentRecord>)
    requires
        crate::record::chems_like(a, b),
    ensures
        g_ids(a) == g_ids(b),
        g_component_index(a) == g_component_index(b),
        g_counts(a) == g_counts(b),
        g_record_index(a, segs) == g_record_index(b, segs),
        g_bonds(a) == g_bonds(b),
        total_bonds(a) == total_bonds(b),
    decreases a.len(),
{
    if a.len() > 0 {
        assert(crate::record::chem_like(a.last(), b.last()));
        assert(crate::record::chems_like(a.drop_last(), b.drop_last())) by {
            assert(forall|i: int| 0 <= i < a.len() - 1
                ==> a.drop_last()[i] == #[trigger] a[i] && b.drop_last()[i] == b[i]);
        }
        lemma_grouped_congruent(a.drop_last(), b.drop_last(), segs);
        assert(chem_ids(a.last()) == chem_ids(b.last()));
        assert(a.last().bonds@ == b.last().bonds@);
    }
}

/// The distinct identifiers of all molecules, molecule by molecule.
pub open spec fn g_ids(chems: Seq<ChemicalRecord>) -> Seq<Seq<char>>
    decreases chems.len(),
{
    if chems.len() == 0 {
        Seq::empty()
    } else {
        g_ids(chems.drop_last()) + firsts(chem_ids(chems.last()))
    }
}

/// The molecule of each grouped occurrence.
pub open spec fn g_component_index(chems: Seq<ChemicalRecord>) -> Seq<usize>
    decreases chems.len(),
{
    if chems.len() == 0 {
        Seq::empty()
    } else {
        g_component_index(chems.drop_last())
            + rep_idx(firsts(chem_ids(chems.last())).len(), (chems.len() - 1) as usize)
    }
}

/// The multiplicity of each grouped occurrence.
pub open spec fn g_counts(chems: Seq<ChemicalRecord>) -> Seq<usize>
    decreases chems.len(),
{
    if chems.len() == 0 {
        Seq::empty()
    } else {
        g_counts(chems.drop_last()) + mol_counts(chem_ids(chems.last()))
    }
}

/// The record index of each grouped occurrence.
pub open spec fn g_record_index(chems: Seq<ChemicalRecord>, segs: Seq<SegmentRecord>) -> Seq<usize>
    decreases chems.len(),
{
    if chems.len() == 0 {
        Seq::empty()
    } else {
        g_record_index(chems.drop_last(), segs) + ridx_map(segs, firsts(chem_ids(chems.last())))
    }
}

pub proof fn lemma_g_push(chems: Seq<ChemicalRecord>, c: ChemicalRecord, segs: Seq<SegmentRecord>)
    ensures
        g_ids(chems.push(c)) == g_ids(chems) + firsts(chem_ids(c)),
        g_component_index(chems.push(c)) == g_component_index(chems)
            + rep_idx(firsts(chem_ids(c)).len(), chems.len() as usize),
        g_counts(chems.push(c)) == g_counts(chems) + mol_counts(chem_ids(c)),
        g_record_index(chems.push(c), segs) == g_record_index(chems, segs)
            + ridx_map(segs, firsts(chem_ids(c))),
{
    assert(chems.push(c).drop_last() =~= chems);
    assert(chems.push(c).last() == c);
}

pub proof fn lemma_g_lens(chems: Seq<ChemicalRecord>, segs: Seq<SegmentRecord>)
    ensures
        g_component_index(chems).len() == g_ids(chems).len(),
        g_counts(chems).len() == g_ids(chems).len(),
        g_record_index(chems, segs).len() == g_ids(chems).len(),
    decreases chems.len(),
{
    if chems.len() > 0 {
        lemma_g_lens(chems.drop_last(), segs);
    }
}

/// One accumulated bond of the grouped parameter set: an unordered pair of
/// occurrence indices, with the number of such bonds in the topology.
#[derive(Clone, Copy, Debug, PartialEq, Eq, Structural)]
pub struct BondCount {
    pub a: usize,
    pub b: usize,
    pub count: usize,
}

/// The occurrence pair a bond maps to: each endpoint resolves to its
/// molecule's occurrence of that identifier, and the pair is ordered.
pub open spec fn g_pair(ids: Seq<Seq<char>>, base: nat, bd: Bond) -> (usize, usize) {
    let oa = base + pos_in(firsts(ids), ids[bd.a as int]);
    let ob = base + pos_in(firsts(ids), ids[bd.b as int]);
    if oa <= ob {
        (oa as usize, ob as usize)
    } else {
        (ob as usize, oa as usize)
    }
}

/// Registers one more bond of a pair: an existing entry of the pair is
/// incremented, a new pair is appended with count one.
pub open spec fn add_bond(s: Seq<BondCount>, p: (usize, usize)) -> Seq<BondCount>
    decreases s.len(),
{
    if s.len() == 0 {
        seq![BondCount { a: p.0, b: p.1, count: 1 }]
    } else if s[0].a == p.0 && s[0].b == p.1 {
        seq![BondCount { a: p.0, b: p.1, count: (s[0].count + 1) as usize }] + s.drop_first()
    } else {
        seq![s[0]] + add_bond(s.drop_first(), p)
    }
}

/// Whether some entry holds the pair.
pub open spec fn has_pair(s: Seq<BondCount>, p: (usize, usize)) -> bool {
    exists|k: int| 0 <= k < s.len() && (#[trigger] s[k]).a == p.0 && s[k].b == p.1
}

pub proof fn lemma_add_bond_fresh(s: Seq<BondCount>, p: (usize, usize))
    requires
        !has_pair(s, p),
    ensures
        add_bond(s, p) == s.push(BondCount { a: p.0, b: p.1, count: 1 }),
    decreases s.len(),
{
    if s.len() == 0 {
        assert(add_bond(s, p) =~= s.push(BondCount { a: p.0, b: p.1, count: 1 }));
    } else {
        assert(s[0].a != p.0 || s[0].b != p.1);
        assert(!has_pair(s.drop_first(), p)) by {
            if has_pair(s.drop_first(), p) {
                let k: int = choose|k: int| 0 <= k < s.drop_first().len()
                    && (#[trigger] s.drop_first()[k]).a == p.0 && s.drop_first()[k].b == p.1;
                assert(s[k + 1] == s.drop_first()[k]);
            }
        }
        lemma_add_bond_fresh(s.drop_first(), p);
        assert(add_bond(s, p) =~= s.push(BondCount { a: p.0, b: p.1, count: 1 }));
    }
}

pub proof fn lemma_add_bond_update(s: Seq<BondCount>, p: (usize, usize), k: int)
    requires
        0 <= k < s.len(),
        s[k].a == p.0 && s[k].b == p.1,
        forall|k1: int, k2: int| 0 <= k1 < k2 < s.len()
            ==> ((#[trigger] s[k1]).a, s[k1].b) != ((#[trigger] s[k2]).a, s[k2].b),
    ensures
        add_bond(s, p) == s.update(k, BondCount { a: p.0, b: p.1, count: (s[k].count + 1) as usize }),
    decreases s.len(),
{
    if s[0].a == p.0 && s[0].b == p.1 {
        assert(k == 0) by {
            if k > 0 {
                assert((s[0].a, s[0].b) != (s[k].a, s[k].b));
            }
        }
        assert(add_bond(s, p) =~= s.update(0, BondCount { a: p.0, b: p.1, count: (s[0].count + 1) as usize }));
    } else {
        assert(k > 0);
        assert(forall|w: int| 0 <= w < s.len() - 1 ==> s.drop_first()[w] == #[trigger] s[w + 1]);
        assert forall|k1: int, k2: int| 0 <= k1 < k2 < s.drop_first().len()
            implies ((#[trigger] s.drop_first()[k1]).a, s.drop_first()[k1].b)
                != ((#[trigger] s.drop_first()[k2]).a, s.drop_first()[k2].b)
        by {
            assert(s.drop_first()[k1] == s[k1 + 1]);
            assert(s.drop_first()[k2] == s[k2 + 1]);
        }
        assert(s.drop_first()[k - 1] == s[k]);
        lemma_add_bond_update(s.drop_first(), p, k - 1);
        assert(add_bond(s, p) =~= s.update(k, BondCount { a: p.0, b: p.1, count: (s[k].count + 1) as usize }));
    }
}

/// The bonds of one molecule, registered in order on top of the entries of
/// the earlier molecules.
pub open spec fn mol_bonds(acc: Seq<BondCount>, ids: Seq<Seq<char>>, base: nat, bonds: Seq<Bond>) -> Seq<BondCount>
    decreases bonds.len(),
{
    if bonds.len() == 0 {
        acc
    } else {
        add_bond(mol_bonds(acc, ids, base, bonds.drop_last()), g_pair(ids, base, bonds.last()))
    }
}

pub proof fn lemma_mol_bonds_push(acc: Seq<BondCount>, ids: Seq<Seq<char>>, base: nat, bonds: Seq<Bond>, bd: Bond)
    ensures
        mol_bonds(acc, ids, base, bonds.push(bd))
            == add_bond(mol_bonds(acc, ids, base, bonds), g_pair(ids, base, bd)),
{
    assert(bonds.push(bd).drop_last() =~= bonds);
    assert(bonds.push(bd).last() == bd);
}

/// The accumulated bond list of all molecules.
pub open spec fn g_bonds(chems: Seq<ChemicalRecord>) -> Seq<BondCount>
    decreases chems.len(),
{
    if chems.len() == 0 {
        Seq::empty()
    } else {
        mol_bonds(g_bonds(chems.drop_last()), chem_ids(chems.last()),
            g_ids(chems.drop_last()).len(), chems.last().bonds@)
    }
}

pub proof fn lemma_g_bonds_push(chems: Seq<ChemicalRecord>, c: ChemicalRecord)
    ensures
        g_bonds(chems.push(c)) == mol_bonds(g_bonds(chems), chem_ids(c), g_ids(chems).len(), c.bonds@),
{
    assert(chems.push(c).drop_last() =~= chems);
    assert(chems.push(c).last() == c);
}

/// The total number of bonds of all molecules.
pub open spec fn total_bonds(chems: Seq<ChemicalRecord>) -> nat
    decreases chems.len(),
{
    if chems.len() == 0 {
        0
    } else {
        total_bonds(chems.drop_last()) + chems.last().bonds@.len()
    }
}

/// One flattened bond per bond of each molecule: the flattened bond list is
/// as long as the bond total.
pub proof fn lemma_flat_bonds_len(chems: Seq<ChemicalRecord>)
    ensures
        flat_bonds(chems).len() == total_bonds(chems),
    decreases chems.len(),
{
    if chems.len() > 0 {
        lemma_flat_bonds_len(chems.drop_last());
    }
}

pub proof fn lemma_total_bonds_take(chems: Seq<ChemicalRecord>, i: int)
    requires
        0 <= i <= chems.len(),
    ensures
        total_bonds(chems.take(i)) <= total_bonds(chems),
        i < chems.len() ==> total_bonds(chems.take(i)) + chems[i].bonds@.len()
            == total_bonds(chems.take(i + 1)),
    decreases chems.len() - i,
{
    if i < chems.len() {
        assert(chems.take(i + 1).drop_last() =~= chems.take(i));
        assert(chems.take(i + 1).last() == chems[i]);
        lemma_total_bonds_take(chems, i + 1);
    } else {
        assert(chems.take(i) =~= chems);
    }
}

/// Occurrences are flattened molecule by molecule, so the molecule of each
/// occurrence is non-decreasing along the ordered arrays.
pub proof fn lemma_flat_component_index_sorted(chems: Seq<ChemicalRecord>)
    requires
        chems.len() <= usize::MAX,
    ensures
        forall|t: int| 0 <= t < flat_component_index(chems).len()
            ==> (#[trigger] flat_component_index(chems)[t]) < chems.len(),
        forall|t1: int, t2: int|
            0 <= t1 <= t2 < flat_component_index(chems).len()
            ==> flat_component_index(chems)[t1] <= flat_component_index(chems)[t2],
    decreases chems.len(),
{
    if chems.len() > 0 {
        lemma_flat_component_index_sorted(chems.drop_last());
        let pfx = flat_component_index(chems.drop_last());
        let block = rep_idx(chem_ids(chems.last()).len(), (chems.len() - 1) as usize);
        assert(flat_component_index(chems) == pfx + block);
        assert(forall|t: int| 0 <= t < pfx.len()
            ==> #[trigger] flat_component_index(chems)[t] == pfx[t]);
        assert forall|t: int| pfx.len() <= t < pfx.len() + block.len()
            implies #[trigger] flat_component_index(chems)[t] == (chems.len() - 1) as usize
        by {
            assert(flat_component_index(chems)[t] == block[t - pfx.len()]);
        }
        assert forall|t1: int, t2: int|
            0 <= t1 <= t2 < flat_component_index(chems).len()
            implies flat_component_index(chems)[t1] <= flat_component_index(chems)[t2]
        by {
            if t2 < pfx.len() {
                assert(flat_component_index(chems)[t1] == pfx[t1]);
                assert(flat_component_index(chems)[t2] == pfx[t2]);
            } else if t1 < pfx.len() {
                assert(flat_component_index(chems)[t1] == pfx[t1]);
                assert(pfx[t1] < chems.drop_last().len());
            }
        }
    }
}

/// The same, for the grouped arrays.
pub proof fn lemma_g_component_index_sorted(chems: Seq<ChemicalRecord>)
    requires
        chems.len() <= usize::MAX,
    ensures
        forall|t: int| 0 <= t < g_component_index(chems).len()
            ==> (#[trigger] g_component_index(chems)[t]) < chems.len(),
        forall|t1: int, t2: int|
            0 <= t1 <= t2 < g_component_index(chems).len()
            ==> g_component_index(chems)[t1] <= g_component_index(chems)[t2],
    decreases chems.len(),
{
    if chems.len() > 0 {
        lemma_g_component_index_sorted(chems.drop_last());
        let pfx = g_component_index(chems.drop_last());
        let block = rep_idx(firsts(chem_ids(chems.last())).len(), (chems.len() - 1) as usize);
        assert(g_component_index(chems) == pfx + block);
        assert(forall|t: int| 0 <= t < pfx.len()
            ==> #[trigger] g_component_index(chems)[t] == pfx[t]);
        assert forall|t: int| pfx.len() <= t < pfx.len() + block.len()
            implies #[trigger] g_component_index(chems)[t] == (chems.len() - 1) as usize
        by {
            assert(g_component_index(chems)[t] == block[t - pfx.len()]);
        }
        assert forall|t1: int, t2: int|
            0 <= t1 <= t2 < g_component_index(chems).len()
            implies g_component_index(chems)[t1] <= g_component_index(chems)[t2]
        by {
            if t2 < pfx.len() {
                assert(g_component_index(chems)[t1] == pfx[t1]);
                assert(g_component_index(chems)[t2] == pfx[t2]);
            } else if t1 < pfx.len() {
                assert(g_component_index(chems)[t1] == pfx[t1]);
                assert(pfx[t1] < chems.drop_last().len());
            }
        }
    }
}

/// The association bookkeeping lists a strictly increasing subsequence of
/// the occurrence indices.
pub proof fn lemma_assoc_occurrences_increasing(ridx: Seq<usize>, segs: Seq<SegmentRecord>)
    requires
        ridx.len() <= usize::MAX,
    ensures
        forall|k: int| 0 <= k < assoc_occurrences(ridx, segs).len()
            ==> (#[trigger] assoc_occurrences(ridx, segs)[k]) < ridx.len(),
        forall|k1: int, k2: int|
            0 <= k1 < k2 < assoc_occurrences(ridx, segs).len()
            ==> assoc_occurrences(ridx, segs)[k1] < assoc_occurrences(ridx, segs)[k2],
    decreases ridx.len(),
{
    if ridx.len() > 0 {
        lemma_assoc_occurrences_increasing(ridx.drop_last(), segs);
        let pfx = assoc_occurrences(ridx.drop_last(), segs);
        if segs[ridx.last() as int].model_record.is_associating() {
            assert(assoc_occurrences(ridx, segs) == pfx.push((ridx.len() - 1) as usize));
            assert(forall|k: int| 0 <= k < pfx.len()
                ==> #[trigger] assoc_occurrences(ridx, segs)[k] == pfx[k]);
            assert(assoc_occurrences(ridx, segs).last() == (ridx.len() - 1) as usize);
            assert forall|k1: int, k2: int|
                0 <= k1 < k2 < assoc_occurrences(ridx, segs).len()
                implies assoc_occurrences(ridx, segs)[k1] < assoc_occurrences(ridx, segs)[k2]
            by {
                if k2 < pfx.len() {
                    assert(assoc_occurrences(ridx, segs)[k1] == pfx[k1]);
                    assert(assoc_occurrences(ridx, segs)[k2] == pfx[k2]);
                } else {
                    assert(assoc_occurrences(ridx, segs)[k1] == pfx[k1]);
                    assert(pfx[k1] < ridx.drop_last().len());
                    assert(assoc_occurrences(ridx, segs)[k2] == (ridx.len() - 1) as usize);
                }
            }
        } else {
            assert(assoc_occurrences(ridx, segs) == pfx);
        }
    }
}

/// The topologies picked out by a selection of molecule indices.
pub open spec fn selected(chems: Seq<ChemicalRecord>, list: Seq<usize>) -> Seq<ChemicalRecord> {
    list.map(|k: int, i: usize| chems[i as int])
}

/// Assembly reads nothing of a topology but its name, its segment list and
/// its bonds, so topology lists that agree on those flatten identically.
pub proof fn lemma_flatten_congruent(a: Seq<ChemicalRecord>, b: Seq<ChemicalRecord>, segs: Seq<SegmentRecord>)
    requires
        crate::record::chems_like(a, b),
    ensures
        flat_ids(a) == flat_ids(b),
        flat_component_index(a) == flat_component_index(b),
        flat_record_index(a, segs) == flat_record_index(b, segs),
        flat_bonds(a) == flat_bonds(b),
        all_bonds_wf(a) == all_bonds_wf(b),
    decreases a.len(),
{
    if a.len() == 0 {
        assert(all_bonds_wf(a));
        assert(all_bonds_wf(b));
    } else {
        assert(crate::record::chem_like(a.last(), b.last()));
        assert(crate::record::chems_like(a.drop_last(), b.drop_last())) by {
            assert(forall|i: int| 0 <= i < a.len() - 1
                ==> a.drop_last()[i] == #[trigger] a[i] && b.drop_last()[i] == b[i]);
        }
        lemma_flatten_congruent(a.drop_last(), b.drop_last(), segs);
        assert(chem_ids(a.last()) == chem_ids(b.last()));
        assert(a.last().bonds@ == b.last().bonds@);
        assert(all_bonds_wf(a) == all_bonds_wf(b)) by {
            if all_bonds_wf(a) {
                assert forall|i: int| 0 <= i < b.len() implies (#[trigger] b[i]).bonds_wf() by {
                    assert(a[i].bonds_wf());
                    assert(crate::record::chem_like(a[i], b[i]));
                    assert(strs(a[i].segments@).len() == strs(b[i].segments@).len());
                }
            }
            if all_bonds_wf(b) {
                assert forall|i: int| 0 <= i < a.len() implies (#[trigger] a[i]).bonds_wf() by {
                    assert(b[i].bonds_wf());
                    assert(crate::record::chem_like(a[i], b[i]));
                    assert(strs(a[i].segments@).len() == strs(b[i].segments@).len());
                }
            }
        }
    }
}

pub proof fn lemma_first_unknown_congruent(a: Seq<ChemicalRecord>, b: Seq<ChemicalRecord>, segs: Seq<SegmentRecord>)
    requires
        crate::record::chems_like(a, b),
    ensures
        first_unknown(a, segs) == first_unknown(b, segs),
    decreases a.len(),
{
    if a.len() > 0 {
        assert(crate::record::chem_like(a[0], b[0]));
        assert(chem_ids(a[0]) == chem_ids(b[0]));
        assert(crate::record::chems_like(a.drop_first(), b.drop_first())) by {
            assert(forall|i: int| 0 <= i < a.len() - 1
                ==> a.drop_first()[i] == #[trigger] a[i + 1] && b.drop_first()[i] == b[i + 1]);
        }
        lemma_first_unknown_congruent(a.drop_first(), b.drop_first(), segs);
    }
}

/// One entry of the binary interaction matrix: the correction applies only
/// between occurrences of different molecules, and is zero (absent)
/// between occurrences of one molecule.
pub open spec fn k_ij_entry(
    bins: Seq<BinaryRecord>,
    comp: Seq<usize>,
    ids: Seq<Seq<char>>,
    i: int,
    j: int,
) -> Option<u64> {
    if comp[i] != comp[j] {
        bin_lookup(bins, ids[i], ids[j])
    } else {
        None
    }
}

} // verus!
