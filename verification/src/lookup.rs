//! Shared building blocks of the two assemblers: the identifier lookup map
//! over the segment record store, and the binary interaction matrix.

use vstd::prelude::*;
use crate::record::{BinaryRecord, Par, SegmentRecord};
use crate::model::{bin_lookup, bins_of, k_ij_entry, seg_lookup, strs};
use crate::imap::{id_map_view, id_map_with_capacity, id_map_clear, id_map_insert, id_map_get,
    pair_map_view, pair_map_with_capacity, pair_map_clear, pair_map_insert, pair_map_get};

verus! {

/// The lookup map agrees with `seg_lookup` over the whole store.
pub open spec fn seg_map_matches(m: Map<Seq<char>, usize>, segs: Seq<SegmentRecord>) -> bool {
    &&& forall|id: Seq<char>| m.dom().contains(id) == (#[trigger] seg_lookup(segs, id)) is Some
    &&& forall|id: Seq<char>| #[trigger] m.dom().contains(id)
        ==> m[id] as int == seg_lookup(segs, id).unwrap()
}

/// Builds the map from segment identifiers to the record index each resolves
/// to; a later record of an identifier shadows an earlier one.
pub(crate) fn build_segment_map(segs: &Vec<SegmentRecord>) -> (m: indexmap::IndexMap<String, usize>)
    ensures
        seg_map_matches(id_map_view(m), segs@),
{
    let mut m = id_map_with_capacity(segs.len());
    id_map_clear(&mut m);
    proof {
        assert(id_map_view(m) =~= Map::<Seq<char>, usize>::empty());
        assert(segs@.take(0) =~= Seq::<SegmentRecord>::empty());
    }
    let mut r: usize = 0;
    while r < segs.len()
        invariant
            r <= segs@.len(),
            seg_map_matches(id_map_view(m), segs@.take(r as int)),
        decreases segs@.len() - r,
    {
        let id = segs[r].identifier.clone();
        proof {
            assert(segs@.take(r as int).push(segs@[r as int]) =~= segs@.take(r + 1));
            assert forall|q: Seq<char>| true implies
                seg_lookup(segs@.take(r + 1), q) == (if segs@[r as int].identifier@ == q {
                    Some(r as int)
                } else {
                    seg_lookup(segs@.take(r as int), q)
                })
            by {
                lemma_seg_lookup_push_take(segs@, r as int, q);
            }
        }
        let ghost vold = id_map_view(m);
        id_map_insert(&mut m, id, r);
        proof {
            assert(id@ == segs@[r as int].identifier@);
            assert(id_map_view(m) == vold.insert(id@, r));
            assert forall|q: Seq<char>| true implies
                id_map_view(m).dom().contains(q) == (#[trigger] seg_lookup(segs@.take(r + 1), q)) is Some
            by {
                if q == id@ {
                    assert(id_map_view(m).dom().contains(q));
                } else {
                    assert(id_map_view(m).dom().contains(q) == vold.dom().contains(q));
                }
            }
            assert forall|q: Seq<char>| #[trigger] id_map_view(m).dom().contains(q)
                implies id_map_view(m)[q] as int == seg_lookup(segs@.take(r + 1), q).unwrap()
            by {
                if q == id@ {
                } else {
                    assert(id_map_view(m)[q] == vold[q]);
                }
            }
        }
        r = r + 1;
    }
    proof {
        assert(segs@.take(segs@.len() as int) =~= segs@);
    }
    m
}

proof fn lemma_seg_lookup_push_take(segs: Seq<SegmentRecord>, r: int, q: Seq<char>)
    requires
        0 <= r < segs.len(),
    ensures
        seg_lookup(segs.take(r + 1), q) == (if segs[r].identifier@ == q {
            Some(r)
        } else {
            seg_lookup(segs.take(r), q)
        }),
{
    assert(segs.take(r + 1) =~= segs.take(r).push(segs[r]));
    crate::model::lemma_seg_lookup_push(segs.take(r), segs[r], q);
}

/// An interaction word wrapped as a parameter, entry by entry.
pub open spec fn par_opt(o: Option<u64>) -> Option<Par> {
    match o {
        Some(x) => Some(Par(x)),
        None => None,
    }
}

/// The pair lookup map agrees with `bin_lookup` over the given records.
pub open spec fn pair_map_matches(m: Map<(Seq<char>, Seq<char>), u64>, bins: Seq<BinaryRecord>) -> bool {
    &&& forall|a: Seq<char>, b: Seq<char>|
        m.dom().contains((a, b)) == (#[trigger] bin_lookup(bins, a, b)) is Some
    &&& forall|a: Seq<char>, b: Seq<char>| #[trigger] m.dom().contains((a, b))
        ==> m[(a, b)] == bin_lookup(bins, a, b).unwrap()
}

fn build_pair_map(bins: &Vec<BinaryRecord>) -> (m: indexmap::IndexMap<(String, String), u64>)
    ensures
        pair_map_matches(pair_map_view(m), bins@),
{
    let mut m = pair_map_with_capacity(bins.len());
    pair_map_clear(&mut m);
    proof {
        assert(pair_map_view(m) =~= Map::<(Seq<char>, Seq<char>), u64>::empty());
        assert(bins@.take(0) =~= Seq::<BinaryRecord>::empty());
    }
    let mut r: usize = 0;
    while r < bins.len()
        invariant
            r <= bins@.len(),
            pair_map_matches(pair_map_view(m), bins@.take(r as int)),
        decreases bins@.len() - r,
    {
        let rec = &bins[r];
        proof {
            assert(bins@.take(r + 1) =~= bins@.take(r as int).push(bins@[r as int]));
            assert forall|a: Seq<char>, b: Seq<char>| true implies
                bin_lookup(bins@.take(r + 1), a, b) == (if bins@[r as int].names_pair(a, b) {
                    Some(bins@[r as int].model_record.0)
                } else {
                    bin_lookup(bins@.take(r as int), a, b)
                })
            by {
                lemma_bin_lookup_push(bins@.take(r as int), bins@[r as int], a, b);
            }
        }
        pair_map_insert(&mut m, rec.id1.clone(), rec.id2.clone(), rec.model_record.0);
        pair_map_insert(&mut m, rec.id2.clone(), rec.id1.clone(), rec.model_record.0);
        r = r + 1;
    }
    proof {
        assert(bins@.take(bins@.len() as int) =~= bins@);
    }
    m
}

proof fn lemma_bin_lookup_push(bins: Seq<BinaryRecord>, rec: BinaryRecord, a: Seq<char>, b: Seq<char>)
    ensures
        bin_lookup(bins.push(rec), a, b) == (if rec.names_pair(a, b) {
            Some(rec.model_record.0)
        } else {
            bin_lookup(bins, a, b)
        }),
{
    assert(bins.push(rec).drop_last() =~= bins);
}

/// Builds the binary interaction matrix over the flattened occurrences: an
/// entry holds the correction of the identifier pair when the occurrences
/// belong to different molecules and a binary record names the pair, and
/// holds nothing otherwise.
pub(crate) fn build_k_matrix(
    identifiers: &Vec<String>,
    component_index: &Vec<usize>,
    bins: &Option<Vec<BinaryRecord>>,
) -> (r: Vec<Vec<Option<Par>>>)
    requires
        identifiers@.len() == component_index@.len(),
    ensures
        r@.len() == identifiers@.len(),
        forall|i: int| 0 <= i < r@.len() ==> (#[trigger] r@[i])@.len() == identifiers@.len(),
        forall|i: int, j: int| 0 <= i < r@.len() && 0 <= j < r@.len()
            ==> #[trigger] r@[i]@[j]
                == par_opt(k_ij_entry(bins_of(*bins), component_index@, strs(identifiers@), i, j)),
{
    let n = identifiers.len();
    let mut r: Vec<Vec<Option<Par>>> = Vec::with_capacity(n);
    match bins {
        None => {
            let mut i: usize = 0;
            while i < n
                invariant
                    i <= n,
                    n == identifiers@.len() == component_index@.len(),
                    r@.len() == i,
                    forall|t: int| 0 <= t < i ==> (#[trigger] r@[t])@.len() == n,
                    forall|t: int, j: int| 0 <= t < i && 0 <= j < n
                        ==> #[trigger] r@[t]@[j] == None::<Par>,
                decreases n - i,
            {
                let mut row: Vec<Option<Par>> = Vec::with_capacity(n);
                let mut j: usize = 0;
                while j < n
                    invariant
                        j <= n,
                        row@.len() == j,
                        forall|t: int| 0 <= t < j ==> #[trigger] row@[t] == None::<Par>,
                    decreases n - j,
                {
                    row.push(None);
                    j = j + 1;
                }
                r.push(row);
                i = i + 1;
            }
        }
        Some(b) => {
            let pm = build_pair_map(b);
            let mut i: usize = 0;
            while i < n
                invariant
                    i <= n,
                    n == identifiers@.len() == component_index@.len(),
                    pair_map_matches(pair_map_view(pm), b@),
                    bins_of(*bins) == b@,
                    r@.len() == i,
                    forall|t: int| 0 <= t < i ==> (#[trigger] r@[t])@.len() == n,
                    forall|t: int, j: int| 0 <= t < i && 0 <= j < n
                        ==> #[trigger] r@[t]@[j]
                            == par_opt(k_ij_entry(b@, component_index@, strs(identifiers@), t, j)),
                decreases n - i,
            {
                let mut row: Vec<Option<Par>> = Vec::with_capacity(n);
                let mut j: usize = 0;
                while j < n
                    invariant
                        j <= n,
                        i < n,
                        n == identifiers@.len() == component_index@.len(),
                        pair_map_matches(pair_map_view(pm), b@),
                        row@.len() == j,
                        forall|t: int| 0 <= t < j
                            ==> #[trigger] row@[t]
                                == par_opt(k_ij_entry(b@, component_index@, strs(identifiers@), i as int, t)),
                    decreases n - j,
                {
                    if component_index[i] != component_index[j] {
                        match pair_map_get(&pm, &identifiers[i], &identifiers[j]) {
                            Some(v) => row.push(Some(Par(v))),
                            None => row.push(None),
                        }
                    } else {
                        row.push(None);
                    }
                    j = j + 1;
                }
                r.push(row);
                i = i + 1;
            }
        }
    }
    r
}

} // verus!
