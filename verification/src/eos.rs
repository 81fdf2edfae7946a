//! Parameter set of the equation of state: the grouped flattening of the
//! molecular topologies. Equal segments of one molecule share a single
//! occurrence with a multiplicity, and bonds are accumulated per unordered
//! occurrence pair.

use vstd::prelude::*;
use crate::record::{BinaryRecord, Bond, ChemicalRecord, Par, ParameterError, SegmentRecord,
    PAR_UNIT_BITS, chems_like, strs};
use crate::model::{BondCount, add_bond, all_bonds_wf, all_segments_known, assoc_occurrences,
    bins_of, chem_ids, count_of, firsts, first_unknown, g_bonds, g_component_index, g_counts,
    g_ids, g_pair, g_record_index, has_pair, k_ij_entry, lemma_add_bond_fresh,
    lemma_add_bond_update, lemma_count_le, lemma_firsts_props, lemma_firsts_push,
    lemma_first_unknown_in_at, lemma_first_unknown_in_none, lemma_first_unknown_none,
    lemma_first_unknown_push, lemma_g_bonds_push, lemma_g_lens, lemma_g_push,
    lemma_mol_bonds_push, lemma_mol_counts_push, lemma_pos_in_props, lemma_pos_in_push,
    lemma_ridx_map_push, lemma_seg_lookup_bounds, lemma_strs_push, lemma_total_bonds_take,
    mol_bonds, mol_counts, pos_in, rep_idx, ridx_map, seg_lookup, total_bonds};
use crate::imap::{bond_map_view, bond_map_with_capacity, bond_map_clear, bond_map_get,
    bond_map_insert, id_map_view, id_map_with_capacity, id_map_clear, id_map_get, id_map_insert};
use crate::lookup::{build_k_matrix, build_segment_map, par_opt, seg_map_matches};

verus! {

/// Parameter set of the heterosegmented equation of state, grouped
/// occurrence by occurrence.
pub struct GcPcSaftEosParameters {
    /// Molecule of each occurrence, non-decreasing
    pub component_index: Vec<usize>,
    /// Segment identifier of each occurrence
    pub identifiers: Vec<String>,
    /// Record of the store that each occurrence resolves to
    pub record_index: Vec<usize>,
    /// Multiplicity of each occurrence in its molecule; the shape factor of
    /// an occurrence is `m_segment` taken `n` times
    pub n: Vec<usize>,
    /// Shape factor of one segment of each occurrence
    pub m_segment: Vec<Par>,
    /// Diameter of each occurrence
    pub sigma: Vec<Par>,
    /// Energetic parameter of each occurrence
    pub epsilon_k: Vec<Par>,
    /// Accumulated bonds over unordered occurrence pairs
    pub bonds: Vec<BondCount>,
    /// Occurrences that carry association sites
    pub assoc_segment: Vec<usize>,
    /// Association volume, aligned to `assoc_segment`
    pub kappa_ab: Vec<Par>,
    /// Association energy, aligned to `assoc_segment`
    pub epsilon_k_ab: Vec<Par>,
    /// Donor site count, aligned to `assoc_segment`
    pub na: Vec<Par>,
    /// Acceptor site count, aligned to `assoc_segment`
    pub nb: Vec<Par>,
    /// Binary interaction corrections over occurrence pairs
    pub k_ij: Vec<Vec<Option<Par>>>,
    /// The topologies this set was assembled from
    pub chemical_records: Vec<ChemicalRecord>,
    /// The segment record store this set was assembled from
    pub segment_records: Vec<SegmentRecord>,
    /// The binary interaction records this set was assembled from
    pub binary_segment_records: Option<Vec<BinaryRecord>>,
}

impl GcPcSaftEosParameters {
    /// The number of grouped segment occurrences.
    pub open spec fn spec_len(&self) -> nat {
        g_ids(self.chemical_records@).len()
    }

    /// The assembled arrays are exactly the grouped flattening of the stored
    /// topologies through the stored record store.
    pub open spec fn wf(&self) -> bool {
        let chems = self.chemical_records@;
        let segs = self.segment_records@;
        let n = g_ids(chems).len();
        &&& all_bonds_wf(chems)
        &&& all_segments_known(chems, segs)
        &&& total_bonds(chems) <= usize::MAX
        &&& strs(self.identifiers@) == g_ids(chems)
        &&& self.identifiers@.len() == n
        &&& self.component_index@ == g_component_index(chems)
        &&& self.record_index@ == g_record_index(chems, segs)
        &&& self.n@ == g_counts(chems)
        &&& self.m_segment@.len() == n
        &&& self.sigma@.len() == n
        &&& self.epsilon_k@.len() == n
        &&& forall|t: int| 0 <= t < n ==> (#[trigger] self.record_index@[t]) < segs.len()
        &&& forall|t: int| 0 <= t < n
            ==> (#[trigger] self.m_segment@[t]) == segs[self.record_index@[t] as int].model_record.m
        &&& forall|t: int| 0 <= t < n
            ==> (#[trigger] self.sigma@[t]) == segs[self.record_index@[t] as int].model_record.sigma
        &&& forall|t: int| 0 <= t < n
            ==> (#[trigger] self.epsilon_k@[t])
                == segs[self.record_index@[t] as int].model_record.epsilon_k
        &&& self.bonds@ == g_bonds(chems)
        &&& self.assoc_segment@ == assoc_occurrences(self.record_index@, segs)
        &&& self.kappa_ab@.len() == self.assoc_segment@.len()
        &&& self.epsilon_k_ab@.len() == self.assoc_segment@.len()
        &&& self.na@.len() == self.assoc_segment@.len()
        &&& self.nb@.len() == self.assoc_segment@.len()
        &&& forall|k: int| 0 <= k < self.assoc_segment@.len()
            ==> (#[trigger] self.assoc_segment@[k]) < n
        &&& forall|k: int| 0 <= k < self.assoc_segment@.len()
            ==> (#[trigger] self.kappa_ab@[k])
                == segs[self.record_index@[self.assoc_segment@[k] as int] as int]
                    .model_record.kappa_ab.unwrap()
        &&& forall|k: int| 0 <= k < self.assoc_segment@.len()
            ==> (#[trigger] self.epsilon_k_ab@[k])
                == segs[self.record_index@[self.assoc_segment@[k] as int] as int]
                    .model_record.epsilon_k_ab.unwrap()
        &&& forall|k: int| 0 <= k < self.assoc_segment@.len()
            ==> (#[trigger] self.na@[k])
                == (match segs[self.record_index@[self.assoc_segment@[k] as int] as int]
                        .model_record.na {
                    Some(x) => x,
                    None => Par(PAR_UNIT_BITS),
                })
        &&& forall|k: int| 0 <= k < self.assoc_segment@.len()
            ==> (#[trigger] self.nb@[k])
                == (match segs[self.record_index@[self.assoc_segment@[k] as int] as int]
                        .model_record.nb {
                    Some(x) => x,
                    None => Par(PAR_UNIT_BITS),
                })
        &&& self.k_ij@.len() == n
        &&& forall|i: int| 0 <= i < n ==> (#[trigger] self.k_ij@[i])@.len() == n
        &&& forall|i: int, j: int| 0 <= i < n && 0 <= j < n
            ==> (#[trigger] self.k_ij@[i]@[j]) == par_opt(k_ij_entry(
                bins_of(self.binary_segment_records), g_component_index(chems), g_ids(chems), i, j))
    }

    /// Assembles the equation-of-state parameter set. Fails exactly when
    /// some segment identifier of some topology resolves to no record,
    /// naming the first such identifier in scan order.
    pub fn from_segments(
        chemical_records: Vec<ChemicalRecord>,
        segment_records: Vec<SegmentRecord>,
        binary_segment_records: Option<Vec<BinaryRecord>>,
    ) -> (r: Result<Self, ParameterError>)
        requires
            all_bonds_wf(chemical_records@),
            total_bonds(chemical_records@) <= usize::MAX,
        ensures
            match r {
                Ok(p) => {
                    &&& p.wf()
                    &&& p.chemical_records == chemical_records
                    &&& p.segment_records == segment_records
                    &&& p.binary_segment_records == binary_segment_records
                    &&& first_unknown(chemical_records@, segment_records@) is None
                },
                Err(e) => match e {
                    ParameterError::UnknownSegment(id) =>
                        first_unknown(chemical_records@, segment_records@) == Some(id@),
                    _ => false,
                },
            },
    {
        let ghost callc = chemical_records@;
        let ghost calls = segment_records@;
        let seg_map = build_segment_map(&segment_records);
        let mut component_index: Vec<usize> = Vec::new();
        let mut identifiers: Vec<String> = Vec::new();
        let mut record_index: Vec<usize> = Vec::new();
        let mut n: Vec<usize> = Vec::new();
        let mut m_segment: Vec<Par> = Vec::new();
        let mut sigma: Vec<Par> = Vec::new();
        let mut epsilon_k: Vec<Par> = Vec::new();
        let mut bonds: Vec<BondCount> = Vec::new();
        let mut assoc_segment: Vec<usize> = Vec::new();
        let mut kappa_ab: Vec<Par> = Vec::new();
        let mut epsilon_k_ab: Vec<Par> = Vec::new();
        let mut na: Vec<Par> = Vec::new();
        let mut nb: Vec<Par> = Vec::new();
        let mut bond_map = bond_map_with_capacity(segment_records.len());
        bond_map_clear(&mut bond_map);

        proof {
            assert(callc.take(0) =~= Seq::<ChemicalRecord>::empty());
            lemma_g_lens(callc.take(0), calls);
            assert(strs(identifiers@) =~= g_ids(callc.take(0)));
            assert(component_index@ =~= g_component_index(callc.take(0)));
            assert(record_index@ =~= g_record_index(callc.take(0), calls));
            assert(n@ =~= g_counts(callc.take(0)));
            assert(bonds@ =~= g_bonds(callc.take(0)));
            assert(assoc_segment@ =~= assoc_occurrences(record_index@, calls));
            assert(bond_map_view(bond_map) =~= Map::<(usize, usize), usize>::empty());
        }

        let mut i: usize = 0;
        while i < chemical_records.len()
            invariant
                i <= callc.len(),
                callc == chemical_records@,
                calls == segment_records@,
                all_bonds_wf(callc),
                total_bonds(callc) <= usize::MAX,
                seg_map_matches(id_map_view(seg_map), calls),
                first_unknown(callc.take(i as int), calls) is None,
                strs(identifiers@) == g_ids(callc.take(i as int)),
                identifiers@.len() == g_ids(callc.take(i as int)).len(),
                component_index@ == g_component_index(callc.take(i as int)),
                record_index@ == g_record_index(callc.take(i as int), calls),
                n@ == g_counts(callc.take(i as int)),
                record_index@.len() == identifiers@.len(),
                component_index@.len() == identifiers@.len(),
                n@.len() == identifiers@.len(),
                m_segment@.len() == identifiers@.len(),
                sigma@.len() == identifiers@.len(),
                epsilon_k@.len() == identifiers@.len(),
                forall|t: int| 0 <= t < record_index@.len()
                    ==> (#[trigger] record_index@[t]) < calls.len(),
                forall|t: int| 0 <= t < m_segment@.len()
                    ==> (#[trigger] m_segment@[t]) == calls[record_index@[t] as int].model_record.m,
                forall|t: int| 0 <= t < sigma@.len()
                    ==> (#[trigger] sigma@[t]) == calls[record_index@[t] as int].model_record.sigma,
                forall|t: int| 0 <= t < epsilon_k@.len()
                    ==> (#[trigger] epsilon_k@[t])
                        == calls[record_index@[t] as int].model_record.epsilon_k,
                assoc_segment@ == assoc_occurrences(record_index@, calls),
                kappa_ab@.len() == assoc_segment@.len(),
                epsilon_k_ab@.len() == assoc_segment@.len(),
                na@.len() == assoc_segment@.len(),
                nb@.len() == assoc_segment@.len(),
                forall|k: int| 0 <= k < assoc_segment@.len()
                    ==> (#[trigger] assoc_segment@[k]) < record_index@.len(),
                forall|k: int| 0 <= k < assoc_segment@.len()
                    ==> (#[trigger] kappa_ab@[k])
                        == calls[record_index@[assoc_segment@[k] as int] as int]
                            .model_record.kappa_ab.unwrap(),
                forall|k: int| 0 <= k < assoc_segment@.len()
                    ==> (#[trigger] epsilon_k_ab@[k])
                        == calls[record_index@[assoc_segment@[k] as int] as int]
                            .model_record.epsilon_k_ab.unwrap(),
                forall|k: int| 0 <= k < assoc_segment@.len()
                    ==> (#[trigger] na@[k])
                        == (match calls[record_index@[assoc_segment@[k] as int] as int]
                                .model_record.na {
                            Some(x) => x,
                            None => Par(PAR_UNIT_BITS),
                        }),
                forall|k: int| 0 <= k < assoc_segment@.len()
                    ==> (#[trigger] nb@[k])
                        == (match calls[record_index@[assoc_segment@[k] as int] as int]
                                .model_record.nb {
                            Some(x) => x,
                            None => Par(PAR_UNIT_BITS),
                        }),
                bonds@ == g_bonds(callc.take(i as int)),
                forall|k: int| 0 <= k < bonds@.len()
                    ==> (#[trigger] bonds@[k]).count <= total_bonds(callc.take(i as int)),
                forall|k1: int, k2: int| 0 <= k1 < k2 < bonds@.len()
                    ==> ((#[trigger] bonds@[k1]).a, bonds@[k1].b)
                        != ((#[trigger] bonds@[k2]).a, bonds@[k2].b),
                forall|pr: (usize, usize)| #![all_triggers] bond_map_view(bond_map).dom().contains(pr)
                    == has_pair(bonds@, pr),
                forall|pr: (usize, usize)| #[trigger] bond_map_view(bond_map).dom().contains(pr)
                    ==> bond_map_view(bond_map)[pr] < bonds@.len()
                        && bonds@[bond_map_view(bond_map)[pr] as int].a == pr.0
                        && bonds@[bond_map_view(bond_map)[pr] as int].b == pr.1,
            decreases callc.len() - i,
        {
            let c = &chemical_records[i];
            let base = identifiers.len();
            let ghost prefix = callc.take(i as int);
            let mut occ_map = id_map_with_capacity(c.segments.len());
            id_map_clear(&mut occ_map);
            proof {
                assert(callc.take(i + 1) =~= prefix.push(callc[i as int]));
                lemma_g_push(prefix, callc[i as int], calls);
                assert(chem_ids(callc[i as int]).take(0) =~= Seq::<Seq<char>>::empty());
                assert(id_map_view(occ_map) =~= Map::<Seq<char>, usize>::empty());
                assert(strs(identifiers@) =~= g_ids(prefix) + firsts(chem_ids(callc[i as int]).take(0)));
                assert(component_index@ =~= g_component_index(prefix)
                    + rep_idx(firsts(chem_ids(callc[i as int]).take(0)).len(), i as usize));
                assert(ridx_map(calls, firsts(chem_ids(callc[i as int]).take(0))) =~= Seq::<usize>::empty());
                assert(record_index@ =~= g_record_index(prefix, calls)
                    + ridx_map(calls, firsts(chem_ids(callc[i as int]).take(0))));
                assert(mol_counts(chem_ids(callc[i as int]).take(0)) =~= Seq::<usize>::empty());
                assert(n@ =~= g_counts(prefix) + mol_counts(chem_ids(callc[i as int]).take(0)));
                assert(chem_ids(callc[i as int]).len() == c.segments@.len());
            }
            let mut j: usize = 0;
            while j < c.segments.len()
                invariant
                    j <= c.segments@.len(),
                    i < callc.len(),
                    callc == chemical_records@,
                    calls == segment_records@,
                    c == &chemical_records[i as int],
                    seg_map_matches(id_map_view(seg_map), calls),
                    first_unknown(callc.take(i as int), calls) is None,
                    forall|t: int| 0 <= t < j
                        ==> seg_lookup(calls, #[trigger] chem_ids(callc[i as int])[t]) is Some,
                    base == g_ids(callc.take(i as int)).len(),
                    forall|id: Seq<char>| #[trigger] id_map_view(occ_map).dom().contains(id)
                        == firsts(chem_ids(callc[i as int]).take(j as int)).contains(id),
                    forall|id: Seq<char>| #[trigger] id_map_view(occ_map).dom().contains(id)
                        ==> id_map_view(occ_map)[id]
                            == base + pos_in(firsts(chem_ids(callc[i as int]).take(j as int)), id),
                    strs(identifiers@) == g_ids(callc.take(i as int))
                        + firsts(chem_ids(callc[i as int]).take(j as int)),
                    identifiers@.len() == base + firsts(chem_ids(callc[i as int]).take(j as int)).len(),
                    component_index@ == g_component_index(callc.take(i as int))
                        + rep_idx(firsts(chem_ids(callc[i as int]).take(j as int)).len(), i as usize),
                    record_index@ == g_record_index(callc.take(i as int), calls)
                        + ridx_map(calls, firsts(chem_ids(callc[i as int]).take(j as int))),
                    n@ == g_counts(callc.take(i as int))
                        + mol_counts(chem_ids(callc[i as int]).take(j as int)),
                    forall|k: int| base <= k < n@.len() ==> (#[trigger] n@[k]) <= j,
                    record_index@.len() == identifiers@.len(),
                    component_index@.len() == identifiers@.len(),
                    n@.len() == identifiers@.len(),
                    m_segment@.len() == identifiers@.len(),
                    sigma@.len() == identifiers@.len(),
                    epsilon_k@.len() == identifiers@.len(),
                    forall|t: int| 0 <= t < record_index@.len()
                        ==> (#[trigger] record_index@[t]) < calls.len(),
                    forall|t: int| 0 <= t < m_segment@.len()
                        ==> (#[trigger] m_segment@[t]) == calls[record_index@[t] as int].model_record.m,
                    forall|t: int| 0 <= t < sigma@.len()
                        ==> (#[trigger] sigma@[t]) == calls[record_index@[t] as int].model_record.sigma,
                    forall|t: int| 0 <= t < epsilon_k@.len()
                        ==> (#[trigger] epsilon_k@[t])
                            == calls[record_index@[t] as int].model_record.epsilon_k,
                    assoc_segment@ == assoc_occurrences(record_index@, calls),
                    kappa_ab@.len() == assoc_segment@.len(),
                    epsilon_k_ab@.len() == assoc_segment@.len(),
                    na@.len() == assoc_segment@.len(),
                    nb@.len() == assoc_segment@.len(),
                    forall|k: int| 0 <= k < assoc_segment@.len()
                        ==> (#[trigger] assoc_segment@[k]) < record_index@.len(),
                    forall|k: int| 0 <= k < assoc_segment@.len()
                        ==> (#[trigger] kappa_ab@[k])
                            == calls[record_index@[assoc_segment@[k] as int] as int]
                                .model_record.kappa_ab.unwrap(),
                    forall|k: int| 0 <= k < assoc_segment@.len()
                        ==> (#[trigger] epsilon_k_ab@[k])
                            == calls[record_index@[assoc_segment@[k] as int] as int]
                                .model_record.epsilon_k_ab.unwrap(),
                    forall|k: int| 0 <= k < assoc_segment@.len()
                        ==> (#[trigger] na@[k])
                            == (match calls[record_index@[assoc_segment@[k] as int] as int]
                                    .model_record.na {
                                Some(x) => x,
                                None => Par(PAR_UNIT_BITS),
                            }),
                    forall|k: int| 0 <= k < assoc_segment@.len()
                        ==> (#[trigger] nb@[k])
                            == (match calls[record_index@[assoc_segment@[k] as int] as int]
                                    .model_record.nb {
                                Some(x) => x,
                                None => Par(PAR_UNIT_BITS),
                            }),
                decreases c.segments@.len() - j,
            {
                let id_ref = &c.segments[j];
                let ghost gids = chem_ids(callc[i as int]);
                let ghost gprefix = gids.take(j as int);
                proof {
                    assert(gids[j as int] == id_ref@);
                    assert(gids.take(j + 1) =~= gprefix.push(gids[j as int]));
                    lemma_firsts_push(gprefix, id_ref@);
                    lemma_firsts_props(gprefix);
                    lemma_pos_in_props(firsts(gprefix), id_ref@);
                }
                match id_map_get(&occ_map, id_ref) {
                    Some(flat) => {
                        proof {
                            assert(firsts(gprefix).contains(id_ref@));
                            assert(firsts(gids.take(j + 1)) == firsts(gprefix));
                            lemma_mol_counts_push(gprefix, id_ref@);
                            // this identifier was seen before, so it is known
                            assert(gprefix.contains(id_ref@));
                            let w: int = choose|w: int| 0 <= w < gprefix.len() && gprefix[w] == id_ref@;
                            assert(gprefix[w] == gids[w]);
                            assert(chem_ids(callc[i as int])[w] == id_ref@);
                            assert(seg_lookup(calls, chem_ids(callc[i as int])[w]) is Some);
                            assert(seg_lookup(calls, gids[j as int]) is Some);
                            // counts are bounded by the number of scanned segments
                            lemma_count_le(gprefix, id_ref@);
                            assert(flat == base + pos_in(firsts(gprefix), id_ref@));
                            assert(flat < n@.len());
                            assert(n@[flat as int] == mol_counts(gprefix)[pos_in(firsts(gprefix), id_ref@)]);
                        }
                        let cur = n[flat];
                        proof {
                            assert(cur <= j);
                            assert(j < c.segments@.len());
                        }
                        n[flat] = cur + 1;
                        proof {
                            assert(mol_counts(gids.take(j + 1))
                                == mol_counts(gprefix).update(pos_in(firsts(gprefix), id_ref@),
                                    (count_of(gprefix, id_ref@) + 1) as usize));
                            assert(n@ =~= g_counts(callc.take(i as int)) + mol_counts(gids.take(j + 1)));
                        }
                    }
                    None => {
                        proof {
                            assert(!firsts(gprefix).contains(id_ref@));
                            assert(!gprefix.contains(id_ref@)) by {
                                lemma_firsts_props(gprefix);
                            }
                        }
                        match id_map_get(&seg_map, id_ref) {
                            None => {
                                proof {
                                    lemma_first_unknown_in_at(gids, calls, j as int);
                                    crate::model::lemma_unknown_decided_at(callc, calls, i as int);
                                }
                                return Err(ParameterError::UnknownSegment(id_ref.clone()));
                            }
                            Some(ridx) => {
                                proof {
                                    lemma_seg_lookup_bounds(calls, id_ref@);
                                }
                                let rec = &segment_records[ridx];
                                let ghost old_ids = identifiers@;
                                let ghost old_ridx = record_index@;
                                component_index.push(i);
                                identifiers.push(id_ref.clone());
                                record_index.push(ridx);
                                n.push(1);
                                m_segment.push(rec.model_record.m);
                                sigma.push(rec.model_record.sigma);
                                epsilon_k.push(rec.model_record.epsilon_k);
                                id_map_insert(&mut occ_map, id_ref.clone(), identifiers.len() - 1);
                                proof {
                                    let f_old = firsts(gprefix);
                                    let f_new = firsts(gids.take(j + 1));
                                    assert(f_new == f_old.push(id_ref@));
                                    assert(record_index@.drop_last() =~= old_ridx);
                                    lemma_strs_push(old_ids, identifiers@.last());
                                    assert(identifiers@ =~= old_ids.push(identifiers@.last()));
                                    assert(identifiers@.last()@ == id_ref@);
                                    assert(strs(identifiers@)
                                        =~= g_ids(callc.take(i as int)) + f_new);
                                    assert(component_index@
                                        =~= g_component_index(callc.take(i as int))
                                            + rep_idx(f_new.len(), i as usize));
                                    lemma_ridx_map_push(calls, f_old, id_ref@);
                                    assert(seg_lookup(calls, id_ref@).unwrap() as usize == ridx);
                                    assert(record_index@
                                        =~= g_record_index(callc.take(i as int), calls)
                                            + ridx_map(calls, f_new));
                                    lemma_mol_counts_push(gprefix, id_ref@);
                                    assert(n@ =~= g_counts(callc.take(i as int))
                                        + mol_counts(gids.take(j + 1)));
                                    // the occurrence lookup gains exactly this identifier
                                    assert forall|id: Seq<char>|
                                        #[trigger] id_map_view(occ_map).dom().contains(id)
                                            == f_new.contains(id)
                                    by {
                                        lemma_pos_in_push(f_old, id_ref@, id);
                                        lemma_pos_in_props(f_old, id);
                                        if id == id_ref@ {
                                            assert(f_new.last() == id);
                                            assert(f_new.contains(id));
                                        } else {
                                            if f_old.contains(id) {
                                                let w: int = choose|w: int| 0 <= w < f_old.len()
                                                    && f_old[w] == id;
                                                assert(f_new[w] == id);
                                            } else if f_new.contains(id) {
                                                let w: int = choose|w: int| 0 <= w < f_new.len()
                                                    && f_new[w] == id;
                                                assert(w < f_old.len() || id == id_ref@);
                                                if w < f_old.len() {
                                                    assert(f_old[w] == id);
                                                }
                                            }
                                        }
                                    }
                                    assert forall|id: Seq<char>|
                                        #[trigger] id_map_view(occ_map).dom().contains(id)
                                        implies id_map_view(occ_map)[id]
                                            == base + pos_in(f_new, id)
                                    by {
                                        lemma_pos_in_push(f_old, id_ref@, id);
                                        if id == id_ref@ {
                                            if f_old.contains(id) {
                                            } else {
                                                assert(pos_in(f_new, id) == f_old.len());
                                            }
                                        }
                                    }
                                    assert(assoc_occurrences(record_index@, calls)
                                        == (if calls[ridx as int].model_record.is_associating() {
                                            assoc_occurrences(old_ridx, calls)
                                                .push((record_index@.len() - 1) as usize)
                                        } else {
                                            assoc_occurrences(old_ridx, calls)
                                        }));
                                }
                                let has_kappa = rec.model_record.kappa_ab.is_some();
                                let has_eps = rec.model_record.epsilon_k_ab.is_some();
                                if has_kappa && has_eps {
                                    assoc_segment.push(identifiers.len() - 1);
                                    match rec.model_record.kappa_ab {
                                        Some(x) => kappa_ab.push(x),
                                        None => {}
                                    }
                                    match rec.model_record.epsilon_k_ab {
                                        Some(x) => epsilon_k_ab.push(x),
                                        None => {}
                                    }
                                    match rec.model_record.na {
                                        Some(x) => na.push(x),
                                        None => na.push(Par(PAR_UNIT_BITS)),
                                    }
                                    match rec.model_record.nb {
                                        Some(x) => nb.push(x),
                                        None => nb.push(Par(PAR_UNIT_BITS)),
                                    }
                                }
                            }
                        }
                    }
                }
                j = j + 1;
            }
            proof {
                assert(chem_ids(callc[i as int]).take(c.segments@.len() as int)
                    =~= chem_ids(callc[i as int]));
                lemma_first_unknown_in_none(chem_ids(callc[i as int]), calls);
                lemma_first_unknown_push(prefix, callc[i as int], calls);
                assert(strs(identifiers@) =~= g_ids(callc.take(i + 1)));
                assert(component_index@ =~= g_component_index(callc.take(i + 1)));
                assert(record_index@ =~= g_record_index(callc.take(i + 1), calls));
                assert(n@ =~= g_counts(callc.take(i + 1)));
                lemma_firsts_props(chem_ids(callc[i as int]));
                lemma_total_bonds_take(callc, i as int);
                lemma_total_bonds_take(callc, i + 1);
                assert(c.bonds@.take(0) =~= Seq::<Bond>::empty());
            }
            let mut t: usize = 0;
            while t < c.bonds.len()
                invariant
                    t <= c.bonds@.len(),
                    i < callc.len(),
                    callc == chemical_records@,
                    calls == segment_records@,
                    c == &chemical_records[i as int],
                    all_bonds_wf(callc),
                    total_bonds(callc) <= usize::MAX,
                    total_bonds(callc.take(i as int)) + c.bonds@.len() <= total_bonds(callc),
                    base == g_ids(callc.take(i as int)).len(),
                    identifiers@.len() == base + firsts(chem_ids(callc[i as int])).len(),
                    forall|id: Seq<char>| #[trigger] id_map_view(occ_map).dom().contains(id)
                        == firsts(chem_ids(callc[i as int])).contains(id),
                    forall|id: Seq<char>| #[trigger] id_map_view(occ_map).dom().contains(id)
                        ==> id_map_view(occ_map)[id]
                            == base + pos_in(firsts(chem_ids(callc[i as int])), id),
                    bonds@ == mol_bonds(g_bonds(callc.take(i as int)), chem_ids(callc[i as int]),
                        base as nat, c.bonds@.take(t as int)),
                    forall|k: int| 0 <= k < bonds@.len()
                        ==> (#[trigger] bonds@[k]).count
                            <= total_bonds(callc.take(i as int)) + t,
                    forall|k1: int, k2: int| 0 <= k1 < k2 < bonds@.len()
                        ==> ((#[trigger] bonds@[k1]).a, bonds@[k1].b)
                            != ((#[trigger] bonds@[k2]).a, bonds@[k2].b),
                    forall|pr: (usize, usize)| #![all_triggers] bond_map_view(bond_map).dom().contains(pr)
                        == has_pair(bonds@, pr),
                    forall|pr: (usize, usize)| #[trigger] bond_map_view(bond_map).dom().contains(pr)
                        ==> bond_map_view(bond_map)[pr] < bonds@.len()
                            && bonds@[bond_map_view(bond_map)[pr] as int].a == pr.0
                            && bonds@[bond_map_view(bond_map)[pr] as int].b == pr.1,
                decreases c.bonds@.len() - t,
            {
                let bd = c.bonds[t];
                let ghost gids = chem_ids(callc[i as int]);
                proof {
                    assert(c.bonds@[t as int].a < c.segments@.len()
                        && c.bonds@[t as int].b < c.segments@.len());
                    assert(gids[bd.a as int] == c.segments@[bd.a as int]@);
                    assert(gids[bd.b as int] == c.segments@[bd.b as int]@);
                    lemma_firsts_props(gids);
                    assert(gids.contains(gids[bd.a as int]));
                    assert(gids.contains(gids[bd.b as int]));
                    lemma_pos_in_props(firsts(gids), gids[bd.a as int]);
                    lemma_pos_in_props(firsts(gids), gids[bd.b as int]);
                }
                let s1 = &c.segments[bd.a];
                let s2 = &c.segments[bd.b];
                let o1 = match id_map_get(&occ_map, s1) {
                    Some(o) => o,
                    None => {
                        proof {
                            assert(false);
                        }
                        vstd::pervasive::unreached()
                    }
                };
                let o2 = match id_map_get(&occ_map, s2) {
                    Some(o) => o,
                    None => {
                        proof {
                            assert(false);
                        }
                        vstd::pervasive::unreached()
                    }
                };
                let pair = if o1 <= o2 { (o1, o2) } else { (o2, o1) };
                proof {
                    assert(pair == g_pair(gids, base as nat, c.bonds@[t as int]));
                    assert(c.bonds@.take(t + 1)
                        =~= c.bonds@.take(t as int).push(c.bonds@[t as int]));
                    lemma_mol_bonds_push(g_bonds(callc.take(i as int)), gids, base as nat,
                        c.bonds@.take(t as int), c.bonds@[t as int]);
                    lemma_total_bonds_take(callc, i as int);
                }
                let ghost old_bonds = bonds@;
                match bond_map_get(&bond_map, pair) {
                    Some(pos) => {
                        proof {
                            lemma_add_bond_update(bonds@, pair, pos as int);
                            assert(bonds@[pos as int].count
                                <= total_bonds(callc.take(i as int)) + t);
                        }
                        let cur = bonds[pos].count;
                        bonds[pos] = BondCount { a: pair.0, b: pair.1, count: cur + 1 };
                        proof {
                            assert(bonds@ == add_bond(old_bonds, pair));
                            assert forall|k: int| 0 <= k < bonds@.len()
                                implies (#[trigger] bonds@[k]).count
                                    <= total_bonds(callc.take(i as int)) + (t + 1)
                            by {
                                if k != pos {
                                    assert(bonds@[k] == old_bonds[k]);
                                }
                            }
                            assert forall|pr: (usize, usize)| #![all_triggers]
                                bond_map_view(bond_map).dom().contains(pr) == has_pair(bonds@, pr)
                            by {
                                if has_pair(bonds@, pr) {
                                    let k: int = choose|k: int| 0 <= k < bonds@.len()
                                        && (#[trigger] bonds@[k]).a == pr.0 && bonds@[k].b == pr.1;
                                    if k != pos {
                                        assert(old_bonds[k] == bonds@[k]);
                                    }
                                    assert(has_pair(old_bonds, pr));
                                }
                                if has_pair(old_bonds, pr) {
                                    let k: int = choose|k: int| 0 <= k < old_bonds.len()
                                        && (#[trigger] old_bonds[k]).a == pr.0 && old_bonds[k].b == pr.1;
                                    if k != pos {
                                        assert(bonds@[k] == old_bonds[k]);
                                    }
                                    assert(has_pair(bonds@, pr));
                                }
                            }
                        }
                    }
                    None => {
                        proof {
                            lemma_add_bond_fresh(bonds@, pair);
                        }
                        bonds.push(BondCount { a: pair.0, b: pair.1, count: 1 });
                        bond_map_insert(&mut bond_map, pair, bonds.len() - 1);
                        proof {
                            assert(bonds@ == add_bond(old_bonds, pair));
                            assert forall|pr: (usize, usize)| #![all_triggers]
                                bond_map_view(bond_map).dom().contains(pr) == has_pair(bonds@, pr)
                            by {
                                assert(bonds@[old_bonds.len() as int].a == pair.0
                                    && bonds@[old_bonds.len() as int].b == pair.1);
                                if pr == pair {
                                    assert(has_pair(bonds@, pr));
                                } else {
                                    if has_pair(bonds@, pr) {
                                        let k: int = choose|k: int| 0 <= k < bonds@.len()
                                            && (#[trigger] bonds@[k]).a == pr.0 && bonds@[k].b == pr.1;
                                        assert(k < old_bonds.len());
                                        assert(old_bonds[k] == bonds@[k]);
                                        assert(has_pair(old_bonds, pr));
                                    }
                                    if has_pair(old_bonds, pr) {
                                        let k: int = choose|k: int| 0 <= k < old_bonds.len()
                                            && (#[trigger] old_bonds[k]).a == pr.0 && old_bonds[k].b == pr.1;
                                        assert(bonds@[k] == old_bonds[k]);
                                        assert(has_pair(bonds@, pr));
                                    }
                                }
                            }
                            assert(!has_pair(old_bonds, pair));
                            assert forall|k1: int, k2: int| 0 <= k1 < k2 < bonds@.len()
                                implies ((#[trigger] bonds@[k1]).a, bonds@[k1].b)
                                    != ((#[trigger] bonds@[k2]).a, bonds@[k2].b)
                            by {
                                if k2 == bonds@.len() - 1 {
                                    assert(bonds@[k1] == old_bonds[k1]);
                                    if (bonds@[k1].a, bonds@[k1].b) == (pair.0, pair.1) {
                                        assert(has_pair(old_bonds, pair));
                                    }
                                }
                            }
                        }
                    }
                }
                t = t + 1;
            }
            proof {
                assert(c.bonds@.take(c.bonds@.len() as int) =~= c.bonds@);
                lemma_g_bonds_push(prefix, callc[i as int]);
                assert(bonds@ =~= g_bonds(callc.take(i + 1)));
                lemma_total_bonds_take(callc, i as int);
            }
            i = i + 1;
        }
        proof {
            assert(callc.take(callc.len() as int) =~= callc);
            lemma_g_lens(callc, calls);
            lemma_first_unknown_none(callc, calls);
        }
        let k_ij = build_k_matrix(&identifiers, &component_index, &binary_segment_records);
        Ok(GcPcSaftEosParameters {
            component_index,
            identifiers,
            record_index,
            n,
            m_segment,
            sigma,
            epsilon_k,
            bonds,
            assoc_segment,
            kappa_ab,
            epsilon_k_ab,
            na,
            nb,
            k_ij,
            chemical_records,
            segment_records,
            binary_segment_records,
        })
    }
}

impl GcPcSaftEosParameters {
    /// Re-derives a parameter set for the molecules at the given indices by
    /// re-running assembly on their topologies with the same record stores —
    /// never by slicing arrays, because segment grouping and bond re-indexing
    /// must be redone.
    pub fn subset(&self, component_list: &Vec<usize>) -> (r: Self)
        requires
            self.wf(),
            forall|k: int| 0 <= k < component_list@.len()
                ==> (#[trigger] component_list@[k]) < self.chemical_records@.len(),
            total_bonds(crate::model::selected(self.chemical_records@, component_list@)) <= usize::MAX,
        ensures
            r.wf(),
            chems_like(r.chemical_records@,
                crate::model::selected(self.chemical_records@, component_list@)),
            r.segment_records@ == self.segment_records@,
            bins_of(r.binary_segment_records) == bins_of(self.binary_segment_records),
    {
        let ghost sel_spec = crate::model::selected(self.chemical_records@, component_list@);
        let mut sel: Vec<ChemicalRecord> = Vec::new();
        let mut k: usize = 0;
        while k < component_list.len()
            invariant
                k <= component_list@.len(),
                forall|q: int| 0 <= q < component_list@.len()
                    ==> (#[trigger] component_list@[q]) < self.chemical_records@.len(),
                sel_spec == crate::model::selected(self.chemical_records@, component_list@),
                sel@.len() == k,
                forall|q: int| 0 <= q < k
                    ==> crate::record::chem_like(#[trigger] sel@[q], sel_spec[q]),
            decreases component_list@.len() - k,
        {
            let idx = component_list[k];
            sel.push(self.chemical_records[idx].clone());
            k = k + 1;
        }
        proof {
            assert(chems_like(sel@, sel_spec));
            crate::model::lemma_grouped_congruent(sel@, sel_spec, self.segment_records@);
            assert forall|i: int| 0 <= i < sel_spec.len()
                implies (#[trigger] sel_spec[i]).bonds_wf()
            by {
                assert(sel_spec[i] == self.chemical_records@[component_list@[i] as int]);
            }
            assert forall|i: int| 0 <= i < sel@.len()
                implies (#[trigger] sel@[i]).bonds_wf()
            by {
                assert(crate::record::chem_like(sel@[i], sel_spec[i]));
                assert(sel_spec[i].bonds_wf());
            }
            assert(all_bonds_wf(sel@));
            assert forall|i: int, j: int|
                0 <= i < sel@.len() && 0 <= j < chem_ids(sel@[i]).len()
                implies seg_lookup(self.segment_records@,
                    #[trigger] chem_ids(sel@[i])[j]) is Some
            by {
                assert(crate::record::chem_like(sel@[i], sel_spec[i]));
                assert(chem_ids(sel@[i]) == chem_ids(self.chemical_records@[component_list@[i] as int]));
            }
            assert(all_segments_known(sel@, self.segment_records@));
            lemma_first_unknown_none(sel@, self.segment_records@);
        }
        let segs = crate::record::clone_segment_records(&self.segment_records);
        let bins = crate::record::clone_binary_records(&self.binary_segment_records);
        proof {
            assert(bins_of(bins) == bins_of(self.binary_segment_records));
        }
        match Self::from_segments(sel, segs, bins) {
            Ok(p) => p,
            Err(_) => {
                proof {
                    assert(false);
                }
                vstd::pervasive::unreached()
            }
        }
    }
}

impl GcPcSaftEosParameters {
    /// The number of molecules of the mixture.
    pub fn components(&self) -> (r: usize)
        ensures
            r == self.chemical_records@.len(),
    {
        self.chemical_records.len()
    }
}

/// Combining-rule symmetry of the binary interaction matrix: the correction
/// looks the unordered identifier pair up, so the matrix is symmetric.
pub proof fn lemma_eos_k_ij_symmetric(p: &GcPcSaftEosParameters)
    requires
        p.wf(),
    ensures
        forall|i: int, j: int| 0 <= i < p.spec_len() && 0 <= j < p.spec_len()
            ==> p.k_ij@[i]@[j] == p.k_ij@[j]@[i],
{
    let chems = p.chemical_records@;
    let bins = bins_of(p.binary_segment_records);
    assert forall|i: int, j: int| 0 <= i < p.spec_len() && 0 <= j < p.spec_len()
        implies p.k_ij@[i]@[j] == p.k_ij@[j]@[i]
    by {
        crate::model::lemma_bin_lookup_symmetric(bins, g_ids(chems)[i], g_ids(chems)[j]);
    }
}

/// Self-interaction exclusion: no binary interaction correction is applied
/// between two segment occurrences of one molecule.
pub proof fn lemma_eos_no_self_interaction(p: &GcPcSaftEosParameters)
    requires
        p.wf(),
    ensures
        forall|i: int, j: int|
            0 <= i < p.spec_len() && 0 <= j < p.spec_len()
                && p.component_index@[i] == p.component_index@[j]
            ==> p.k_ij@[i]@[j] is None,
{
}

/// Assembly determinism and subset consistency: two well-formed parameter
/// sets whose topologies describe the same molecules over the same record
/// stores hold identical arrays. In particular, a subset re-assembly equals
/// a direct assembly of the selected topologies alone.
pub proof fn lemma_eos_assembly_deterministic(p: &GcPcSaftEosParameters, q: &GcPcSaftEosParameters)
    requires
        p.wf(),
        q.wf(),
        chems_like(p.chemical_records@, q.chemical_records@),
        p.segment_records@ == q.segment_records@,
        bins_of(p.binary_segment_records) == bins_of(q.binary_segment_records),
    ensures
        strs(p.identifiers@) == strs(q.identifiers@),
        p.component_index@ == q.component_index@,
        p.record_index@ == q.record_index@,
        p.n@ == q.n@,
        p.m_segment@ == q.m_segment@,
        p.sigma@ == q.sigma@,
        p.epsilon_k@ == q.epsilon_k@,
        p.bonds@ == q.bonds@,
        p.assoc_segment@ == q.assoc_segment@,
        p.kappa_ab@ == q.kappa_ab@,
        p.epsilon_k_ab@ == q.epsilon_k_ab@,
        p.na@ == q.na@,
        p.nb@ == q.nb@,
        forall|i: int, j: int| 0 <= i < p.spec_len() && 0 <= j < p.spec_len()
            ==> p.k_ij@[i]@[j] == q.k_ij@[i]@[j],
{
    crate::model::lemma_grouped_congruent(p.chemical_records@, q.chemical_records@, p.segment_records@);
    assert(p.record_index@ == q.record_index@);
    assert(p.m_segment@ =~= q.m_segment@);
    assert(p.sigma@ =~= q.sigma@);
    assert(p.epsilon_k@ =~= q.epsilon_k@);
    assert(p.assoc_segment@ == q.assoc_segment@);
    assert(p.kappa_ab@ =~= q.kappa_ab@);
    assert(p.epsilon_k_ab@ =~= q.epsilon_k_ab@);
    assert(p.na@ =~= q.na@);
    assert(p.nb@ =~= q.nb@);
}

} // verus!
