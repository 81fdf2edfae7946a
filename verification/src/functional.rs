//! Parameter set of the Helmholtz energy functional: the ordered flattening
//! of the molecular topologies. Each entry of each segment list becomes one
//! segment occurrence, bonds are re-indexed by the occurrence offset of their
//! molecule, and the bond graph is kept as an undirected graph for the
//! spatial solvers that consume it.

use vstd::prelude::*;
use crate::record::{BinaryRecord, Bond, ChemicalRecord, Par, ParameterError, SegmentRecord,
    PAR_PSI_DFT_BITS, PAR_UNIT_BITS, chems_like, strs};
use crate::model::{all_bonds_wf, all_segments_known, assoc_occurrences, bins_of, chem_ids,
    first_unknown, flat_bonds, flat_component_index, flat_ids, flat_record_index, k_ij_entry,
    lemma_first_unknown_in_at, lemma_first_unknown_in_none, lemma_first_unknown_none,
    lemma_first_unknown_push, lemma_flat_ids_push, lemma_flat_ids_take_le, lemma_flat_lens,
    lemma_flat_bonds_len, lemma_flat_record_index_push, lemma_ridx_map_push, lemma_seg_lookup_bounds,
    lemma_shift_bonds_push, lemma_strs_push, rep_idx, ridx_map, shift_bonds, total_bonds};
use crate::graph::{bonds_as_pairs, nodes_to_cover, ungraph_edges, ungraph_node_count,
    bond_graph_from_edges};
use crate::imap::{id_map_view, id_map_get};
use crate::lookup::{build_k_matrix, build_segment_map, par_opt, seg_map_matches};

verus! {

/// Parameter set of the heterosegmented functional, flattened occurrence by
/// occurrence.
pub struct GcPcSaftFunctionalParameters {
    /// Molecule of each segment occurrence, non-decreasing
    pub component_index: Vec<usize>,
    /// Segment identifier of each occurrence
    pub identifiers: Vec<String>,
    /// Record of the store that each occurrence resolves to
    pub record_index: Vec<usize>,
    /// Shape factor of each occurrence
    pub m: Vec<Par>,
    /// Diameter of each occurrence
    pub sigma: Vec<Par>,
    /// Energetic parameter of each occurrence
    pub epsilon_k: Vec<Par>,
    /// Bond graph over the occurrence indices
    pub bonds: petgraph::graph::UnGraph<(), ()>,
    /// Occurrences that carry association sites
    pub assoc_segment: Vec<usize>,
    /// Association volume, aligned to `assoc_segment`
    pub kappa_ab: Vec<Par>,
    /// Association energy, aligned to `assoc_segment`
    pub epsilon_k_ab: Vec<Par>,
    /// Donor site count, aligned to `assoc_segment`
    pub na: Vec<Par>,
    /// Acceptor site count, aligned to `assoc_segment`
    pub nb: Vec<Par>,
    /// Segment weighting of the functional
    pub psi_dft: Vec<Par>,
    /// Binary interaction corrections over occurrence pairs
    pub k_ij: Vec<Vec<Option<Par>>>,
    /// The topologies this set was assembled from
    pub chemical_records: Vec<ChemicalRecord>,
    /// The segment record store this set was assembled from
    pub segment_records: Vec<SegmentRecord>,
    /// The binary interaction records this set was assembled from
    pub binary_segment_records: Option<Vec<BinaryRecord>>,
}

impl GcPcSaftFunctionalParameters {
    /// The number of segment occurrences.
    pub open spec fn spec_len(&self) -> nat {
        flat_ids(self.chemical_records@).len()
    }

    /// The assembled arrays are exactly the flattening of the stored
    /// topologies through the stored record store: this invariant pins every
    /// field.
    pub open spec fn wf(&self) -> bool {
        let chems = self.chemical_records@;
        let segs = self.segment_records@;
        let n = flat_ids(chems).len();
        &&& all_bonds_wf(chems)
        &&& all_segments_known(chems, segs)
        &&& n < 0xFFFF_FFFF
        &&& total_bonds(chems) < 0xFFFF_FFFF
        &&& strs(self.identifiers@) == flat_ids(chems)
        &&& self.identifiers@.len() == n
        &&& self.component_index@ == flat_component_index(chems)
        &&& self.record_index@ == flat_record_index(chems, segs)
        &&& self.m@.len() == n
        &&& self.sigma@.len() == n
        &&& self.epsilon_k@.len() == n
        &&& self.psi_dft@.len() == n
        &&& forall|t: int| 0 <= t < n ==> (#[trigger] self.record_index@[t]) < segs.len()
        &&& forall|t: int| 0 <= t < n
            ==> (#[trigger] self.m@[t]) == segs[self.record_index@[t] as int].model_record.m
        &&& forall|t: int| 0 <= t < n
            ==> (#[trigger] self.sigma@[t]) == segs[self.record_index@[t] as int].model_record.sigma
        &&& forall|t: int| 0 <= t < n
            ==> (#[trigger] self.epsilon_k@[t])
                == segs[self.record_index@[t] as int].model_record.epsilon_k
        &&& forall|t: int| 0 <= t < n
            ==> (#[trigger] self.psi_dft@[t])
                == (match segs[self.record_index@[t] as int].model_record.psi_dft {
                    Some(x) => x,
                    None => Par(PAR_PSI_DFT_BITS),
                })
        &&& self.assoc_segment@ == assoc_occurrences(self.record_index@, segs)
        &&& self.kappa_ab@.len() == self.assoc_segment@.len()
        &&& self.epsilon_k_ab@.len() == self.assoc_segment@.len()
        &&& self.na@.len() == self.assoc_segment@.len()
        &&& self.nb@.len() == self.assoc_segment@.len()
        &&& forall|k: int| 0 <= k < self.assoc_segment@.len()
            ==> (#[trigger] self.assoc_segment@[k]) < n
        &&& forall|k: int| 0 <= k < self.assoc_segment@.len()
            ==> (#[trigger] self.kappa_ab@[k])
                == segs[self.record_index@[self.assoc_segment@[k] as int] as int]
                    .model_record.kappa_ab.unwrap()
        &&& forall|k: int| 0 <= k < self.assoc_segment@.len()
            ==> (#[trigger] self.epsilon_k_ab@[k])
                == segs[self.record_index@[self.assoc_segment@[k] as int] as int]
                    .model_record.epsilon_k_ab.unwrap()
        &&& forall|k: int| 0 <= k < self.assoc_segment@.len()
            ==> (#[trigger] self.na@[k])
                == (match segs[self.record_index@[self.assoc_segment@[k] as int] as int]
                        .model_record.na {
                    Some(x) => x,
                    None => Par(PAR_UNIT_BITS),
                })
        &&& forall|k: int| 0 <= k < self.assoc_segment@.len()
            ==> (#[trigger] self.nb@[k])
                == (match segs[self.record_index@[self.assoc_segment@[k] as int] as int]
                        .model_record.nb {
                    Some(x) => x,
                    None => Par(PAR_UNIT_BITS),
                })
        &&& ungraph_edges(self.bonds) == bonds_as_pairs(flat_bonds(chems))
        &&& ungraph_node_count(self.bonds) == nodes_to_cover(0, flat_bonds(chems))
        &&& self.k_ij@.len() == n
        &&& forall|i: int| 0 <= i < n ==> (#[trigger] self.k_ij@[i])@.len() == n
        &&& forall|i: int, j: int| 0 <= i < n && 0 <= j < n
            ==> (#[trigger] self.k_ij@[i]@[j]) == par_opt(k_ij_entry(
                bins_of(self.binary_segment_records), flat_component_index(chems),
                flat_ids(chems), i, j))
    }

    /// Assembles the functional parameter set. Fails exactly when some
    /// segment identifier of some topology resolves to no record, naming the
    /// first such identifier in scan order.
    pub fn from_segments(
        chemical_records: Vec<ChemicalRecord>,
        segment_records: Vec<SegmentRecord>,
        binary_segment_records: Option<Vec<BinaryRecord>>,
    ) -> (r: Result<Self, ParameterError>)
        requires
            all_bonds_wf(chemical_records@),
            flat_ids(chemical_records@).len() < 0xFFFF_FFFF,
            total_bonds(chemical_records@) < 0xFFFF_FFFF,
        ensures
            match r {
                Ok(p) => {
                    &&& p.wf()
                    &&& p.chemical_records == chemical_records
                    &&& p.segment_records == segment_records
                    &&& p.binary_segment_records == binary_segment_records
                    &&& first_unknown(chemical_records@, segment_records@) is None
                },
                Err(e) => match e {
                    ParameterError::UnknownSegment(id) =>
                        first_unknown(chemical_records@, segment_records@) == Some(id@),
                    _ => false,
                },
            },
    {
        let ghost callc = chemical_records@;
        let ghost calls = segment_records@;
        let seg_map = build_segment_map(&segment_records);
        let mut component_index: Vec<usize> = Vec::new();
        let mut identifiers: Vec<String> = Vec::new();
        let mut record_index: Vec<usize> = Vec::new();
        let mut m: Vec<Par> = Vec::new();
        let mut sigma: Vec<Par> = Vec::new();
        let mut epsilon_k: Vec<Par> = Vec::new();
        let mut assoc_segment: Vec<usize> = Vec::new();
        let mut kappa_ab: Vec<Par> = Vec::new();
        let mut epsilon_k_ab: Vec<Par> = Vec::new();
        let mut na: Vec<Par> = Vec::new();
        let mut nb: Vec<Par> = Vec::new();
        let mut psi_dft: Vec<Par> = Vec::new();
        let mut bond_list: Vec<Bond> = Vec::new();

        proof {
            assert(callc.take(0) =~= Seq::<ChemicalRecord>::empty());
            lemma_flat_lens(callc.take(0), calls);
            assert(strs(identifiers@) =~= flat_ids(callc.take(0)));
            assert(component_index@ =~= flat_component_index(callc.take(0)));
            assert(record_index@ =~= flat_record_index(callc.take(0), calls));
            assert(bond_list@ =~= flat_bonds(callc.take(0)));
            assert(assoc_segment@ =~= assoc_occurrences(record_index@, calls));
        }

        let mut i: usize = 0;
        while i < chemical_records.len()
            invariant
                i <= callc.len(),
                callc == chemical_records@,
                calls == segment_records@,
                all_bonds_wf(callc),
                flat_ids(callc).len() < 0xFFFF_FFFF,
                total_bonds(callc) < 0xFFFF_FFFF,
                seg_map_matches(id_map_view(seg_map), calls),
                first_unknown(callc.take(i as int), calls) is None,
                strs(identifiers@) == flat_ids(callc.take(i as int)),
                identifiers@.len() == flat_ids(callc.take(i as int)).len(),
                component_index@ == flat_component_index(callc.take(i as int)),
                record_index@ == flat_record_index(callc.take(i as int), calls),
                record_index@.len() == identifiers@.len(),
                component_index@.len() == identifiers@.len(),
                m@.len() == identifiers@.len(),
                sigma@.len() == identifiers@.len(),
                epsilon_k@.len() == identifiers@.len(),
                psi_dft@.len() == identifiers@.len(),
                forall|t: int| 0 <= t < record_index@.len()
                    ==> (#[trigger] record_index@[t]) < calls.len(),
                forall|t: int| 0 <= t < m@.len()
                    ==> (#[trigger] m@[t]) == calls[record_index@[t] as int].model_record.m,
                forall|t: int| 0 <= t < sigma@.len()
                    ==> (#[trigger] sigma@[t]) == calls[record_index@[t] as int].model_record.sigma,
                forall|t: int| 0 <= t < epsilon_k@.len()
                    ==> (#[trigger] epsilon_k@[t])
                        == calls[record_index@[t] as int].model_record.epsilon_k,
                forall|t: int| 0 <= t < psi_dft@.len()
                    ==> (#[trigger] psi_dft@[t])
                        == (match calls[record_index@[t] as int].model_record.psi_dft {
                            Some(x) => x,
                            None => Par(PAR_PSI_DFT_BITS),
                        }),
                assoc_segment@ == assoc_occurrences(record_index@, calls),
                kappa_ab@.len() == assoc_segment@.len(),
                epsilon_k_ab@.len() == assoc_segment@.len(),
                na@.len() == assoc_segment@.len(),
                nb@.len() == assoc_segment@.len(),
                forall|k: int| 0 <= k < assoc_segment@.len()
                    ==> (#[trigger] assoc_segment@[k]) < record_index@.len(),
                forall|k: int| 0 <= k < assoc_segment@.len()
                    ==> (#[trigger] kappa_ab@[k])
                        == calls[record_index@[assoc_segment@[k] as int] as int]
                            .model_record.kappa_ab.unwrap(),
                forall|k: int| 0 <= k < assoc_segment@.len()
                    ==> (#[trigger] epsilon_k_ab@[k])
                        == calls[record_index@[assoc_segment@[k] as int] as int]
                            .model_record.epsilon_k_ab.unwrap(),
                forall|k: int| 0 <= k < assoc_segment@.len()
                    ==> (#[trigger] na@[k])
                        == (match calls[record_index@[assoc_segment@[k] as int] as int]
                                .model_record.na {
                            Some(x) => x,
                            None => Par(PAR_UNIT_BITS),
                        }),
                forall|k: int| 0 <= k < assoc_segment@.len()
                    ==> (#[trigger] nb@[k])
                        == (match segment_records@[record_index@[assoc_segment@[k] as int] as int]
                                .model_record.nb {
                            Some(x) => x,
                            None => Par(PAR_UNIT_BITS),
                        }),
                bond_list@ == flat_bonds(callc.take(i as int)),
                forall|t: int| 0 <= t < bond_list@.len()
                    ==> (#[trigger] bond_list@[t]).a < identifiers@.len()
                        && bond_list@[t].b < identifiers@.len(),
            decreases callc.len() - i,
        {
            let c = &chemical_records[i];
            let base = identifiers.len();
            let ghost prefix = callc.take(i as int);
            proof {
                assert(callc.take(i + 1) =~= prefix.push(callc[i as int]));
                lemma_flat_ids_push(prefix, callc[i as int]);
                lemma_flat_record_index_push(prefix, callc[i as int], calls);
                assert(chem_ids(callc[i as int]).take(0) =~= Seq::<Seq<char>>::empty());
                lemma_flat_ids_take_le(callc, i + 1);
                assert(strs(identifiers@) =~= flat_ids(prefix) + chem_ids(callc[i as int]).take(0));
                assert(component_index@ =~= flat_component_index(prefix) + rep_idx(0, i as usize));
                assert(ridx_map(calls, chem_ids(callc[i as int]).take(0)) =~= Seq::<usize>::empty());
                assert(record_index@ =~= flat_record_index(prefix, calls)
                    + ridx_map(calls, chem_ids(callc[i as int]).take(0)));
                assert(chem_ids(callc[i as int]).len() == chemical_records@[i as int].segments@.len());
            }
            let mut j: usize = 0;
            while j < c.segments.len()
                invariant
                    j <= c.segments@.len(),
                    i < callc.len(),
                    callc == chemical_records@,
                    calls == segment_records@,
                    c == &chemical_records[i as int],
                    seg_map_matches(id_map_view(seg_map), calls),
                    base + c.segments@.len() <= flat_ids(callc.take(i + 1)).len(),
                    flat_ids(callc.take(i + 1)).len() <= flat_ids(callc).len(),
                    flat_ids(callc).len() < 0xFFFF_FFFF,
                    base == flat_ids(callc.take(i as int)).len(),
                    forall|t: int| 0 <= t < j
                        ==> seg_lookup_some(calls, chem_ids(callc[i as int])[t]),
                    strs(identifiers@) == flat_ids(callc.take(i as int))
                        + chem_ids(callc[i as int]).take(j as int),
                    identifiers@.len() == base + j,
                    component_index@ == flat_component_index(callc.take(i as int))
                        + rep_idx(j as nat, i as usize),
                    record_index@ == flat_record_index(callc.take(i as int), calls)
                        + ridx_map(calls, chem_ids(callc[i as int]).take(j as int)),
                    record_index@.len() == identifiers@.len(),
                    component_index@.len() == identifiers@.len(),
                    m@.len() == identifiers@.len(),
                    sigma@.len() == identifiers@.len(),
                    epsilon_k@.len() == identifiers@.len(),
                    psi_dft@.len() == identifiers@.len(),
                    forall|t: int| 0 <= t < record_index@.len()
                        ==> (#[trigger] record_index@[t]) < calls.len(),
                    forall|t: int| 0 <= t < m@.len()
                        ==> (#[trigger] m@[t]) == calls[record_index@[t] as int].model_record.m,
                    forall|t: int| 0 <= t < sigma@.len()
                        ==> (#[trigger] sigma@[t])
                            == calls[record_index@[t] as int].model_record.sigma,
                    forall|t: int| 0 <= t < epsilon_k@.len()
                        ==> (#[trigger] epsilon_k@[t])
                            == calls[record_index@[t] as int].model_record.epsilon_k,
                    forall|t: int| 0 <= t < psi_dft@.len()
                        ==> (#[trigger] psi_dft@[t])
                            == (match calls[record_index@[t] as int].model_record.psi_dft {
                                Some(x) => x,
                                None => Par(PAR_PSI_DFT_BITS),
                            }),
                    assoc_segment@ == assoc_occurrences(record_index@, calls),
                    kappa_ab@.len() == assoc_segment@.len(),
                    epsilon_k_ab@.len() == assoc_segment@.len(),
                    na@.len() == assoc_segment@.len(),
                    nb@.len() == assoc_segment@.len(),
                    forall|k: int| 0 <= k < assoc_segment@.len()
                        ==> (#[trigger] assoc_segment@[k]) < record_index@.len(),
                    forall|k: int| 0 <= k < assoc_segment@.len()
                        ==> (#[trigger] kappa_ab@[k])
                            == calls[record_index@[assoc_segment@[k] as int] as int]
                                .model_record.kappa_ab.unwrap(),
                    forall|k: int| 0 <= k < assoc_segment@.len()
                        ==> (#[trigger] epsilon_k_ab@[k])
                            == calls[record_index@[assoc_segment@[k] as int] as int]
                                .model_record.epsilon_k_ab.unwrap(),
                    forall|k: int| 0 <= k < assoc_segment@.len()
                        ==> (#[trigger] na@[k])
                            == (match calls[record_index@[assoc_segment@[k] as int] as int]
                                    .model_record.na {
                                Some(x) => x,
                                None => Par(PAR_UNIT_BITS),
                            }),
                    forall|k: int| 0 <= k < assoc_segment@.len()
                        ==> (#[trigger] nb@[k])
                            == (match calls[record_index@[assoc_segment@[k] as int] as int]
                                    .model_record.nb {
                                Some(x) => x,
                                None => Par(PAR_UNIT_BITS),
                            }),
                    first_unknown(callc.take(i as int), calls) is None,
                    bond_list@ == flat_bonds(callc.take(i as int)),
                    forall|t: int| 0 <= t < bond_list@.len()
                        ==> (#[trigger] bond_list@[t]).a < identifiers@.len()
                            && bond_list@[t].b < identifiers@.len(),
                decreases c.segments@.len() - j,
            {
                let id_ref = &c.segments[j];
                proof {
                    assert(chem_ids(callc[i as int])[j as int] == id_ref@);
                }
                match id_map_get(&seg_map, id_ref) {
                    None => {
                        proof {
                            lemma_first_unknown_in_at(chem_ids(callc[i as int]), calls, j as int);
                            crate::model::lemma_unknown_decided_at(callc, calls, i as int);
                        }
                        return Err(ParameterError::UnknownSegment(id_ref.clone()));
                    }
                    Some(ridx) => {
                        proof {
                            lemma_seg_lookup_bounds(calls, id_ref@);
                        }
                        let rec = &segment_records[ridx];
                        let ghost old_ids = identifiers@;
                        let ghost old_ridx = record_index@;
                        component_index.push(i);
                        identifiers.push(id_ref.clone());
                        record_index.push(ridx);
                        m.push(rec.model_record.m);
                        sigma.push(rec.model_record.sigma);
                        epsilon_k.push(rec.model_record.epsilon_k);
                        match rec.model_record.psi_dft {
                            Some(x) => psi_dft.push(x),
                            None => psi_dft.push(Par(PAR_PSI_DFT_BITS)),
                        }
                        proof {
                            let gid = chem_ids(callc[i as int])[j as int];
                            assert(record_index@.drop_last() =~= old_ridx);
                            assert(chem_ids(callc[i as int]).take(j + 1)
                                =~= chem_ids(callc[i as int]).take(j as int).push(gid));
                            lemma_strs_push(old_ids, identifiers@.last());
                            assert(identifiers@ =~= old_ids.push(identifiers@.last()));
                            assert(identifiers@.last()@ == gid);
                            assert(strs(identifiers@)
                                =~= flat_ids(callc.take(i as int))
                                    + chem_ids(callc[i as int]).take(j + 1));
                            assert(component_index@
                                =~= flat_component_index(callc.take(i as int))
                                    + rep_idx((j + 1) as nat, i as usize));
                            lemma_ridx_map_push(calls, chem_ids(callc[i as int]).take(j as int), gid);
                            assert(crate::model::seg_lookup(calls, gid).unwrap() as usize == ridx);
                            assert(record_index@
                                =~= flat_record_index(callc.take(i as int), calls)
                                    + ridx_map(calls, chem_ids(callc[i as int]).take(j + 1)));
                            assert(assoc_occurrences(record_index@, calls)
                                == (if calls[ridx as int].model_record.is_associating() {
                                    assoc_occurrences(old_ridx, calls).push((record_index@.len() - 1) as usize)
                                } else {
                                    assoc_occurrences(old_ridx, calls)
                                }));
                        }
                        let has_kappa = rec.model_record.kappa_ab.is_some();
                        let has_eps = rec.model_record.epsilon_k_ab.is_some();
                        if has_kappa && has_eps {
                            assoc_segment.push(identifiers.len() - 1);
                            match rec.model_record.kappa_ab {
                                Some(x) => kappa_ab.push(x),
                                None => {}
                            }
                            match rec.model_record.epsilon_k_ab {
                                Some(x) => epsilon_k_ab.push(x),
                                None => {}
                            }
                            match rec.model_record.na {
                                Some(x) => na.push(x),
                                None => na.push(Par(PAR_UNIT_BITS)),
                            }
                            match rec.model_record.nb {
                                Some(x) => nb.push(x),
                                None => nb.push(Par(PAR_UNIT_BITS)),
                            }
                        }
                        j = j + 1;
                    }
                }
            }
            proof {
                assert(chem_ids(callc[i as int]).take(c.segments@.len() as int)
                    =~= chem_ids(callc[i as int]));
                lemma_first_unknown_in_none(chem_ids(callc[i as int]), calls);
                lemma_first_unknown_push(prefix, callc[i as int], calls);
                assert(strs(identifiers@) =~= flat_ids(callc.take(i + 1)));
                assert(component_index@ =~= flat_component_index(callc.take(i + 1)));
                assert(record_index@ =~= flat_record_index(callc.take(i + 1), calls));
            }
            let occ_total = identifiers.len();
            let mut t: usize = 0;
            while t < c.bonds.len()
                invariant
                    t <= c.bonds@.len(),
                    i < callc.len(),
                    callc == chemical_records@,
                    c == &chemical_records[i as int],
                    all_bonds_wf(callc),
                    base == flat_ids(callc.take(i as int)).len(),
                    occ_total == identifiers@.len(),
                    identifiers@.len() == base + c.segments@.len(),
                    bond_list@ == flat_bonds(callc.take(i as int))
                        + shift_bonds(base as nat, c.bonds@.take(t as int)),
                    forall|q: int| 0 <= q < bond_list@.len()
                        ==> (#[trigger] bond_list@[q]).a < identifiers@.len()
                            && bond_list@[q].b < identifiers@.len(),
                decreases c.bonds@.len() - t,
            {
                let bd = c.bonds[t];
                proof {
                    assert(c.bonds@[t as int].a < c.segments@.len()
                        && c.bonds@[t as int].b < c.segments@.len());
                    assert(c.bonds@.take(t + 1)
                        =~= c.bonds@.take(t as int).push(c.bonds@[t as int]));
                    lemma_shift_bonds_push(base as nat, c.bonds@.take(t as int), c.bonds@[t as int]);
                }
                bond_list.push(Bond { a: base + bd.a, b: base + bd.b });
                t = t + 1;
            }
            proof {
                assert(c.bonds@.take(c.bonds@.len() as int) =~= c.bonds@);
                assert(flat_bonds(callc.take(i + 1)) == flat_bonds(callc.take(i as int))
                    + shift_bonds(flat_ids(callc.take(i as int)).len(), callc[i as int].bonds@));
                assert(bond_list@ =~= flat_bonds(callc.take(i + 1)));
            }
            i = i + 1;
        }
        proof {
            assert(callc.take(callc.len() as int) =~= callc);
            lemma_flat_lens(callc, calls);
            lemma_first_unknown_none(callc, calls);
            assert(identifiers@.len() == flat_ids(callc).len());
            assert forall|q: int| 0 <= q < bond_list@.len()
                implies (#[trigger] bond_list@[q]).a < 0xFFFF_FFFF
                    && bond_list@[q].b < 0xFFFF_FFFF
            by {
                assert(bond_list@[q].a < identifiers@.len());
            }
            lemma_flat_bonds_len(callc);
            assert(bond_list@.len() < 0xFFFF_FFFF);
        }
        let bonds = bond_graph_from_edges(&bond_list);
        let k_ij = build_k_matrix(&identifiers, &component_index, &binary_segment_records);
        Ok(GcPcSaftFunctionalParameters {
            component_index,
            identifiers,
            record_index,
            m,
            sigma,
            epsilon_k,
            bonds,
            assoc_segment,
            kappa_ab,
            epsilon_k_ab,
            na,
            nb,
            psi_dft,
            k_ij,
            chemical_records,
            segment_records,
            binary_segment_records,
        })
    }
}

impl GcPcSaftFunctionalParameters {
    /// Re-derives a parameter set for the molecules at the given indices by
    /// re-running assembly on their topologies with the same record stores —
    /// never by slicing arrays, because bond re-indexing must be redone.
    pub fn subset(&self, component_list: &Vec<usize>) -> (r: Self)
        requires
            self.wf(),
            forall|k: int| 0 <= k < component_list@.len()
                ==> (#[trigger] component_list@[k]) < self.chemical_records@.len(),
            flat_ids(crate::model::selected(self.chemical_records@, component_list@)).len() < 0xFFFF_FFFF,
            total_bonds(crate::model::selected(self.chemical_records@, component_list@)) < 0xFFFF_FFFF,
        ensures
            r.wf(),
            chems_like(r.chemical_records@,
                crate::model::selected(self.chemical_records@, component_list@)),
            r.segment_records@ == self.segment_records@,
            bins_of(r.binary_segment_records) == bins_of(self.binary_segment_records),
    {
        let ghost sel_spec = crate::model::selected(self.chemical_records@, component_list@);
        let mut sel: Vec<ChemicalRecord> = Vec::new();
        let mut k: usize = 0;
        while k < component_list.len()
            invariant
                k <= component_list@.len(),
                forall|q: int| 0 <= q < component_list@.len()
                    ==> (#[trigger] component_list@[q]) < self.chemical_records@.len(),
                sel_spec == crate::model::selected(self.chemical_records@, component_list@),
                sel@.len() == k,
                forall|q: int| 0 <= q < k
                    ==> crate::record::chem_like(#[trigger] sel@[q], sel_spec[q]),
            decreases component_list@.len() - k,
        {
            let idx = component_list[k];
            sel.push(self.chemical_records[idx].clone());
            k = k + 1;
        }
        proof {
            assert(chems_like(sel@, sel_spec));
            crate::model::lemma_flatten_congruent(sel@, sel_spec, self.segment_records@);
            crate::model::lemma_grouped_congruent(sel@, sel_spec, self.segment_records@);
            assert forall|i: int| 0 <= i < sel_spec.len()
                implies (#[trigger] sel_spec[i]).bonds_wf()
            by {
                assert(sel_spec[i] == self.chemical_records@[component_list@[i] as int]);
            }
            assert(all_bonds_wf(sel_spec));
            assert(all_bonds_wf(sel@));
            assert forall|i: int, j: int|
                0 <= i < sel@.len() && 0 <= j < chem_ids(sel@[i]).len()
                implies crate::model::seg_lookup(self.segment_records@,
                    #[trigger] chem_ids(sel@[i])[j]) is Some
            by {
                assert(crate::record::chem_like(sel@[i], sel_spec[i]));
                assert(chem_ids(sel@[i]) == chem_ids(self.chemical_records@[component_list@[i] as int]));
            }
            assert(all_segments_known(sel@, self.segment_records@));
            lemma_first_unknown_none(sel@, self.segment_records@);
        }
        let segs = crate::record::clone_segment_records(&self.segment_records);
        let bins = crate::record::clone_binary_records(&self.binary_segment_records);
        proof {
            assert(bins_of(bins) == bins_of(self.binary_segment_records));
        }
        match Self::from_segments(sel, segs, bins) {
            Ok(p) => p,
            Err(_) => {
                proof {
                    assert(false);
                }
                vstd::pervasive::unreached()
            }
        }
    }
}

impl GcPcSaftFunctionalParameters {
    /// The number of molecules of the mixture.
    pub fn components(&self) -> (r: usize)
        ensures
            r == self.chemical_records@.len(),
    {
        self.chemical_records.len()
    }
}

/// Combining-rule symmetry of the binary interaction matrix: the correction
/// looks the unordered identifier pair up, so the matrix is symmetric.
pub proof fn lemma_functional_k_ij_symmetric(p: &GcPcSaftFunctionalParameters)
    requires
        p.wf(),
    ensures
        forall|i: int, j: int| 0 <= i < p.spec_len() && 0 <= j < p.spec_len()
            ==> p.k_ij@[i]@[j] == p.k_ij@[j]@[i],
{
    let chems = p.chemical_records@;
    let bins = bins_of(p.binary_segment_records);
    assert forall|i: int, j: int| 0 <= i < p.spec_len() && 0 <= j < p.spec_len()
        implies p.k_ij@[i]@[j] == p.k_ij@[j]@[i]
    by {
        crate::model::lemma_bin_lookup_symmetric(bins, flat_ids(chems)[i], flat_ids(chems)[j]);
    }
}

/// Self-interaction exclusion: no binary interaction correction is applied
/// between two segment occurrences of one molecule.
pub proof fn lemma_functional_no_self_interaction(p: &GcPcSaftFunctionalParameters)
    requires
        p.wf(),
    ensures
        forall|i: int, j: int|
            0 <= i < p.spec_len() && 0 <= j < p.spec_len()
                && p.component_index@[i] == p.component_index@[j]
            ==> p.k_ij@[i]@[j] is None,
{
}

/// Assembly determinism and subset consistency: two well-formed parameter
/// sets whose topologies describe the same molecules over the same record
/// stores hold identical arrays. In particular, a subset re-assembly equals
/// a direct assembly of the selected topologies alone.
pub proof fn lemma_assembly_deterministic(p: &GcPcSaftFunctionalParameters, q: &GcPcSaftFunctionalParameters)
    requires
        p.wf(),
        q.wf(),
        chems_like(p.chemical_records@, q.chemical_records@),
        p.segment_records@ == q.segment_records@,
        bins_of(p.binary_segment_records) == bins_of(q.binary_segment_records),
    ensures
        strs(p.identifiers@) == strs(q.identifiers@),
        p.component_index@ == q.component_index@,
        p.record_index@ == q.record_index@,
        p.m@ == q.m@,
        p.sigma@ == q.sigma@,
        p.epsilon_k@ == q.epsilon_k@,
        p.psi_dft@ == q.psi_dft@,
        p.assoc_segment@ == q.assoc_segment@,
        p.kappa_ab@ == q.kappa_ab@,
        p.epsilon_k_ab@ == q.epsilon_k_ab@,
        p.na@ == q.na@,
        p.nb@ == q.nb@,
        ungraph_edges(p.bonds) == ungraph_edges(q.bonds),
        ungraph_node_count(p.bonds) == ungraph_node_count(q.bonds),
        forall|i: int, j: int| 0 <= i < p.spec_len() && 0 <= j < p.spec_len()
            ==> p.k_ij@[i]@[j] == q.k_ij@[i]@[j],
{
    crate::model::lemma_flatten_congruent(p.chemical_records@, q.chemical_records@, p.segment_records@);
    assert(p.record_index@ == q.record_index@);
    assert(p.m@ =~= q.m@);
    assert(p.sigma@ =~= q.sigma@);
    assert(p.epsilon_k@ =~= q.epsilon_k@);
    assert(p.psi_dft@ =~= q.psi_dft@);
    assert(p.assoc_segment@ == q.assoc_segment@);
    assert(p.kappa_ab@ =~= q.kappa_ab@);
    assert(p.epsilon_k_ab@ =~= q.epsilon_k_ab@);
    assert(p.na@ =~= q.na@);
    assert(p.nb@ =~= q.nb@);
}

/// Shorthand used by the inner loop invariants.
pub open spec fn seg_lookup_some(segs: Seq<SegmentRecord>, id: Seq<char>) -> bool {
    crate::model::seg_lookup(segs, id) is Some
}

} // verus!
