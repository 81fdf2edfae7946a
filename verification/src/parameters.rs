//! Parameter set assembled from pure-component records: each record carries
//! an identifier and, when known, the molecular topology. The grouped
//! assembler does the work; this layer checks record completeness first, in
//! record order, as the per-molecule scan demands.

use vstd::prelude::*;
use crate::record::{BinaryRecord, ChemicalRecord, GroupContributionRecord, ParameterError,
    SegmentRecord, chem_like, chems_like, group_like};
use crate::model::{all_bonds_wf, all_segments_known, chem_ids, first_unknown, first_unknown_in,
    lemma_first_unknown_in_at, lemma_first_unknown_in_none, lemma_first_unknown_none,
    seg_lookup, total_bonds};
use crate::imap::{id_map_view, id_map_get};
use crate::lookup::{build_segment_map, seg_map_matches};
use crate::eos::GcPcSaftEosParameters;

verus! {

/// What a scan of the pure-component records in order finds first: a record
/// without topology, a topology with an unresolved segment identifier, or
/// nothing wrong.
pub ghost enum PureScan {
    Clean,
    Insufficient,
    Unknown(Seq<char>),
}

/// The verdict on one record.
pub open spec fn scan_one(p: GroupContributionRecord, segs: Seq<SegmentRecord>) -> PureScan {
    match p.chemical_record {
        None => PureScan::Insufficient,
        Some(c) => match first_unknown_in(chem_ids(c), segs) {
            Some(id) => PureScan::Unknown(id),
            None => PureScan::Clean,
        },
    }
}

/// The verdict on a record list: the first non-clean record decides.
pub open spec fn pure_scan(pures: Seq<GroupContributionRecord>, segs: Seq<SegmentRecord>) -> PureScan
    decreases pures.len(),
{
    if pures.len() == 0 {
        PureScan::Clean
    } else if !(scan_one(pures[0], segs) is Clean) {
        scan_one(pures[0], segs)
    } else {
        pure_scan(pures.drop_first(), segs)
    }
}

pub proof fn lemma_pure_scan_decided_at(pures: Seq<GroupContributionRecord>, segs: Seq<SegmentRecord>, i: int)
    requires
        0 <= i < pures.len(),
        pure_scan(pures.take(i), segs) is Clean,
        !(scan_one(pures[i], segs) is Clean),
    ensures
        pure_scan(pures, segs) == scan_one(pures[i], segs),
    decreases i,
{
    if i == 0 {
    } else {
        assert(pures.take(i)[0] == pures[0]);
        assert(scan_one(pures[0], segs) is Clean) by {
            if !(scan_one(pures.take(i)[0], segs) is Clean) {
                assert(!(pure_scan(pures.take(i), segs) is Clean));
            }
        }
        assert(pures.take(i).drop_first() =~= pures.drop_first().take(i - 1));
        assert(pures.drop_first()[i - 1] == pures[i]);
        lemma_pure_scan_decided_at(pures.drop_first(), segs, i - 1);
    }
}

pub proof fn lemma_pure_scan_push(pures: Seq<GroupContributionRecord>, p: GroupContributionRecord, segs: Seq<SegmentRecord>)
    ensures
        pure_scan(pures.push(p), segs) == (if !(pure_scan(pures, segs) is Clean) {
            pure_scan(pures, segs)
        } else {
            scan_one(p, segs)
        }),
    decreases pures.len(),
{
    if pures.len() == 0 {
        assert(pures.push(p)[0] == p);
        assert(pures.push(p).drop_first() =~= Seq::<GroupContributionRecord>::empty());
        assert(pure_scan(pures, segs) is Clean);
        assert(pure_scan(Seq::<GroupContributionRecord>::empty(), segs) is Clean);
        assert(pure_scan(pures.push(p), segs) == scan_one(p, segs));
    } else {
        assert(pures.push(p)[0] == pures[0]);
        assert(pures.push(p).drop_first() =~= pures.drop_first().push(p));
        lemma_pure_scan_push(pures.drop_first(), p, segs);
        if !(scan_one(pures[0], segs) is Clean) {
            assert(pure_scan(pures.push(p), segs) == scan_one(pures[0], segs));
            assert(pure_scan(pures, segs) == scan_one(pures[0], segs));
        } else {
            assert(pure_scan(pures.push(p), segs) == pure_scan(pures.drop_first().push(p), segs));
            assert(pure_scan(pures, segs) == pure_scan(pures.drop_first(), segs));
        }
    }
}

/// Parameter set assembled from pure-component records: the grouped set,
/// together with the records it came from.
pub struct GcPcSaftParameters {
    /// The grouped parameter set over the records' topologies
    pub params: GcPcSaftEosParameters,
    /// The pure-component records this set was assembled from
    pub pure_records: Vec<GroupContributionRecord>,
}

impl GcPcSaftParameters {
    /// The stored records and the assembled set fit together: one molecule
    /// per record, each with that record's topology.
    pub open spec fn wf(&self) -> bool {
        &&& self.params.wf()
        &&& self.params.chemical_records@.len() == self.pure_records@.len()
        &&& forall|i: int| 0 <= i < self.pure_records@.len()
            ==> (#[trigger] self.pure_records@[i]).chemical_record is Some
                && chem_like(self.params.chemical_records@[i],
                    self.pure_records@[i].chemical_record.unwrap())
    }

    /// Assembles from pure-component records. The first record without a
    /// topology fails with the missing-information error; a topology whose
    /// segment identifier resolves to no record fails naming that
    /// identifier; record order decides which failure is reported.
    pub fn from_segments(
        pure_records: Vec<GroupContributionRecord>,
        segment_records: Vec<SegmentRecord>,
        binary_segment_records: Option<Vec<BinaryRecord>>,
    ) -> (r: Result<Self, ParameterError>)
        requires
            forall|i: int| 0 <= i < pure_records@.len()
                ==> match (#[trigger] pure_records@[i]).chemical_record {
                    Some(c) => c.bonds_wf(),
                    None => true,
                },
            pure_total_bonds(pure_records@) <= usize::MAX,
        ensures
            match r {
                Ok(p) => {
                    &&& p.wf()
                    &&& p.pure_records == pure_records
                    &&& p.params.segment_records == segment_records
                    &&& p.params.binary_segment_records == binary_segment_records
                    &&& pure_scan(pure_records@, segment_records@) is Clean
                },
                Err(e) => match e {
                    ParameterError::InsufficientInformation =>
                        pure_scan(pure_records@, segment_records@) is Insufficient,
                    ParameterError::UnknownSegment(id) =>
                        pure_scan(pure_records@, segment_records@) == PureScan::Unknown(id@),
                    _ => false,
                },
            },
    {
        let ghost callp = pure_records@;
        let ghost calls = segment_records@;
        let seg_map = build_segment_map(&segment_records);
        let mut chems: Vec<ChemicalRecord> = Vec::new();
        let mut i: usize = 0;
        while i < pure_records.len()
            invariant
                i <= callp.len(),
                callp == pure_records@,
                calls == segment_records@,
                seg_map_matches(id_map_view(seg_map), calls),
                forall|t: int| 0 <= t < callp.len()
                    ==> match (#[trigger] callp[t]).chemical_record {
                        Some(c) => c.bonds_wf(),
                        None => true,
                    },
                pure_total_bonds(callp) <= usize::MAX,
                pure_scan(callp.take(i as int), calls) is Clean,
                chems@.len() == i,
                forall|t: int| 0 <= t < i
                    ==> (#[trigger] callp[t]).chemical_record is Some
                        && chem_like(chems@[t], callp[t].chemical_record.unwrap()),
                total_bonds(chems@) <= pure_total_bonds(callp.take(i as int)),
            decreases callp.len() - i,
        {
            let ghost prefix = callp.take(i as int);
            proof {
                assert(callp.take(i + 1) =~= prefix.push(callp[i as int]));
                lemma_pure_scan_push(prefix, callp[i as int], calls);
                lemma_pure_total_bonds_push(prefix, callp[i as int]);
            }
            match &pure_records[i].chemical_record {
                None => {
                    proof {
                        lemma_pure_scan_decided_at(callp, calls, i as int);
                    }
                    return Err(ParameterError::InsufficientInformation);
                }
                Some(c) => {
                    let mut j: usize = 0;
                    while j < c.segments.len()
                        invariant
                            j <= c.segments@.len(),
                            i < callp.len(),
                            calls == segment_records@,
                            callp == pure_records@,
                            callp[i as int].chemical_record == Some(*c),
                            pure_scan(callp.take(i as int), calls) is Clean,
                            seg_map_matches(id_map_view(seg_map), calls),
                            forall|t: int| 0 <= t < j
                                ==> seg_lookup(calls, #[trigger] chem_ids(callp[i as int].chemical_record.unwrap())[t]) is Some,
                        decreases c.segments@.len() - j,
                    {
                        let id_ref = &c.segments[j];
                        proof {
                            assert(chem_ids(callp[i as int].chemical_record.unwrap())[j as int] == id_ref@);
                        }
                        match id_map_get(&seg_map, id_ref) {
                            None => {
                                proof {
                                    assert(seg_lookup(calls, id_ref@) is None);
                                    lemma_first_unknown_in_at(
                                        chem_ids(callp[i as int].chemical_record.unwrap()), calls, j as int);
                                    lemma_pure_scan_decided_at(callp, calls, i as int);
                                }
                                return Err(ParameterError::UnknownSegment(id_ref.clone()));
                            }
                            Some(_) => {}
                        }
                        j = j + 1;
                    }
                    proof {
                        let gc = callp[i as int].chemical_record.unwrap();
                        assert(chem_ids(gc).take(c.segments@.len() as int) =~= chem_ids(gc));
                        lemma_first_unknown_in_none(chem_ids(gc), calls);
                        assert(scan_one(callp[i as int], calls) is Clean);
                    }
                    let ghost old_chems = chems@;
                    chems.push(c.clone());
                    proof {
                        assert(chems@ =~= old_chems.push(chems@.last()));
                        lemma_total_bonds_push_chem(old_chems, chems@.last());
                        assert(chem_like(*c, chems@.last()));
                        assert(chems@.last().bonds@.len()
                            == callp[i as int].chemical_record.unwrap().bonds@.len());
                        assert(total_bonds(chems@)
                            == total_bonds(old_chems) + chems@.last().bonds@.len());
                    }
                }
            }
            i = i + 1;
        }
        proof {
            assert(callp.take(callp.len() as int) =~= callp);
            assert forall|t: int| 0 <= t < chems@.len()
                implies (#[trigger] chems@[t]).bonds_wf()
            by {
                assert(chem_like(chems@[t], callp[t].chemical_record.unwrap()));
                assert(callp[t].chemical_record.unwrap().bonds_wf());
            }
            assert(all_bonds_wf(chems@));
            assert forall|t: int, j: int|
                0 <= t < chems@.len() && 0 <= j < chem_ids(chems@[t]).len()
                implies seg_lookup(calls, #[trigger] chem_ids(chems@[t])[j]) is Some
            by {
                assert(chem_like(chems@[t], callp[t].chemical_record.unwrap()));
                assert(scan_one(callp[t], calls) is Clean) by {
                    lemma_pure_scan_all_clean(callp, calls, t);
                }
                lemma_first_unknown_in_none(chem_ids(callp[t].chemical_record.unwrap()), calls);
                assert(chem_ids(chems@[t]) == chem_ids(callp[t].chemical_record.unwrap()));
            }
            assert(all_segments_known(chems@, calls));
            lemma_first_unknown_none(chems@, calls);
        }
        match GcPcSaftEosParameters::from_segments(chems, segment_records, binary_segment_records) {
            Ok(params) => Ok(GcPcSaftParameters { params, pure_records }),
            Err(_) => {
                proof {
                    assert(false);
                }
                vstd::pervasive::unreached()
            }
        }
    }

    /// Re-derives a parameter set for the records at the given indices by
    /// re-running assembly from their topologies and the same record stores.
    pub fn subset(&self, component_list: &Vec<usize>) -> (r: Self)
        requires
            self.wf(),
            forall|k: int| 0 <= k < component_list@.len()
                ==> (#[trigger] component_list@[k]) < self.params.chemical_records@.len(),
            total_bonds(crate::model::selected(self.params.chemical_records@, component_list@)) <= usize::MAX,
        ensures
            r.wf(),
            r.pure_records@.len() == component_list@.len(),
            forall|k: int| 0 <= k < component_list@.len()
                ==> group_like(self.pure_records@[component_list@[k] as int],
                    #[trigger] r.pure_records@[k]),
            chems_like(r.params.chemical_records@,
                crate::model::selected(self.params.chemical_records@, component_list@)),
            r.params.segment_records@ == self.params.segment_records@,
            crate::model::bins_of(r.params.binary_segment_records)
                == crate::model::bins_of(self.params.binary_segment_records),
    {
        let ghost sel_spec = crate::model::selected(self.params.chemical_records@, component_list@);
        let params = self.params.subset(component_list);
        let mut pure_records: Vec<GroupContributionRecord> = Vec::new();
        let mut k: usize = 0;
        while k < component_list.len()
            invariant
                k <= component_list@.len(),
                self.wf(),
                forall|q: int| 0 <= q < component_list@.len()
                    ==> (#[trigger] component_list@[q]) < self.params.chemical_records@.len(),
                pure_records@.len() == k,
                forall|q: int| 0 <= q < k
                    ==> group_like(self.pure_records@[component_list@[q] as int],
                        #[trigger] pure_records@[q]),
            decreases component_list@.len() - k,
        {
            let idx = component_list[k];
            pure_records.push(self.pure_records[idx].clone());
            k = k + 1;
        }
        proof {
            assert(sel_spec.len() == component_list@.len());
            assert forall|q: int| 0 <= q < component_list@.len()
                implies (#[trigger] pure_records@[q]).chemical_record is Some
                    && chem_like(params.chemical_records@[q],
                        pure_records@[q].chemical_record.unwrap())
            by {
                let idx = component_list@[q] as int;
                assert(sel_spec[q] == self.params.chemical_records@[idx]);
                assert(chem_like(params.chemical_records@[q], sel_spec[q]));
                assert(chem_like(self.params.chemical_records@[idx],
                    self.pure_records@[idx].chemical_record.unwrap()));
                assert(group_like(self.pure_records@[idx], pure_records@[q]));
            }
        }
        GcPcSaftParameters { params, pure_records }
    }
}

/// The number of bonds over all records that carry a topology.
pub open spec fn pure_total_bonds(pures: Seq<GroupContributionRecord>) -> nat
    decreases pures.len(),
{
    if pures.len() == 0 {
        0
    } else {
        pure_total_bonds(pures.drop_last()) + (match pures.last().chemical_record {
            Some(c) => c.bonds@.len(),
            None => 0,
        })
    }
}

proof fn lemma_pure_total_bonds_push(pures: Seq<GroupContributionRecord>, p: GroupContributionRecord)
    ensures
        pure_total_bonds(pures.push(p)) == pure_total_bonds(pures) + (match p.chemical_record {
            Some(c) => c.bonds@.len(),
            None => 0nat,
        }),
{
    assert(pures.push(p).drop_last() =~= pures);
}

proof fn lemma_total_bonds_push_chem(chems: Seq<ChemicalRecord>, c: ChemicalRecord)
    ensures
        total_bonds(chems.push(c)) == total_bonds(chems) + c.bonds@.len(),
{
    assert(chems.push(c).drop_last() =~= chems);
}

/// Every record of a cleanly scanned list is itself clean.
proof fn lemma_pure_scan_all_clean(pures: Seq<GroupContributionRecord>, segs: Seq<SegmentRecord>, i: int)
    requires
        pure_scan(pures, segs) is Clean,
        0 <= i < pures.len(),
    ensures
        scan_one(pures[i], segs) is Clean,
    decreases i,
{
    if i > 0 {
        assert(pures.drop_first()[i - 1] == pures[i]);
        lemma_pure_scan_all_clean(pures.drop_first(), segs, i - 1);
    }
}

} // verus!
