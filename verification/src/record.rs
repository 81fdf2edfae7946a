//! Plain data records: physical parameters of a single segment type, binary
//! interaction records, and molecular topologies.

use vstd::prelude::*;

verus! {

/// An opaque 64-bit encoding of a physical quantity (a molar mass, a segment
/// diameter, an interaction energy). The library stores and rearranges these
/// words but never does arithmetic on them; numeric evaluation is left to the
/// callers that own the floating-point representation.
#[derive(Clone, Copy, Debug, PartialEq, Eq, Structural)]
pub struct Par(pub u64);

/// Physical constants of one segment type.
#[derive(Clone, Copy, Debug, PartialEq, Eq, Structural)]
pub struct GcPcSaftRecord {
    /// Segment shape factor
    pub m: Par,
    /// Segment diameter
    pub sigma: Par,
    /// Energetic parameter
    pub epsilon_k: Par,
    /// Dipole moment
    pub mu: Option<Par>,
    /// Quadrupole moment
    pub q: Option<Par>,
    /// Association volume
    pub kappa_ab: Option<Par>,
    /// Association energy
    pub epsilon_k_ab: Option<Par>,
    /// Number of donor association sites
    pub na: Option<Par>,
    /// Number of acceptor association sites
    pub nb: Option<Par>,
    /// Segment weighting in the functional variant
    pub psi_dft: Option<Par>,
}

impl GcPcSaftRecord {
    pub fn new(
        m: Par,
        sigma: Par,
        epsilon_k: Par,
        mu: Option<Par>,
        q: Option<Par>,
        kappa_ab: Option<Par>,
        epsilon_k_ab: Option<Par>,
        na: Option<Par>,
        nb: Option<Par>,
        psi_dft: Option<Par>,
    ) -> (r: Self)
        ensures
            r == (GcPcSaftRecord { m, sigma, epsilon_k, mu, q, kappa_ab, epsilon_k_ab, na, nb, psi_dft }),
    {
        Self { m, sigma, epsilon_k, mu, q, kappa_ab, epsilon_k_ab, na, nb, psi_dft }
    }

    /// A segment carries association sites when both the association energy
    /// and the association volume are given.
    pub open spec fn is_associating(&self) -> bool {
        self.kappa_ab is Some && self.epsilon_k_ab is Some
    }
}

/// Bit pattern of the unit quantity. A record that carries association
/// parameters but no site counts defaults to one site of each class.
pub const PAR_UNIT_BITS: u64 = 0x3FF0000000000000;

/// Bit pattern of one half: the default ceiling on the segment packing
/// fraction.
pub const PAR_HALF_BITS: u64 = 0x3FE0000000000000;

/// Bit pattern of 1e-10: the default tolerance on the gradient norm of the
/// cross-association solver.
pub const PAR_TOL_BITS: u64 = 0x3DDB7CDFD9D7BDBB;

/// Bit pattern of 1.5357: the default segment weighting of the functional
/// variant.
pub const PAR_PSI_DFT_BITS: u64 = 0x3FF8923A29C779A7;

/// Identifier views of a vector of strings.
pub open spec fn strs(v: Seq<String>) -> Seq<Seq<char>> {
    v.map(|k: int, s: String| s@)
}

/// A named segment type: its identifier, molar mass and model constants.
#[derive(Debug, PartialEq, Eq)]
pub struct SegmentRecord {
    pub identifier: String,
    pub molarweight: Par,
    pub model_record: GcPcSaftRecord,
}

impl SegmentRecord {
    pub fn new(identifier: String, molarweight: Par, model_record: GcPcSaftRecord) -> (r: Self)
        ensures
            r == (SegmentRecord { identifier, molarweight, model_record }),
    {
        Self { identifier, molarweight, model_record }
    }
}

impl Clone for SegmentRecord {
    fn clone(&self) -> (r: Self)
        ensures
            r == *self,
    {
        SegmentRecord {
            identifier: self.identifier.clone(),
            molarweight: self.molarweight,
            model_record: self.model_record,
        }
    }
}

/// A binary interaction correction between two segment types, looked up by
/// the unordered pair of their identifiers.
#[derive(Debug, PartialEq, Eq)]
pub struct BinaryRecord {
    pub id1: String,
    pub id2: String,
    pub model_record: Par,
}

impl BinaryRecord {
    pub fn new(id1: String, id2: String, model_record: Par) -> (r: Self)
        ensures
            r == (BinaryRecord { id1, id2, model_record }),
    {
        Self { id1, id2, model_record }
    }

    /// The unordered pair (a, b) names this record.
    pub open spec fn names_pair(&self, a: Seq<char>, b: Seq<char>) -> bool {
        (self.id1@ == a && self.id2@ == b) || (self.id1@ == b && self.id2@ == a)
    }
}

impl Clone for BinaryRecord {
    fn clone(&self) -> (r: Self)
        ensures
            r == *self,
    {
        BinaryRecord { id1: self.id1.clone(), id2: self.id2.clone(), model_record: self.model_record }
    }
}

/// A bond between two positions of a molecule's segment list.
#[derive(Clone, Copy, Debug, PartialEq, Eq, Structural)]
pub struct Bond {
    pub a: usize,
    pub b: usize,
}

/// The topology of one molecule: an ordered list of segment identifiers and
/// the bonds between positions of that list.
#[derive(Debug, PartialEq, Eq)]
pub struct ChemicalRecord {
    /// Component name
    pub identifier: String,
    pub segments: Vec<String>,
    pub bonds: Vec<Bond>,
}

impl ChemicalRecord {
    pub fn new(identifier: String, segments: Vec<String>, bonds: Vec<Bond>) -> (r: Self)
        ensures
            r == (ChemicalRecord { identifier, segments, bonds }),
    {
        Self { identifier, segments, bonds }
    }

    /// Every bond refers to two positions of the segment list.
    pub open spec fn bonds_wf(&self) -> bool {
        forall|k: int| 0 <= k < self.bonds@.len()
            ==> (#[trigger] self.bonds@[k]).a < self.segments@.len()
                && self.bonds@[k].b < self.segments@.len()
    }
}

/// Two topologies describe the same molecule: same name, same segment list,
/// same bonds. (A clone of a topology is like its original; assembly depends
/// on nothing else of it.)
pub open spec fn chem_like(a: ChemicalRecord, b: ChemicalRecord) -> bool {
    &&& a.identifier == b.identifier
    &&& a.segments@ == b.segments@
    &&& a.bonds@ == b.bonds@
}

/// Pointwise `chem_like` over whole topology lists.
pub open spec fn chems_like(a: Seq<ChemicalRecord>, b: Seq<ChemicalRecord>) -> bool {
    &&& a.len() == b.len()
    &&& forall|i: int| 0 <= i < a.len() ==> chem_like(#[trigger] a[i], b[i])
}

/// Clones a vector of identifiers, entry by entry.
pub fn clone_strings(v: &Vec<String>) -> (r: Vec<String>)
    ensures
        r@ == v@,
{
    let mut r: Vec<String> = Vec::with_capacity(v.len());
    let mut j: usize = 0;
    while j < v.len()
        invariant
            j <= v@.len(),
            r@ == v@.take(j as int),
        decreases v@.len() - j,
    {
        r.push(v[j].clone());
        proof {
            assert(v@.take(j + 1) =~= v@.take(j as int).push(v@[j as int]));
        }
        j = j + 1;
    }
    proof {
        assert(v@.take(v@.len() as int) =~= v@);
    }
    r
}

impl Clone for ChemicalRecord {
    fn clone(&self) -> (r: Self)
        ensures
            chem_like(*self, r),
    {
        let segments = clone_strings(&self.segments);
        let mut bonds: Vec<Bond> = Vec::with_capacity(self.bonds.len());
        let mut j: usize = 0;
        while j < self.bonds.len()
            invariant
                j <= self.bonds@.len(),
                bonds@ == self.bonds@.take(j as int),
            decreases self.bonds@.len() - j,
        {
            bonds.push(self.bonds[j]);
            proof {
                assert(self.bonds@.take(j + 1) =~= self.bonds@.take(j as int).push(self.bonds@[j as int]));
            }
            j = j + 1;
        }
        proof {
            assert(self.bonds@.take(self.bonds@.len() as int) =~= self.bonds@);
        }
        ChemicalRecord { identifier: self.identifier.clone(), segments, bonds }
    }
}

/// Clones a segment record store, entry by entry.
pub fn clone_segment_records(v: &Vec<SegmentRecord>) -> (r: Vec<SegmentRecord>)
    ensures
        r@ == v@,
{
    let mut r: Vec<SegmentRecord> = Vec::with_capacity(v.len());
    let mut j: usize = 0;
    while j < v.len()
        invariant
            j <= v@.len(),
            r@ == v@.take(j as int),
        decreases v@.len() - j,
    {
        r.push(v[j].clone());
        proof {
            assert(v@.take(j + 1) =~= v@.take(j as int).push(v@[j as int]));
        }
        j = j + 1;
    }
    proof {
        assert(v@.take(v@.len() as int) =~= v@);
    }
    r
}

/// Clones a list of binary interaction records, entry by entry.
pub fn clone_binary_records(v: &Option<Vec<BinaryRecord>>) -> (r: Option<Vec<BinaryRecord>>)
    ensures
        match r {
            Some(rv) => match v {
                Some(vv) => rv@ == vv@,
                None => false,
            },
            None => v is None,
        },
{
    match v {
        None => None,
        Some(vv) => {
            let mut r: Vec<BinaryRecord> = Vec::with_capacity(vv.len());
            let mut j: usize = 0;
            while j < vv.len()
                invariant
                    j <= vv@.len(),
                    r@ == vv@.take(j as int),
                decreases vv@.len() - j,
            {
                r.push(vv[j].clone());
                proof {
                    assert(vv@.take(j + 1) =~= vv@.take(j as int).push(vv@[j as int]));
                }
                j = j + 1;
            }
            proof {
                assert(vv@.take(vv@.len() as int) =~= vv@);
            }
            Some(r)
        }
    }
}

/// A pure-component record: an identifier and, when known, the molecular
/// topology. Assembly needs the topology and fails without it.
#[derive(Debug, PartialEq, Eq)]
pub struct GroupContributionRecord {
    pub identifier: String,
    pub chemical_record: Option<ChemicalRecord>,
}

impl GroupContributionRecord {
    pub fn new(identifier: String, chemical_record: Option<ChemicalRecord>) -> (r: Self)
        ensures
            r == (GroupContributionRecord { identifier, chemical_record }),
    {
        Self { identifier, chemical_record }
    }
}

/// Two pure-component records describe the same component: same identifier,
/// and topologies that describe the same molecule when present.
pub open spec fn group_like(a: GroupContributionRecord, b: GroupContributionRecord) -> bool {
    &&& a.identifier == b.identifier
    &&& match (a.chemical_record, b.chemical_record) {
        (Some(ca), Some(cb)) => chem_like(ca, cb),
        (None, None) => true,
        _ => false,
    }
}

impl Clone for GroupContributionRecord {
    fn clone(&self) -> (r: Self)
        ensures
            group_like(*self, r),
    {
        let chemical_record = match &self.chemical_record {
            Some(c) => Some(c.clone()),
            None => None,
        };
        GroupContributionRecord { identifier: self.identifier.clone(), chemical_record }
    }
}

/// Recognized configuration of the equation of state and of the functional.
#[derive(Clone, Copy, Debug, PartialEq, Eq, Structural)]
pub struct GcPcSaftOptions {
    /// Ceiling on the segment packing fraction
    pub max_eta: Par,
    /// Iteration cap of the cross-association solver
    pub max_iter_cross_assoc: usize,
    /// Convergence threshold on the gradient norm of the cross-association
    /// solver
    pub tol_cross_assoc: Par,
}

impl Default for GcPcSaftOptions {
    fn default() -> (r: Self)
        ensures
            r.max_eta == Par(PAR_HALF_BITS),
            r.max_iter_cross_assoc == 50,
            r.tol_cross_assoc == Par(PAR_TOL_BITS),
    {
        Self {
            max_eta: Par(PAR_HALF_BITS),
            max_iter_cross_assoc: 50,
            tol_cross_assoc: Par(PAR_TOL_BITS),
        }
    }
}

/// Failures of parameter assembly.
#[derive(Clone, Debug, PartialEq, Eq)]
pub enum ParameterError {
    /// A topology refers to a segment identifier that the segment record
    /// store does not hold.
    UnknownSegment(String),
    /// A pure-component record carries no topology.
    InsufficientInformation,
    /// Molecules queried by name that a catalogue does not hold; every
    /// unmatched name is reported at once.
    ComponentsNotFound(Vec<String>),
}

/// A list of names, each preceded by one space.
pub open spec fn name_list(ids: Seq<String>) -> Seq<char>
    decreases ids.len(),
{
    if ids.len() == 0 {
        Seq::empty()
    } else {
        name_list(ids.drop_last()) + " "@ + ids.last()@
    }
}

impl ParameterError {
    /// A human-readable description naming the offending identifiers.
    pub fn message(&self) -> (r: String)
        ensures
            r@ == (match self {
                ParameterError::UnknownSegment(id) => "unknown segment: "@ + id@,
                ParameterError::InsufficientInformation => "missing chemical record"@,
                ParameterError::ComponentsNotFound(ids) => "components not found:"@ + name_list(ids@),
            }),
    {
        match self {
            ParameterError::UnknownSegment(id) => {
                let mut s = String::from_str("unknown segment: ");
                s.append(id.as_str());
                s
            }
            ParameterError::InsufficientInformation => {
                String::from_str("missing chemical record")
            }
            ParameterError::ComponentsNotFound(ids) => {
                let mut s = String::from_str("components not found:");
                proof {
                    assert(ids@.take(0) =~= Seq::<String>::empty());
                    assert(s@ =~= "components not found:"@ + name_list(ids@.take(0)));
                }
                let mut k: usize = 0;
                while k < ids.len()
                    invariant
                        k <= ids@.len(),
                        s@ == "components not found:"@ + name_list(ids@.take(k as int)),
                    decreases ids@.len() - k,
                {
                    s.append(" ");
                    s.append(ids[k].as_str());
                    proof {
                        assert(ids@.take(k + 1).drop_last() =~= ids@.take(k as int));
                        assert(ids@.take(k + 1).last() == ids@[k as int]);
                        assert(s@ =~= "components not found:"@ + name_list(ids@.take(k + 1)));
                    }
                    k = k + 1;
                }
                proof {
                    assert(ids@.take(ids@.len() as int) =~= ids@);
                }
                s
            }
        }
    }
}

/// The cross-association solver went past its iteration cap without meeting
/// its tolerance. Fatal for the evaluation: an unconverged site fraction would
/// silently corrupt the energy and its derivatives.
#[derive(Clone, Debug, PartialEq, Eq)]
pub struct NotConverged {
    /// Names the contribution whose iteration failed.
    pub contribution: String,
}

impl NotConverged {
    /// A human-readable description naming the contribution.
    pub fn message(&self) -> (r: String)
        ensures
            r@ == "not converged: "@ + self.contribution@,
    {
        let mut s = String::from_str("not converged: ");
        s.append(self.contribution.as_str());
        s
    }
}

} // verus!
