use gc_pcsaft::record::{Bond, ChemicalRecord, GcPcSaftOptions, GcPcSaftRecord,
    GroupContributionRecord, Par, ParameterError, SegmentRecord};
use gc_pcsaft::eos::GcPcSaftEosParameters;
use gc_pcsaft::functional::GcPcSaftFunctionalParameters;
use gc_pcsaft::parameters::GcPcSaftParameters;
use petgraph::visit::EdgeRef;
use gc_pcsaft::select::select_components;
use gc_pcsaft::checks::{check_bonds_wf, check_flat_count, check_total_bonds};

fn par(x: f64) -> Par {
    Par(x.to_bits())
}

fn plain_record(m: f64, sigma: f64, epsilon_k: f64) -> GcPcSaftRecord {
    GcPcSaftRecord::new(par(m), par(sigma), par(epsilon_k), None, None, None, None, None, None, None)
}

fn assoc_record(m: f64, sigma: f64, epsilon_k: f64, kappa_ab: f64, epsilon_k_ab: f64) -> GcPcSaftRecord {
    GcPcSaftRecord::new(
        par(m),
        par(sigma),
        par(epsilon_k),
        None,
        None,
        Some(par(kappa_ab)),
        Some(par(epsilon_k_ab)),
        None,
        None,
        None,
    )
}

fn ch3() -> SegmentRecord {
    SegmentRecord::new("CH3".to_string(), par(15.0), plain_record(0.77247, 3.6937, 181.49))
}

fn ch2() -> SegmentRecord {
    SegmentRecord::new("CH2".to_string(), par(14.0), plain_record(0.7912, 3.0207, 157.23))
}

fn oh() -> SegmentRecord {
    SegmentRecord::new("OH".to_string(), par(0.0), assoc_record(1.0231, 2.7702, 334.29, 0.009583, 2575.9))
}

fn chain(name: &str, segments: &[&str], bonds: &[(usize, usize)]) -> ChemicalRecord {
    ChemicalRecord::new(
        name.to_string(),
        segments.iter().map(|s| s.to_string()).collect(),
        bonds.iter().map(|&(a, b)| Bond { a, b }).collect(),
    )
}

#[test]
fn three_segment_chain_flattens_in_order() {
    // one molecule of three segments A-B-A: each list entry becomes one
    // occurrence of the functional parameter set
    let a = SegmentRecord::new("A".to_string(), par(15.0), plain_record(1.0, 3.7, 181.0));
    let b = SegmentRecord::new("B".to_string(), par(14.0), plain_record(1.0, 3.0, 157.0));
    let molecule = chain("aba", &["A", "B", "A"], &[(0, 1), (1, 2)]);
    let p = GcPcSaftFunctionalParameters::from_segments(vec![molecule], vec![a, b], None).unwrap();

    assert_eq!(p.component_index, vec![0, 0, 0]);
    assert_eq!(p.record_index, vec![0, 1, 0]);
    assert_eq!(p.identifiers, vec!["A".to_string(), "B".to_string(), "A".to_string()]);
    assert_eq!(p.m, vec![par(1.0), par(1.0), par(1.0)]);

    let edges: Vec<(usize, usize)> = p
        .bonds
        .edge_references()
        .map(|e| (e.source().index(), e.target().index()))
        .collect();
    assert_eq!(edges, vec![(0, 1), (1, 2)]);
    assert_eq!(p.bonds.node_count(), 3);

    // the molar mass of the molecule is the sum over its occurrences
    let mw: f64 = p
        .record_index
        .iter()
        .map(|&r| f64::from_bits(p.segment_records[r].molarweight.0))
        .sum();
    assert_eq!(mw, 2.0 * 15.0 + 14.0);
}

#[test]
fn grouped_assembly_merges_equal_segments() {
    // propane-like CH3-CH2-CH3: the grouped set holds one occurrence per
    // distinct segment with its multiplicity
    let molecule = chain("propane", &["CH3", "CH2", "CH3"], &[(0, 1), (1, 2)]);
    let p = GcPcSaftEosParameters::from_segments(vec![molecule], vec![ch3(), ch2()], None).unwrap();

    assert_eq!(p.identifiers, vec!["CH3".to_string(), "CH2".to_string()]);
    assert_eq!(p.component_index, vec![0, 0]);
    assert_eq!(p.n, vec![2, 1]);
    assert_eq!(p.record_index, vec![0, 1]);
    assert_eq!(p.m_segment, vec![par(0.77247), par(0.7912)]);
    assert_eq!(p.sigma, vec![par(3.6937), par(3.0207)]);

    // both bonds map to the same unordered occurrence pair
    assert_eq!(p.bonds.len(), 1);
    assert_eq!((p.bonds[0].a, p.bonds[0].b, p.bonds[0].count), (0, 1, 2));
}

#[test]
fn association_sites_are_collected() {
    // propanol-like CH3-CH2-CH2-OH: only the OH segment carries association
    // parameters, and absent site counts default to one site of each class
    let molecule = chain("propanol", &["CH3", "CH2", "CH2", "OH"], &[(0, 1), (1, 2), (2, 3)]);
    let p = GcPcSaftEosParameters::from_segments(vec![molecule], vec![ch3(), ch2(), oh()], None).unwrap();

    assert_eq!(p.identifiers.len(), 3);
    assert_eq!(p.n, vec![1, 2, 1]);
    assert_eq!(p.assoc_segment, vec![2]);
    assert_eq!(p.kappa_ab, vec![par(0.009583)]);
    assert_eq!(p.epsilon_k_ab, vec![par(2575.9)]);
    assert_eq!(p.na, vec![par(1.0)]);
    assert_eq!(p.nb, vec![par(1.0)]);
}

#[test]
fn functional_psi_defaults() {
    // a record without a functional weighting gets the documented default
    let molecule = chain("methane", &["CH3"], &[]);
    let p = GcPcSaftFunctionalParameters::from_segments(vec![molecule], vec![ch3()], None).unwrap();
    assert_eq!(p.psi_dft, vec![par(1.5357)]);
}

#[test]
fn unknown_segment_is_reported() {
    let molecule = chain("propanol", &["CH3", "CH2", "CH2", "OH"], &[(0, 1), (1, 2), (2, 3)]);
    let r = GcPcSaftEosParameters::from_segments(vec![molecule], vec![ch3(), ch2()], None);
    match r {
        Err(ParameterError::UnknownSegment(id)) => {
            assert_eq!(id, "OH".to_string());
        }
        _ => panic!("expected an unknown-segment failure"),
    }
}

#[test]
fn missing_topology_is_reported() {
    let with_topology = GroupContributionRecord::new(
        "propane".to_string(),
        Some(chain("propane", &["CH3", "CH2", "CH3"], &[(0, 1), (1, 2)])),
    );
    let without_topology = GroupContributionRecord::new("unknown".to_string(), None);
    let r = GcPcSaftParameters::from_segments(
        vec![with_topology, without_topology],
        vec![ch3(), ch2()],
        None,
    );
    match r {
        Err(ParameterError::InsufficientInformation) => {}
        _ => panic!("expected a missing-topology failure"),
    }
}

#[test]
fn pure_records_assemble_like_topologies() {
    let record = GroupContributionRecord::new(
        "propane".to_string(),
        Some(chain("propane", &["CH3", "CH2", "CH3"], &[(0, 1), (1, 2)])),
    );
    let p = GcPcSaftParameters::from_segments(vec![record], vec![ch3(), ch2()], None).unwrap();
    assert_eq!(p.params.identifiers, vec!["CH3".to_string(), "CH2".to_string()]);
    assert_eq!(p.params.n, vec![2, 1]);
    assert_eq!(p.pure_records.len(), 1);
}

fn ethanol_propanol(binary: Option<gc_pcsaft::record::BinaryRecord>) -> GcPcSaftEosParameters {
    let ethanol = chain("ethanol", &["CH3", "CH2", "OH"], &[(0, 1), (1, 2)]);
    let propanol = chain("1-propanol", &["CH3", "CH2", "CH2", "OH"], &[(0, 1), (1, 2), (2, 3)]);
    GcPcSaftEosParameters::from_segments(
        vec![ethanol, propanol],
        vec![ch3(), ch2(), oh()],
        binary.map(|b| vec![b]),
    )
    .unwrap()
}

#[test]
fn binary_correction_applies_between_molecules() {
    let k = gc_pcsaft::record::BinaryRecord::new("CH3".to_string(), "OH".to_string(), par(-0.0087));
    let p = ethanol_propanol(Some(k));
    // occurrences: ethanol CH3, CH2, OH; propanol CH3, CH2, OH
    assert_eq!(p.identifiers.len(), 6);
    assert_eq!(p.component_index, vec![0, 0, 0, 1, 1, 1]);

    // the correction binds the CH3 of one molecule to the OH of the other
    assert_eq!(p.k_ij[0][5], Some(par(-0.0087)));
    assert_eq!(p.k_ij[5][0], Some(par(-0.0087)));
    assert_eq!(p.k_ij[3][2], Some(par(-0.0087)));

    // never inside one molecule, whatever the pair
    assert_eq!(p.k_ij[0][2], None);
    assert_eq!(p.k_ij[3][5], None);

    // unrelated pairs of different molecules carry no correction
    assert_eq!(p.k_ij[0][4], None);

    // the whole matrix is symmetric
    for i in 0..6 {
        for j in 0..6 {
            assert_eq!(p.k_ij[i][j], p.k_ij[j][i]);
        }
    }
}

#[test]
fn subset_matches_direct_assembly() {
    let p = ethanol_propanol(None);
    let sub = p.subset(&vec![1]);
    let direct = GcPcSaftEosParameters::from_segments(
        vec![chain("1-propanol", &["CH3", "CH2", "CH2", "OH"], &[(0, 1), (1, 2), (2, 3)])],
        vec![ch3(), ch2(), oh()],
        None,
    )
    .unwrap();
    assert_eq!(sub.identifiers, direct.identifiers);
    assert_eq!(sub.component_index, direct.component_index);
    assert_eq!(sub.record_index, direct.record_index);
    assert_eq!(sub.n, direct.n);
    assert_eq!(sub.m_segment, direct.m_segment);
    assert_eq!(sub.sigma, direct.sigma);
    assert_eq!(sub.epsilon_k, direct.epsilon_k);
    assert_eq!(sub.bonds, direct.bonds);
    assert_eq!(sub.assoc_segment, direct.assoc_segment);
    assert_eq!(sub.components(), 1);
}

#[test]
fn functional_subset_matches_direct_assembly() {
    let ethanol = chain("ethanol", &["CH3", "CH2", "OH"], &[(0, 1), (1, 2)]);
    let propanol = chain("1-propanol", &["CH3", "CH2", "CH2", "OH"], &[(0, 1), (1, 2), (2, 3)]);
    let p = GcPcSaftFunctionalParameters::from_segments(
        vec![ethanol, propanol],
        vec![ch3(), ch2(), oh()],
        None,
    )
    .unwrap();
    let sub = p.subset(&vec![0]);
    let direct = GcPcSaftFunctionalParameters::from_segments(
        vec![chain("ethanol", &["CH3", "CH2", "OH"], &[(0, 1), (1, 2)])],
        vec![ch3(), ch2(), oh()],
        None,
    )
    .unwrap();
    assert_eq!(sub.identifiers, direct.identifiers);
    assert_eq!(sub.component_index, direct.component_index);
    assert_eq!(sub.record_index, direct.record_index);
    assert_eq!(sub.m, direct.m);
    let pairs = |g: &petgraph::graph::UnGraph<(), ()>| -> Vec<(usize, usize)> {
        g.edge_references()
            .map(|e| (e.source().index(), e.target().index()))
            .collect()
    };
    assert_eq!(pairs(&sub.bonds), pairs(&direct.bonds));
    assert_eq!(sub.bonds.node_count(), direct.bonds.node_count());
}

#[test]
fn later_record_shadows_earlier() {
    // two records of one identifier: the later one is used
    let first = SegmentRecord::new("CH3".to_string(), par(15.0), plain_record(0.7, 3.6, 180.0));
    let second = SegmentRecord::new("CH3".to_string(), par(15.0), plain_record(0.8, 3.7, 182.0));
    let molecule = chain("methane", &["CH3"], &[]);
    let p = GcPcSaftEosParameters::from_segments(vec![molecule], vec![first, second], None).unwrap();
    assert_eq!(p.record_index, vec![1]);
    assert_eq!(p.m_segment, vec![par(0.8)]);
}

#[test]
fn catalogue_selection_reports_all_missing() {
    let queried = vec!["ethanol".to_string(), "methanol".to_string(), "butanol".to_string()];
    let available = vec!["ethanol".to_string()];
    match select_components(&queried, &available) {
        Err(ParameterError::ComponentsNotFound(miss)) => {
            assert_eq!(miss, vec!["methanol".to_string(), "butanol".to_string()]);
        }
        _ => panic!("expected a components-not-found failure"),
    }
}

#[test]
fn catalogue_selection_resolves_names() {
    let queried = vec!["propanol".to_string(), "ethanol".to_string(), "propanol".to_string()];
    let available = vec!["ethanol".to_string(), "propanol".to_string(), "ethanol".to_string()];
    let idx = select_components(&queried, &available).unwrap();
    // one entry per distinct queried name, in query order; the last
    // catalogue entry of a name wins
    assert_eq!(idx, vec![1, 2]);
}

#[test]
fn error_messages_name_the_identifiers() {
    let e = ParameterError::UnknownSegment("OH".to_string());
    assert_eq!(e.message(), "unknown segment: OH".to_string());
    let m = ParameterError::ComponentsNotFound(vec!["methanol".to_string(), "butanol".to_string()]);
    assert_eq!(m.message(), "components not found: methanol butanol".to_string());
}

#[test]
fn options_defaults() {
    let o = GcPcSaftOptions::default();
    assert_eq!(o.max_eta, par(0.5));
    assert_eq!(o.max_iter_cross_assoc, 50);
    assert_eq!(o.tol_cross_assoc, par(1e-10));
}

#[test]
fn bond_checks_reject_malformed_topologies() {
    let good = vec![chain("propane", &["CH3", "CH2", "CH3"], &[(0, 1), (1, 2)])];
    assert!(check_bonds_wf(&good));
    assert!(check_total_bonds(&good));
    assert!(check_flat_count(&good));
    let bad = vec![chain("broken", &["CH3"], &[(0, 5)])];
    assert!(!check_bonds_wf(&bad));
}

#[test]
fn pure_record_subset_keeps_records() {
    let propane = GroupContributionRecord::new(
        "propane".to_string(),
        Some(chain("propane", &["CH3", "CH2", "CH3"], &[(0, 1), (1, 2)])),
    );
    let propanol = GroupContributionRecord::new(
        "1-propanol".to_string(),
        Some(chain("1-propanol", &["CH3", "CH2", "CH2", "OH"], &[(0, 1), (1, 2), (2, 3)])),
    );
    let p = GcPcSaftParameters::from_segments(
        vec![propane, propanol],
        vec![ch3(), ch2(), oh()],
        None,
    )
    .unwrap();
    let sub = p.subset(&vec![1]);
    assert_eq!(sub.pure_records.len(), 1);
    assert_eq!(sub.pure_records[0].identifier, "1-propanol".to_string());
    assert_eq!(sub.params.assoc_segment, vec![2]);
    // a subset can be subset again, as it is a full pure-record set
    let again = sub.subset(&vec![0]);
    assert_eq!(again.pure_records[0].identifier, "1-propanol".to_string());
}
