use odyssey::ecospold::{
    build_candidates, build_matrices, candidate, CandidateError, ElementaryExchange,
    IntermediateExchange, Process, TopologyError,
};
use odyssey::ids::{ids_from_str, product_text, IdError};
use odyssey::impacts::{add_factors, impact_builder, ImpactCategory, EF31, EF31_COUNT};
use odyssey::sparse::{MappedMatrix, MappedMatrixBuilder};

const P_X: &str = "11111111-1111-1111-1111-111111111111";
const Q_X: &str = "22222222-2222-2222-2222-222222222222";
const P_Y: &str = "33333333-3333-3333-3333-333333333333";
const Q_Y: &str = "44444444-4444-4444-4444-444444444444";
const CO2: &str = "55555555-5555-5555-5555-555555555555";

fn s(x: &str) -> String {
    x.to_string()
}

fn own(product: &str, name: &str) -> IntermediateExchange {
    IntermediateExchange {
        process_id: None,
        product_id: s(product),
        zero_amount: false,
        input: false,
        name: s(name),
        unit: s("kg"),
    }
}

fn link(process: &str, product: &str, zero: bool) -> IntermediateExchange {
    IntermediateExchange {
        process_id: Some(s(process)),
        product_id: s(product),
        zero_amount: zero,
        input: true,
        name: s("input"),
        unit: s("kg"),
    }
}

/// Activity X produces steel and consumes some of Y's product; Y produces coal
/// and emits CO2.
fn two_activities() -> Vec<Process> {
    vec![
        Process {
            id: format!("{}_{}", P_X, Q_X),
            activity_name: s("make x"),
            location: s("CH"),
            intermediates: vec![own(Q_X, "steel"), link(P_Y, Q_Y, false)],
            elementaries: vec![],
        },
        Process {
            id: format!("{}_{}", P_Y, Q_Y),
            activity_name: s("make y"),
            location: s("GLO"),
            intermediates: vec![own(Q_Y, "coal")],
            elementaries: vec![
                ElementaryExchange { product_id: s(CO2), zero_amount: false },
                ElementaryExchange { product_id: s("ignored"), zero_amount: true },
            ],
        },
    ]
}

#[test]
fn topology_of_two_linked_activities() {
    let ps = two_activities();
    let t = build_matrices(&ps).ok().unwrap();
    let x = format!("{}_{}", P_X, Q_X);
    let y = format!("{}_{}", P_Y, Q_Y);
    assert_eq!(t.technology.ncols(), 2);
    assert_eq!(t.technology.nrows(), 2);
    assert_eq!(t.technology.col(&x), Some(0));
    assert_eq!(t.technology.col(&y), Some(1));
    assert_eq!(t.intervention.ncols(), 2);
    assert_eq!(t.intervention.nrows(), 1);
    assert_eq!(t.intervention.row(CO2), Some(0));
    assert_eq!(t.technology_values.len(), 3);
    assert_eq!(t.intervention_values.len(), 1);
    let link_value = t.technology_values[1];
    assert_eq!((link_value.process, link_value.exchange), (0, 1));
    assert!(link_value.negate);
    assert!(!t.technology_values[0].negate);
    let a: MappedMatrix<()> = t.technology.build();
    assert_eq!(a.cs().p, vec![0, 2, 3]);
    assert_eq!(a.cs().i, vec![0, 1, 1]);
}

#[test]
fn zero_links_are_not_followed_first() {
    let mut ps = two_activities();
    ps[0].intermediates[1].zero_amount = true;
    let t = build_matrices(&ps).ok().unwrap();
    assert_eq!(t.technology.ncols(), 2);
    assert_eq!(t.technology_values.len(), 3);
}

#[test]
fn duplicate_process_ids_are_refused() {
    let mut ps = two_activities();
    ps[1].id = ps[0].id.clone();
    assert_eq!(build_matrices(&ps).err(), Some(TopologyError::DuplicateId));
}

#[test]
fn ids_split_into_two_uuids() {
    let id = format!("{}_{}", P_X, Q_X);
    let (p, q) = ids_from_str(&id).unwrap();
    assert_eq!(p, 0x11111111_1111_1111_1111_111111111111u128);
    assert_eq!(q, 0x22222222_2222_2222_2222_222222222222u128);
    assert_eq!(ids_from_str(P_X), Err(IdError::MissingSeparator));
    assert_eq!(ids_from_str("nope_nada"), Err(IdError::InvalidUuid));
    let upper = format!("{}_{}", P_X, "22222222-2222-2222-2222-22222222222A");
    assert_eq!(product_text(&upper), Ok(s("22222222-2222-2222-2222-22222222222a")));
    let extra = format!("{}_{}_rest", P_X, Q_X);
    assert!(ids_from_str(&extra).is_ok());
}

#[test]
fn candidates_name_their_reference_product() {
    let ps = two_activities();
    let item = candidate(&ps[1], "3.10").ok().unwrap();
    assert_eq!(item.id, ps[1].id);
    assert_eq!(item.database, "Ecoinvent_3.10");
    assert_eq!(item.name, "make y");
    assert_eq!(item.alt_name, Some(s("coal")));
    assert_eq!(item.location, Some(s("GLO")));
    assert_eq!(item.unit, "kg");
    let all = build_candidates(&ps, "3.10").ok().unwrap();
    assert_eq!(all.len(), 2);
    assert_eq!(all[0].alt_name, Some(s("steel")));
}

#[test]
fn candidate_errors() {
    let mut ps = two_activities();
    ps[0].intermediates.remove(0);
    assert!(matches!(candidate(&ps[0], "3.10"), Err(CandidateError::NoProduct)));
    ps[1].id = s("broken");
    assert!(matches!(
        candidate(&ps[1], "3.10"),
        Err(CandidateError::Id(IdError::MissingSeparator))
    ));
}

#[test]
fn ef31_order_is_fixed() {
    let m = EF31::get_mapping();
    assert_eq!(m.len(), EF31_COUNT);
    assert_eq!(m.index_of("Gwp100"), Some(0));
    assert_eq!(m.index_of("OzoneDepletion"), Some(20));
    assert_eq!(m.index_of("WaterUse"), Some(24));
    assert_eq!(EF31::LandUse.index(), 19);
    assert_eq!(EF31::from_index(5), Some(EF31::ParticulMatter));
    assert_eq!(EF31::from_index(25), None);
    assert_eq!(ImpactCategory::EF31(EF31::Acidification).label(), "Acidification");
    let v = ImpactCategory::get_empty_vector(0.0f64);
    assert_eq!(v.nrows(), 25);
    assert_eq!(v.irow(3), Some(s("FossilGwp100")));
}

#[test]
fn impact_rows_cover_every_category() {
    let mut b = MappedMatrixBuilder::new();
    b.add_triplet(s(CO2), s("x"));
    b.add_triplet(s("ch4"), s("x"));
    let inter: MappedMatrix<()> = b.build();
    let mut c = impact_builder(&inter);
    assert_eq!(c.nrows(), 25);
    assert_eq!(c.ncols(), 2);
    assert!(add_factors(&mut c, s("unknown")).is_none());
    let slots = add_factors(&mut c, s("ch4")).unwrap();
    assert_eq!(slots.len(), 25);
    assert_eq!(slots[0], 0);
    assert_eq!(slots[24], 24);
    let again = add_factors(&mut c, s("ch4")).unwrap();
    assert_eq!(again, slots);
    let m: MappedMatrix<()> = c.build();
    assert_eq!(m.cs().p, vec![0, 0, 25]);
}
