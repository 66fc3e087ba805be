use odyssey::labels::LabelMap;
use odyssey::sparse::{Cs, MappedMatrix, MappedMatrixBuilder, MappedVector, MatrixError};
use std::sync::Arc;

fn s(x: &str) -> String {
    x.to_string()
}

#[test]
fn label_map_numbers_in_order_of_first_occurrence() {
    let mut m = LabelMap::new();
    assert_eq!(m.insert(s("b")), 0);
    assert_eq!(m.insert(s("a")), 1);
    assert_eq!(m.insert(s("b")), 0);
    assert_eq!(m.len(), 2);
    assert_eq!(m.index_of("a"), Some(1));
    assert_eq!(m.index_of("c"), None);
    assert_eq!(m.label_of(0), Some(s("b")));
    assert_eq!(m.label_of(2), None);
    assert!(m.contains("a"));
    assert_eq!(m.labels(), vec![s("b"), s("a")]);
}

#[test]
fn label_map_from_labels_rejects_duplicates() {
    assert!(LabelMap::from_labels(&vec![s("x"), s("y"), s("x")]).is_none());
    let m = LabelMap::from_labels(&vec![s("x"), s("y")]).unwrap();
    assert_eq!(m.index_of("y"), Some(1));
    let c = LabelMap::copy_of(&m);
    assert_eq!(c.labels(), vec![s("x"), s("y")]);
}

#[test]
fn duplicate_triplets_share_one_slot() {
    let mut b = MappedMatrixBuilder::new();
    let first = b.add_triplet(s("r"), s("c"));
    let other = b.add_triplet(s("q"), s("c"));
    let second = b.add_triplet(s("r"), s("c"));
    assert_eq!(first, second);
    assert_ne!(first, other);
    let a: MappedMatrix<()> = b.build();
    let cs = a.cs();
    assert_eq!(cs.slot.len(), 2);
    assert_eq!(cs.p, vec![0, 2]);
    assert_eq!(cs.i, vec![0, 1]);
    assert_eq!(cs.slot, vec![first, other]);
}

/// The pattern of the 3 x 5 intervention example: columns 0 and 2 are empty.
#[test]
fn build_lays_out_compressed_columns() {
    let mut b = MappedMatrixBuilder::new();
    b.add_col(s("0"));
    b.add_row(s("0"));
    let s10 = b.add_triplet(s("0"), s("1"));
    let s15 = b.add_triplet(s("1"), s("1"));
    b.add_col(s("2"));
    let s05 = b.add_triplet(s("0"), s("3"));
    let s12 = b.add_triplet(s("2"), s("4"));
    assert_eq!(b.nrows(), 3);
    assert_eq!(b.ncols(), 5);
    assert_eq!(b.row("2"), Some(2));
    assert_eq!(b.col("4"), Some(4));
    let m: MappedMatrix<()> = b.build();
    let cs = m.cs();
    assert_eq!(cs.m, 3);
    assert_eq!(cs.n, 5);
    assert_eq!(cs.p, vec![0, 0, 2, 2, 3, 4]);
    assert_eq!(cs.i, vec![0, 1, 0, 2]);
    assert_eq!(cs.slot, vec![s10, s15, s05, s12]);
    assert!(cs.is_wf());
}

#[test]
fn rows_are_sorted_within_columns() {
    let mut b = MappedMatrixBuilder::new();
    b.add_row(s("a"));
    b.add_row(s("b"));
    b.add_row(s("c"));
    let sc = b.add_triplet(s("c"), s("x"));
    let sa = b.add_triplet(s("a"), s("x"));
    let sb = b.add_triplet(s("b"), s("x"));
    let m: MappedMatrix<()> = b.build();
    assert_eq!(m.cs().i, vec![0, 1, 2]);
    assert_eq!(m.cs().slot, vec![sa, sb, sc]);
}

#[test]
fn builders_fed_alike_build_alike() {
    let feed = |b: &mut MappedMatrixBuilder| {
        b.add_triplet(s("0"), s("0"));
        b.add_triplet(s("1"), s("0"));
        b.add_triplet(s("3"), s("1"));
        b.add_triplet(s("1"), s("1"));
        b.add_triplet(s("1"), s("0"));
    };
    let mut b1 = MappedMatrixBuilder::new();
    let mut b2 = MappedMatrixBuilder::new();
    feed(&mut b1);
    feed(&mut b2);
    let m1: MappedMatrix<()> = b1.build();
    let m2: MappedMatrix<()> = b2.build();
    assert_eq!(m1.cs().p, m2.cs().p);
    assert_eq!(m1.cs().i, m2.cs().i);
    assert_eq!(m1.cs().slot, m2.cs().slot);
}

#[test]
fn accessors_of_a_built_matrix() {
    let mut b = MappedMatrixBuilder::new();
    b.add_triplet(s("a"), s("c"));
    b.add_triplet(s("b"), s("d"));
    let m: MappedMatrix<()> = b.build();
    assert_eq!(m.nrows(), 2);
    assert_eq!(m.ncols(), 2);
    assert_eq!(m.row("b"), Some(1));
    assert_eq!(m.col("c"), Some(0));
    assert_eq!(m.irow(0), Some(s("a")));
    assert_eq!(m.icol(1), Some(s("d")));
    assert_eq!(m.icol(2), None);
    assert!(m.contains_row("a"));
    assert!(!m.contains_col("a"));
}

#[test]
fn zeros_like_rows_shares_the_row_mapping() {
    let mut b = MappedMatrixBuilder::new();
    b.add_triplet(s("r1"), s("c1"));
    b.add_triplet(s("r2"), s("c1"));
    b.add_triplet(s("r3"), s("c2"));
    let m: MappedMatrix<()> = b.build();
    let v = m.zeros_like_rows(0.0f64);
    assert_eq!(v.nrows(), 3);
    assert_eq!(v.values_ref(), &vec![0.0, 0.0, 0.0]);
    assert!(Arc::ptr_eq(&v.mapping(), &m.row_mapping()));
    let w = m.zeros_like_cols(0.0f64);
    assert_eq!(w.nrows(), 2);
    assert_eq!(w.row("c2"), Some(1));
}

#[test]
fn solve_and_dot_check_their_operands() {
    let mut b = MappedMatrixBuilder::new();
    b.add_triplet(s("a"), s("a"));
    b.add_triplet(s("b"), s("b"));
    let mut m: MappedMatrix<u8> = b.build();
    assert!(!m.has_factor());
    assert_eq!(m.check_solve(2), Err(MatrixError::NotInvertible));
    assert_eq!(m.set_factor(7), Ok(()));
    assert!(m.has_factor());
    assert_eq!(m.factor(), Some(&7));
    assert_eq!(m.check_solve(3), Err(MatrixError::ShapeMismatch));
    assert_eq!(m.check_solve(2), Ok(()));
    assert_eq!(m.check_dot(1), Err(MatrixError::ShapeMismatch));
    assert_eq!(m.check_dot(2), Ok(()));
}

#[test]
fn factor_needs_a_square_matrix() {
    let mut b = MappedMatrixBuilder::new();
    b.add_triplet(s("a"), s("x"));
    b.add_triplet(s("b"), s("x"));
    let mut m: MappedMatrix<u8> = b.build();
    assert_eq!(m.set_factor(1), Err(MatrixError::ShapeMismatch));
    assert!(!m.has_factor());
}

#[test]
fn vector_set_slot_and_replace() {
    let labels = Arc::new(LabelMap::from_labels(&vec![s("x"), s("y")]).unwrap());
    let mut v = MappedVector::new(labels.clone(), vec![1.0f64, 2.0]).ok().unwrap();
    assert_eq!(v.slot("y"), Ok(1));
    assert_eq!(v.map("y"), Some(1));
    assert_eq!(v.row("x"), Some(0));
    assert_eq!(v.slot("z"), Err(MatrixError::MissingLabel));
    let old = v.replace(1, 5.0);
    assert_eq!(old, 2.0);
    assert_eq!(v.values_ref(), &vec![1.0, 5.0]);
    assert!(v.contains("x"));
    assert_eq!(v.irow(0), Some(s("x")));
    assert!(MappedVector::new(labels, vec![1.0f64]).is_err());
    let e: MappedVector<f64> = MappedVector::empty();
    assert_eq!(e.nrows(), 0);
}

#[test]
fn diag_puts_entries_on_the_diagonal() {
    let labels = Arc::new(LabelMap::from_labels(&vec![s("x"), s("y"), s("z")]).unwrap());
    let v = MappedVector::filled(labels, 1u8);
    let d: MappedMatrix<()> = v.diag();
    assert_eq!(d.cs().p, vec![0, 1, 2, 3]);
    assert_eq!(d.cs().i, vec![0, 1, 2]);
    assert_eq!(d.cs().slot, vec![0, 1, 2]);
    assert_eq!(d.nrows(), 3);
    assert_eq!(d.ncols(), 3);
    assert_eq!(d.irow(2), Some(s("z")));
}

#[test]
fn new_checks_the_pattern() {
    let rows = Arc::new(LabelMap::from_labels(&vec![s("a"), s("b")]).unwrap());
    let cols = Arc::new(LabelMap::from_labels(&vec![s("c")]).unwrap());
    let good = Cs { m: 2, n: 1, p: vec![0, 2], i: vec![0, 1], slot: vec![0, 1] };
    assert!(MappedMatrix::<()>::new(rows.clone(), cols.clone(), good).is_ok());
    let unsorted = Cs { m: 2, n: 1, p: vec![0, 2], i: vec![1, 0], slot: vec![0, 1] };
    assert!(!unsorted.is_wf());
    assert!(matches!(
        MappedMatrix::<()>::new(rows.clone(), cols.clone(), unsorted),
        Err(MatrixError::ShapeMismatch)
    ));
    let out_of_range = Cs { m: 2, n: 1, p: vec![0, 1], i: vec![2], slot: vec![0] };
    assert!(!out_of_range.is_wf());
    let wrong_shape = Cs { m: 3, n: 1, p: vec![0, 0], i: vec![], slot: vec![] };
    assert!(MappedMatrix::<()>::new(rows, cols, wrong_shape).is_err());
}

#[test]
fn copies_seed_a_builder() {
    let mut b = MappedMatrixBuilder::new();
    b.add_triplet(s("e1"), s("p1"));
    b.add_triplet(s("e2"), s("p1"));
    let inter: MappedMatrix<()> = b.build();
    let mut c = MappedMatrixBuilder::new();
    c.copy_rows_into_cols(&inter);
    assert_eq!(c.ncols(), 2);
    assert_eq!(c.col("e2"), Some(1));
    let v = MappedVector::filled(Arc::new(LabelMap::from_labels(&vec![s("k")]).unwrap()), 0u8);
    c.copy_vec_into_rows(&v);
    assert_eq!(c.nrows(), 1);
    assert_eq!(c.row("k"), Some(0));
}

#[test]
fn vectors_compare_their_labels() {
    let shared = Arc::new(LabelMap::from_labels(&vec![s("x"), s("y")]).unwrap());
    let copy = Arc::new(LabelMap::from_labels(&vec![s("x"), s("y")]).unwrap());
    let other = Arc::new(LabelMap::from_labels(&vec![s("y"), s("x")]).unwrap());
    let a = MappedVector::filled(shared.clone(), 0u8);
    let b = MappedVector::filled(shared, 1u8);
    let c = MappedVector::filled(copy.clone(), 0u8);
    let d = MappedVector::filled(other.clone(), 0u8);
    assert!(a.same_labels(&b));
    assert!(a.same_labels(&c));
    assert!(!a.same_labels(&d));
    assert!(copy.same_labels(&copy));
    assert!(!copy.same_labels(&other));
}

#[test]
fn positions_follow_the_labels() {
    let here = LabelMap::from_labels(&vec![s("a"), s("b"), s("c")]).unwrap();
    let there = LabelMap::from_labels(&vec![s("c"), s("a")]).unwrap();
    assert_eq!(here.positions_of(&there), Some(vec![2, 0]));
    let missing = LabelMap::from_labels(&vec![s("d")]).unwrap();
    assert_eq!(here.positions_of(&missing), None);
}
