use latticevm::constraint::ZEBRAConstraints;
use latticevm::interval::AbstractInterval;
use latticevm::sparsity::{fraction, SparsityCounts};
use latticevm::symbolic::{ZEBRASymbolicEntry, ZEBRASymbolicExpr, ZEBRASymbolicVal};

fn make_var(col: usize) -> ZEBRASymbolicExpr {
    ZEBRASymbolicExpr::Variable(ZEBRASymbolicVal { entry: ZEBRASymbolicEntry::Main { is_curr: true }, index: col })
}

fn make_next_var(col: usize) -> ZEBRASymbolicExpr {
    ZEBRASymbolicExpr::Variable(ZEBRASymbolicVal { entry: ZEBRASymbolicEntry::Main { is_curr: false }, index: col })
}

fn make_const(v: i128) -> ZEBRASymbolicExpr {
    ZEBRASymbolicExpr::Constant(AbstractInterval { lo: v, hi: v })
}

fn as_f64(f: (u128, u128)) -> f64 {
    f.0 as f64 / f.1 as f64
}

fn air_sparsity(k: &SparsityCounts) -> f64 {
    as_f64(k.air_sparsity_fraction())
}

#[test]
fn test_sparsity_report_basic() {
    let c0 = ZEBRASymbolicExpr::Sub(Box::new(make_var(0)), Box::new(make_const(1)));
    let c1 = ZEBRASymbolicExpr::Add(Box::new(make_var(1)), Box::new(make_var(2)));
    let c2 = ZEBRASymbolicExpr::WhenZero(Box::new(make_var(0)), Box::new(make_var(1)));
    let constraints = ZEBRAConstraints::new(vec![c0, c1, c2], vec![]);
    let k = constraints.sparsity_counts(5);

    assert_eq!(k.column_hit_counts.len(), 5);
    assert_eq!(k.air_covered_columns, 3);
    assert_eq!(k.total_covered_columns, 3);
    assert!((as_f64(k.coverage_fractions(5)[0]) - 0.6).abs() < 1e-9);
    assert!((as_f64(k.coverage_fractions(5)[3]) - 0.6).abs() < 1e-9);
    assert_eq!(k.column_hit_counts[0], 2);
    assert_eq!(k.column_hit_counts[1], 2);
    assert_eq!(k.column_hit_counts[2], 1);
    assert_eq!(k.column_hit_counts[3], 0);
    assert_eq!(k.column_hit_counts[4], 0);
    let avg = as_f64(k.width_fractions()[0]);
    assert!((avg - 5.0 / 3.0).abs() < 1e-9);
}

#[test]
fn test_sparsity_report_fully_constrained() {
    let constraints = ZEBRAConstraints::new((0..4).map(|i| make_var(i)).collect(), vec![]);
    let k = constraints.sparsity_counts(4);
    assert_eq!(k.total_covered_columns, 4);
    assert!((as_f64(k.coverage_fractions(4)[3]) - 1.0).abs() < 1e-9);
}

#[test]
fn test_sparsity_report_empty() {
    let constraints = ZEBRAConstraints::new(vec![], vec![]);
    let k = constraints.sparsity_counts(10);
    assert_eq!(k.total_covered_columns, 0);
    assert!((as_f64(k.coverage_fractions(10)[3]) - 0.0).abs() < 1e-9);
    assert_eq!(fraction(3, 0), (0, 1));
    assert_eq!(fraction(3, 4), (3, 4));
    assert_eq!(k.num_air_constraints, 0);
    assert_eq!(k.air_width_total, 0);
    assert_eq!(k.neighborhood_size, 0);
    assert_eq!(k.t_arith, 0);
    assert!((air_sparsity(&k) - 0.0).abs() < 1e-9);
}

#[test]
fn test_air_sparsity_basic() {
    let c0 = ZEBRASymbolicExpr::Sub(Box::new(make_var(0)), Box::new(make_const(1)));
    let c1 = ZEBRASymbolicExpr::Add(Box::new(make_var(1)), Box::new(make_var(2)));
    let c2 = ZEBRASymbolicExpr::WhenZero(Box::new(make_var(0)), Box::new(make_var(1)));
    let constraints = ZEBRAConstraints::new(vec![c0, c1, c2], vec![]);
    let k = constraints.sparsity_counts(5);
    assert_eq!(k.t_arith, 3);
    assert_eq!(k.neighborhood_size, 3);
    assert_eq!(k.num_air_constraints, 3);
    assert!((air_sparsity(&k) - 3.0 / (3.0 * 3.0)).abs() < 1e-9);
}

#[test]
fn test_air_sparsity_curr_next_distinct() {
    let c0 = ZEBRASymbolicExpr::Mul(Box::new(make_var(0)), Box::new(make_next_var(0)));
    let constraints = ZEBRAConstraints::new(vec![c0], vec![]);
    let k = constraints.sparsity_counts(2);
    assert_eq!(k.neighborhood_size, 2);
    assert_eq!(k.t_arith, 1);
    assert_eq!(k.num_air_constraints, 1);
    assert!((air_sparsity(&k) - 1.0 / (1.0 * 2.0)).abs() < 1e-9);
}

#[test]
fn test_air_sparsity_cse() {
    let shared = ZEBRASymbolicExpr::Add(Box::new(make_var(0)), Box::new(make_var(1)));
    let c0 = ZEBRASymbolicExpr::Mul(Box::new(shared.clone()), Box::new(make_var(2)));
    let c1 = ZEBRASymbolicExpr::Mul(Box::new(shared), Box::new(make_var(3)));
    let constraints = ZEBRAConstraints::new(vec![c0, c1], vec![]);
    let k = constraints.sparsity_counts(4);
    assert_eq!(k.t_arith, 3);
    assert_eq!(k.neighborhood_size, 4);
    assert_eq!(k.num_air_constraints, 2);
    assert!((air_sparsity(&k) - 3.0 / (2.0 * 4.0)).abs() < 1e-9);
}
