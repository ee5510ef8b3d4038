use circuit_tools::builder::{ConstraintBuilder, TableData};
use circuit_tools::cells::{CellManager, CellTypePolicy};
use circuit_tools::eval::Assignment;
use circuit_tools::expr::{same_expr, Expr};
use circuit_tools::field::Fp;
use circuit_tools::merger::TableMerger;

fn simple_builder(max_degree: usize) -> ConstraintBuilder {
    let types: Vec<usize> = vec![0, 0];
    let cm = CellManager::new(&types, 16);
    let policy = CellTypePolicy {
        default_type: 0,
        byte_type: None,
        phase_types: vec![0],
        lookup_tags: vec![(0, 42)],
    };
    ConstraintBuilder::new(
        max_degree,
        Some(cm),
        Some(Expr::Challenge { index: 0, phase: 0 }),
        policy,
    )
}

fn empty_assignment() -> Assignment {
    Assignment { cells: Vec::new(), challenges: vec![Fp { v: 0 }] }
}

fn row(description: &str, condition: u64, values: &[u64]) -> TableData {
    TableData {
        description: description.to_owned(),
        regional_condition: Expr::constant(1),
        local_condition: Expr::constant(condition),
        values: values.iter().map(|v| Expr::constant(*v)).collect(),
        region_id: 0,
    }
}

/// With conditions {1,0,0} and rows [5,6], [7,8], [9,10], the merge yields
/// selector 1 and the first row's values.
#[test]
fn merge_selects_single_active_source() {
    let merger = TableMerger {
        data: vec![
            row("first", 1, &[5, 6]),
            row("second", 0, &[7, 8]),
            row("third", 0, &[9, 10]),
        ],
    };
    let (selector, merged) = merger.merge_unsafe();
    let a = empty_assignment();
    assert_eq!(a.eval_expr(&selector).v, 1);
    assert_eq!(merged.len(), 2);
    assert_eq!(a.eval_expr(&merged[0]).v, 5);
    assert_eq!(a.eval_expr(&merged[1]).v, 6);
}

/// With only the first condition set, the other rows' contents are
/// irrelevant to the merged row.
#[test]
fn merge_ignores_inactive_sources() {
    let merger = TableMerger {
        data: vec![
            row("first", 1, &[5, 6]),
            row("second", 0, &[1000, 2000]),
            row("third", 0, &[31337, 4]),
        ],
    };
    let (selector, merged) = merger.merge_unsafe();
    let a = empty_assignment();
    assert_eq!(a.eval_expr(&selector).v, 1);
    assert_eq!(a.eval_expr(&merged[0]).v, 5);
    assert_eq!(a.eval_expr(&merged[1]).v, 6);
}

#[test]
fn merge_empty_set_is_zero() {
    let merger = TableMerger { data: Vec::new() };
    let (selector, merged) = merger.merge_unsafe();
    let a = empty_assignment();
    assert_eq!(a.eval_expr(&selector).v, 0);
    assert!(merged.is_empty());
}

#[test]
fn merge_pads_narrow_rows() {
    let merger = TableMerger {
        data: vec![row("narrow", 0, &[5]), row("wide", 1, &[7, 8])],
    };
    let (_, merged) = merger.merge_unsafe();
    let a = empty_assignment();
    assert_eq!(merged.len(), 2);
    assert_eq!(a.eval_expr(&merged[0]).v, 7);
    assert_eq!(a.eval_expr(&merged[1]).v, 8);
}

#[test]
fn check_and_merge_adds_boolean_check() {
    let mut cb = simple_builder(8);
    let merger = TableMerger { data: vec![row("only", 1, &[5])] };
    let (selector, merged) = merger.check_and_merge(&mut cb);
    let a = empty_assignment();
    assert_eq!(a.eval_expr(&selector).v, 1);
    assert_eq!(a.eval_expr(&merged[0]).v, 5);
    // The exclusivity check landed as one constraint, satisfied here.
    let built = cb.build_constraints();
    assert_eq!(built.len(), 1);
    assert!(circuit_tools::eval::constraints_satisfied(&built, &a));
}

#[test]
fn merge_and_select_scales_by_selector() {
    let mut cb = simple_builder(8);
    let merger = TableMerger {
        data: vec![row("first", 1, &[5, 6]), row("second", 0, &[7, 8])],
    };
    let selected = merger.merge_and_select(&mut cb);
    let a = empty_assignment();
    assert_eq!(a.eval_expr(&selected[0]).v, 5);
    assert_eq!(a.eval_expr(&selected[1]).v, 6);
}

#[test]
fn store_table_buckets_by_tag() {
    let mut cb = simple_builder(8);
    cb.store_table("one", 3, vec![Expr::constant(5)]);
    cb.store_table("two", 3, vec![Expr::constant(6)]);
    cb.store_table("other", 4, vec![Expr::constant(7)]);
    assert_eq!(cb.tables.len(), 2);
    assert_eq!(cb.tables[0].0, 3);
    assert_eq!(cb.tables[0].1.len(), 2);
    assert_eq!(cb.tables[1].0, 4);
}

#[test]
fn load_table_is_unconditional() {
    let mut cb = simple_builder(8);
    cb.push_condition(Expr::constant(0));
    cb.load_table("fixed", 9, vec![Expr::constant(3), Expr::constant(7)]);
    cb.pop_condition();
    let values = cb.table(9);
    assert_eq!(values.len(), 2);
    let a = empty_assignment();
    assert_eq!(a.eval_expr(&cb.tables[0].1[0].local_condition).v, 1);
    assert_eq!(a.eval_expr(&values[0]).v, 3);
    assert_eq!(a.eval_expr(&values[1]).v, 7);
}

#[test]
fn dynamic_table_merged_selects() {
    let mut cb = simple_builder(8);
    cb.push_condition(Expr::constant(1));
    cb.store_table("active", 5, vec![Expr::constant(5), Expr::constant(6)]);
    cb.pop_condition();
    cb.push_condition(Expr::constant(0));
    cb.store_table("inactive", 5, vec![Expr::constant(7), Expr::constant(8)]);
    cb.pop_condition();
    let merged = cb.dynamic_table_merged(5);
    let a = empty_assignment();
    assert_eq!(merged.len(), 2);
    assert_eq!(a.eval_expr(&merged[0]).v, 5);
    assert_eq!(a.eval_expr(&merged[1]).v, 6);
}

/// Looking a 1-tuple up against a 2-column table emits the padded check
/// `[x, 0]` against `[t0, t1]`.
#[test]
fn lookup_padding() {
    let mut cb = simple_builder(8);
    let x = Expr::constant(5);
    let t0 = Expr::constant(5);
    let t1 = Expr::constant(7);
    cb.add_lookup("padded", vec![x.clone()], vec![t0.clone(), t1.clone()]);
    let emitted = cb.build_lookups();
    assert_eq!(emitted.len(), 1);
    let pairs = &emitted[0].pairs;
    assert_eq!(pairs.len(), 2);
    // No conditions were active: the condition is 1 * 1.
    let cond = Expr::product(Expr::constant(1), Expr::constant(1));
    let expected0 = Expr::product(x, cond);
    assert!(same_expr(&pairs[0].0, &expected0));
    assert!(same_expr(&pairs[0].1, &t0));
    assert!(same_expr(&pairs[1].0, &Expr::constant(0)));
    assert!(same_expr(&pairs[1].1, &t1));
}

#[test]
fn lookup_records_conditions_at_registration() {
    let mut cb = simple_builder(8);
    let q = Expr::constant(1);
    cb.push_condition(q.clone());
    cb.add_lookup("gated", vec![Expr::constant(2)], vec![Expr::constant(2)]);
    cb.pop_condition();
    assert_eq!(cb.lookups.len(), 1);
    assert!(same_expr(&cb.lookups[0].local_condition, &q));
}

/// Compressing a tuple through the builder matches `v0 + v1 r + v2 r^2`.
#[test]
fn store_tuple_compresses_by_rlc() {
    let mut cb = simple_builder(8);
    cb.push_region(1, 16);
    let values = vec![Expr::constant(1), Expr::constant(2), Expr::constant(3)];
    let compressed = cb.store_tuple("tuple", 0, values);
    assert!(matches!(compressed, Expr::Cell(_)));
    let stored = cb.get_stored_expressions(1);
    assert_eq!(stored.len(), 1);
    let mut a = Assignment {
        cells: vec![vec![Fp { v: 0 }; 16], vec![Fp { v: 0 }; 16]],
        challenges: vec![Fp { v: 10 }],
    };
    let value = a.eval_expr(&stored[0].expr);
    a.cells[stored[0].cell.column][stored[0].cell.rotation] = value;
    assert_eq!(a.eval_expr(&compressed).v, 321);
}
