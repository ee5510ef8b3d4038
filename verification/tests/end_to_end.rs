use circuit_tools::builder::ConstraintBuilder;
use circuit_tools::cells::{CellManager, CellTypePolicy};
use circuit_tools::eval::{constraints_satisfied, lookup_argument_satisfied, Assignment};
use circuit_tools::expr::Expr;
use circuit_tools::field::Fp;

/// A circuit with one boolean selector `q`, cell pairs `(a, b)` and
/// `(c, d)`, and a fixed two-column table holding the row `(3, 7)`; under
/// `q`, the tuple `(a + b, c + d)` is looked up in the table.
struct PairLookupCircuit {
    cb: ConstraintBuilder,
    q: circuit_tools::expr::CellRef,
    cells: Vec<circuit_tools::expr::CellRef>,
}

fn describe_circuit() -> PairLookupCircuit {
    let types: Vec<usize> = vec![0, 0];
    let cm = CellManager::new(&types, 16);
    let policy = CellTypePolicy {
        default_type: 0,
        byte_type: None,
        phase_types: vec![0],
        lookup_tags: Vec::new(),
    };
    let mut cb = ConstraintBuilder::new(8, Some(cm), None, policy);
    let q = cb.query_bool();
    let cells = cb.query_cells_dyn(0, 4);
    let sum_ab = Expr::sum(Expr::cell(cells[0]), Expr::cell(cells[1]));
    let sum_cd = Expr::sum(Expr::cell(cells[2]), Expr::cell(cells[3]));
    cb.push_condition(Expr::cell(q));
    cb.add_lookup("pair sums in fixed table", vec![sum_ab, sum_cd], vec![
        Expr::constant(3),
        Expr::constant(7),
    ]);
    cb.pop_condition();
    PairLookupCircuit { cb, q, cells }
}

fn assign(circuit: &PairLookupCircuit, q: u64, values: [u64; 4]) -> Assignment {
    let mut a = Assignment {
        cells: vec![vec![Fp { v: 0 }; 16], vec![Fp { v: 0 }; 16]],
        challenges: Vec::new(),
    };
    a.cells[circuit.q.column][circuit.q.rotation] = Fp { v: q };
    for (cell, v) in circuit.cells.iter().zip(values.iter()) {
        a.cells[cell.column][cell.rotation] = Fp { v: *v };
    }
    a
}

#[test]
fn pair_lookup_satisfied_when_sums_match_table_row() {
    let circuit = describe_circuit();
    let constraints = circuit.cb.build_constraints();
    let lookups = circuit.cb.build_lookups();
    assert_eq!(lookups.len(), 1);
    let table_rows: Vec<Vec<Fp>> = vec![vec![Fp { v: 3 }, Fp { v: 7 }]];

    // q = 1, a = 1, b = 2, c = 3, d = 4: (a+b, c+d) = (3, 7) is a row.
    let good = assign(&circuit, 1, [1, 2, 3, 4]);
    assert!(constraints_satisfied(&constraints, &good));
    assert!(lookup_argument_satisfied(&lookups[0], &good, &table_rows));
}

#[test]
fn pair_lookup_fails_when_sum_misses_table() {
    let circuit = describe_circuit();
    let constraints = circuit.cb.build_constraints();
    let lookups = circuit.cb.build_lookups();
    let table_rows: Vec<Vec<Fp>> = vec![vec![Fp { v: 3 }, Fp { v: 7 }]];

    // q = 1, a = 1, b = 2, c = 3, d = 5: (3, 8) matches no table row.
    let bad = assign(&circuit, 1, [1, 2, 3, 5]);
    assert!(constraints_satisfied(&constraints, &bad));
    assert!(!lookup_argument_satisfied(&lookups[0], &bad, &table_rows));
}

#[test]
fn selector_must_be_boolean() {
    let circuit = describe_circuit();
    let constraints = circuit.cb.build_constraints();
    let odd = assign(&circuit, 5, [1, 2, 3, 4]);
    assert!(!constraints_satisfied(&constraints, &odd));
}
