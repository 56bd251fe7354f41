use design_matrix::build_design_matrix;
use design_matrix::BuildError;
use design_matrix::Cell;
use design_matrix::Column;
use design_matrix::Matrix;
use design_matrix::Table;

fn text(values: &[Option<&str>]) -> Column {
    Column::Text(values.iter().map(|v| v.map(|s| s.to_string())).collect())
}

fn numeric(values: &[f64]) -> Column {
    Column::Numeric(values.iter().map(|v| Some(v.to_bits())).collect())
}

fn table(columns: Vec<(&str, Column)>) -> Table {
    Table { columns: columns.into_iter().map(|(n, c)| (n.to_string(), c)).collect() }
}

fn names_of(m: &Matrix) -> Vec<String> {
    m.column_names.clone()
}

#[test]
fn test_character_vector_conversion() {
    let t = table(vec![("x", text(&[Some("a"), Some("b"), Some("c")]))]);
    let m = build_design_matrix(t).unwrap();
    assert_eq!(m.nrow, 3);
    assert_eq!(m.ncol, 3);
    assert_eq!(names_of(&m), vec!["(Intercept)", "xb", "xc"]);
    let one = Cell::Int(1);
    let zero = Cell::Int(0);
    assert_eq!(m.data, vec![one, one, one, zero, one, zero, zero, zero, one]);
}

#[test]
fn categorical_scenario() {
    // x = ["a", "b", "a", "c"] over levels ["a", "b", "c"], reference "a".
    let codes = vec![Some(0), Some(1), Some(0), Some(2)];
    let levels = vec!["a".to_string(), "b".to_string(), "c".to_string()];
    let t = table(vec![("x", Column::Categorical(codes, levels))]);
    let m = build_design_matrix(t).unwrap();
    assert_eq!(names_of(&m), vec!["(Intercept)", "xb", "xc"]);
    let one = Cell::Int(1);
    let zero = Cell::Int(0);
    // Column-major: intercept, then xb, then xc.
    let expected = vec![one, one, one, one, zero, one, zero, zero, zero, zero, zero, one];
    assert_eq!(m.data, expected);
    // Row-wise: [1,0,0], [1,1,0], [1,0,0], [1,0,1].
    for r in 0..4 {
        for c in 0..3 {
            assert_eq!(m.data[c * m.nrow + r], expected[c * 4 + r]);
        }
    }
    // Dummy-region row sums are 0 for the reference level, 1 otherwise.
    for (r, expected_sum) in [(0, 0.0), (1, 1.0), (2, 0.0), (3, 1.0)] {
        let mut sum = 0.0;
        for c in 1..3 {
            match m.data[c * m.nrow + r] {
                Cell::Int(v) => sum += v as f64,
                other => panic!("dummy cell held {:?}", other),
            }
        }
        assert_eq!(sum, expected_sum);
    }
}

#[test]
fn numeric_missing_propagates() {
    let n = Column::Numeric(vec![Some(1.0f64.to_bits()), None, Some(3.0f64.to_bits())]);
    let t = table(vec![("n", n)]);
    let m = build_design_matrix(t).unwrap();
    assert_eq!(names_of(&m), vec!["(Intercept)", "n"]);
    assert_eq!(
        m.data,
        vec![
            Cell::Int(1),
            Cell::Int(1),
            Cell::Int(1),
            Cell::Num(1.0f64.to_bits()),
            Cell::Missing,
            Cell::Num(3.0f64.to_bits()),
        ]
    );
}

#[test]
fn zero_rows_still_counts_columns() {
    let levels = vec!["a".to_string(), "b".to_string(), "c".to_string()];
    let t = table(vec![("x", Column::Categorical(vec![], levels))]);
    let m = build_design_matrix(t).unwrap();
    assert_eq!(m.nrow, 0);
    assert_eq!(m.ncol, 3);
    assert_eq!(m.data, Vec::<Cell>::new());
    assert_eq!(names_of(&m), vec!["(Intercept)", "xb", "xc"]);
    assert_eq!(m.row_names, Vec::<String>::new());
}

#[test]
fn single_level_contributes_no_columns() {
    let x = Column::Categorical(vec![Some(0), Some(0)], vec!["a".to_string()]);
    let t = table(vec![("x", x), ("y", numeric(&[1.0, 2.0]))]);
    let m = build_design_matrix(t).unwrap();
    assert_eq!(m.ncol, 2);
    assert_eq!(names_of(&m), vec!["(Intercept)", "y"]);
    assert_eq!(
        m.data,
        vec![
            Cell::Int(1),
            Cell::Int(1),
            Cell::Num(1.0f64.to_bits()),
            Cell::Num(2.0f64.to_bits()),
        ]
    );
}

#[test]
fn building_twice_is_identical() {
    let make = || {
        table(vec![
            ("x", text(&[Some("b"), None, Some("a"), Some("b")])),
            ("y", numeric(&[0.5, -1.25, 3.0, 4.0])),
            ("b", Column::Boolean(vec![Some(true), Some(false), None, Some(true)])),
        ])
    };
    let m1 = build_design_matrix(make()).unwrap();
    let m2 = build_design_matrix(make()).unwrap();
    assert_eq!(m1.nrow, m2.nrow);
    assert_eq!(m1.ncol, m2.ncol);
    assert_eq!(m1.data, m2.data);
    assert_eq!(m1.column_names, m2.column_names);
    assert_eq!(m1.row_names, m2.row_names);
}

#[test]
fn unsupported_column_aborts() {
    let t = table(vec![
        ("y", numeric(&[1.0])),
        ("z", Column::Unsupported("complex".to_string())),
    ]);
    match build_design_matrix(t) {
        Err(BuildError::UnsupportedColumnType { name, kind }) => {
            assert_eq!(name, "z");
            assert_eq!(kind, "complex");
        }
        other => panic!("expected the unsupported-column error, got {:?}", other.is_ok()),
    }
}

#[test]
fn shape_mismatch_aborts() {
    let t = table(vec![
        ("a", numeric(&[1.0, 2.0])),
        ("b", Column::Integer(vec![Some(1), Some(2), Some(3)])),
    ]);
    match build_design_matrix(t) {
        Err(BuildError::ShapeMismatch { name, expected, actual }) => {
            assert_eq!(name, "b");
            assert_eq!(expected, 2);
            assert_eq!(actual, 3);
        }
        other => panic!("expected the shape-mismatch error, got {:?}", other.is_ok()),
    }
}

#[test]
fn boolean_policy_indicator_and_missing() {
    let b = Column::Boolean(vec![Some(true), Some(false), None]);
    let t = table(vec![("b", b)]);
    let m = build_design_matrix(t).unwrap();
    assert_eq!(names_of(&m), vec!["(Intercept)", "bTRUE"]);
    assert_eq!(
        m.data,
        vec![
            Cell::Int(1),
            Cell::Int(1),
            Cell::Int(1),
            Cell::Int(1),
            Cell::Int(0),
            Cell::Missing,
        ]
    );
}

#[test]
fn integer_widens_and_missing_propagates() {
    let i = Column::Integer(vec![Some(5), None, Some(-7)]);
    let t = table(vec![("i", i)]);
    let m = build_design_matrix(t).unwrap();
    assert_eq!(
        m.data,
        vec![
            Cell::Int(1),
            Cell::Int(1),
            Cell::Int(1),
            Cell::Int(5),
            Cell::Missing,
            Cell::Int(-7),
        ]
    );
}

#[test]
fn text_with_missing_value() {
    let t = table(vec![("x", text(&[Some("b"), None, Some("a")]))]);
    let m = build_design_matrix(t).unwrap();
    assert_eq!(names_of(&m), vec!["(Intercept)", "xb"]);
    assert_eq!(
        m.data,
        vec![
            Cell::Int(1),
            Cell::Int(1),
            Cell::Int(1),
            Cell::Int(1),
            Cell::Missing,
            Cell::Int(0),
        ]
    );
}

#[test]
fn out_of_range_code_is_left_zero() {
    let x = Column::Categorical(vec![Some(7), Some(1)], vec!["a".to_string(), "b".to_string()]);
    let t = table(vec![("x", x)]);
    let m = build_design_matrix(t).unwrap();
    assert_eq!(m.ncol, 2);
    assert_eq!(m.data, vec![Cell::Int(1), Cell::Int(1), Cell::Int(0), Cell::Int(1)]);
}

#[test]
fn empty_table_yields_intercept_only() {
    let t = Table { columns: vec![] };
    let m = build_design_matrix(t).unwrap();
    assert_eq!(m.nrow, 0);
    assert_eq!(m.ncol, 1);
    assert_eq!(m.data, Vec::<Cell>::new());
    assert_eq!(names_of(&m), vec!["(Intercept)"]);
}

#[test]
fn column_order_is_table_order() {
    let t = table(vec![
        ("later", numeric(&[1.0])),
        ("earlier", Column::Integer(vec![Some(2)])),
    ]);
    let m = build_design_matrix(t).unwrap();
    assert_eq!(names_of(&m), vec!["(Intercept)", "later", "earlier"]);
}

#[test]
fn text_levels_are_sorted_not_first_seen() {
    let t = table(vec![("x", text(&[Some("c"), Some("a"), Some("b")]))]);
    let m = build_design_matrix(t).unwrap();
    assert_eq!(names_of(&m), vec!["(Intercept)", "xb", "xc"]);
    let one = Cell::Int(1);
    let zero = Cell::Int(0);
    assert_eq!(m.data, vec![one, one, one, zero, zero, one, one, zero, zero]);
}

#[test]
fn row_names_are_one_based_numerals() {
    let t = table(vec![("n", numeric(&[1.0, 2.0, 3.0]))]);
    let m = build_design_matrix(t).unwrap();
    assert_eq!(m.row_names, vec!["1", "2", "3"]);
}
