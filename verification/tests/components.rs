use design_matrix::classify;
use design_matrix::encode_column;
use design_matrix::factorize;
use design_matrix::plan_layout;
use design_matrix::row_names;
use design_matrix::str_lt;
use design_matrix::usize_to_string;
use design_matrix::width;
use design_matrix::Cell;
use design_matrix::Column;
use design_matrix::Kind;
use design_matrix::LayoutEntry;

#[test]
fn factorize_sorts_and_deduplicates() {
    let vals = vec![
        Some("b".to_string()),
        Some("a".to_string()),
        None,
        Some("b".to_string()),
        Some("c".to_string()),
    ];
    let (levels, codes) = factorize(&vals);
    assert_eq!(levels, vec!["a", "b", "c"]);
    assert_eq!(codes, vec![Some(1), Some(0), None, Some(1), Some(2)]);
}

#[test]
fn factorize_all_missing_has_no_levels() {
    let vals: Vec<Option<String>> = vec![None, None];
    let (levels, codes) = factorize(&vals);
    assert_eq!(levels, Vec::<String>::new());
    assert_eq!(codes, vec![None, None]);
}

#[test]
fn string_order_is_lexicographic() {
    assert!(str_lt("a", "b"));
    assert!(!str_lt("b", "a"));
    assert!(!str_lt("a", "a"));
    assert!(str_lt("a", "ab"));
    assert!(!str_lt("ab", "a"));
    assert!(str_lt("ab", "b"));
    assert!(str_lt("", "a"));
    // By code point: capitals before lower case, multi-byte after ASCII.
    assert!(str_lt("Z", "a"));
    assert!(str_lt("z", "é"));
    assert!(!str_lt("é", "z"));
}

#[test]
fn classify_kinds() {
    assert_eq!(classify(&Column::Numeric(vec![])), Some(Kind::Numeric));
    assert_eq!(classify(&Column::Integer(vec![])), Some(Kind::Integer));
    assert_eq!(classify(&Column::Boolean(vec![])), Some(Kind::Boolean));
    assert_eq!(classify(&Column::Categorical(vec![], vec![])), Some(Kind::Categorical));
    assert_eq!(classify(&Column::Text(vec![])), Some(Kind::Categorical));
    assert_eq!(classify(&Column::Unsupported("raw".to_string())), None);
}

#[test]
fn layout_is_contiguous() {
    let levels = vec!["a".to_string(), "b".to_string(), "c".to_string()];
    let columns = vec![
        ("x".to_string(), Column::Categorical(vec![], levels)),
        ("y".to_string(), Column::Numeric(vec![])),
        ("b".to_string(), Column::Boolean(vec![])),
    ];
    let (entries, total) = plan_layout(&columns);
    assert_eq!(total, 5);
    assert_eq!(
        entries,
        vec![
            LayoutEntry { kind: Kind::Intercept, width: 1, start: 0 },
            LayoutEntry { kind: Kind::Categorical, width: 2, start: 1 },
            LayoutEntry { kind: Kind::Numeric, width: 1, start: 3 },
            LayoutEntry { kind: Kind::Boolean, width: 1, start: 4 },
        ]
    );
    for pair in entries.windows(2) {
        assert_eq!(pair[0].start + pair[0].width, pair[1].start);
    }
}

#[test]
fn width_of_each_kind() {
    assert_eq!(width(&Column::Numeric(vec![])), 1);
    assert_eq!(width(&Column::Integer(vec![])), 1);
    assert_eq!(width(&Column::Boolean(vec![])), 1);
    assert_eq!(width(&Column::Categorical(vec![], vec!["a".to_string()])), 0);
    assert_eq!(
        width(&Column::Categorical(vec![], vec!["a".to_string(), "b".to_string()])),
        1
    );
    assert_eq!(width(&Column::Categorical(vec![], vec![])), 0);
}

#[test]
fn encode_categorical_region_is_column_major() {
    let codes = vec![Some(0), Some(2), None];
    let levels = vec!["a".to_string(), "b".to_string(), "c".to_string()];
    let region = encode_column(&Column::Categorical(codes, levels), 3);
    // Sub-column for level "b", then sub-column for level "c".
    assert_eq!(
        region,
        vec![
            Cell::Int(0),
            Cell::Int(0),
            Cell::Missing,
            Cell::Int(0),
            Cell::Int(1),
            Cell::Missing,
        ]
    );
}

#[test]
fn decimal_numerals() {
    assert_eq!(usize_to_string(0), "0");
    assert_eq!(usize_to_string(7), "7");
    assert_eq!(usize_to_string(10), "10");
    assert_eq!(usize_to_string(907), "907");
    assert_eq!(usize_to_string(120013), "120013");
}

#[test]
fn row_names_count_from_one() {
    let names = row_names(12);
    let expected: Vec<String> = (1..=12).map(|r: usize| r.to_string()).collect();
    assert_eq!(names, expected);
}
