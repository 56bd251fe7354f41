//! Design-matrix construction.
//!
//! The library turns a named table of typed columns (numeric, integer,
//! boolean, categorical, text) into a single dense numeric matrix suitable
//! for statistical model fitting, together with its row and column labels.
//! The matrix is column-major: an intercept column of ones comes first, then
//! one block per input column in table order. Numeric, integer and boolean
//! columns contribute one output column each; a categorical column with `n`
//! levels contributes `n - 1` dummy-indicator columns, the first level being
//! the dropped reference level.
//!
//! Floating-point payloads are carried opaquely as IEEE 754 bit patterns so
//! that every rule of the encoding is stated and proved over plain values;
//! the host converts to and from its own floating-point representation at
//! the boundary.

use vstd::prelude::*;

mod order;
mod levels;
mod layout;
mod encode;
mod names;
mod builder;

pub use order::lex_lt;
pub use order::lemma_lex_irrefl;
pub use order::lemma_lex_connex;
pub use order::lemma_lex_trans;
pub use order::str_lt;
pub use levels::lex_sorted;
pub use levels::insert_sorted;
pub use levels::levels_of;
pub use levels::find_idx;
pub use levels::text_codes;
pub use levels::lemma_insert_sorted;
pub use levels::lemma_levels_of;
pub use levels::lemma_find_idx_at;
pub use levels::lemma_insert_sorted_at;
pub use levels::factorize;
pub use layout::spec_width;
pub use layout::sum_widths;
pub use layout::spec_total_cols;
pub use layout::cols_of;
pub use layout::spec_kind;
pub use layout::LayoutEntry;
pub use layout::layout_spec;
pub use layout::lemma_sum_widths_step;
pub use layout::lemma_sum_widths_prefix;
pub use layout::lemma_layout_contiguous;
pub use layout::width;
pub use layout::plan_layout;
pub use encode::cat_cell;
pub use encode::sub_col;
pub use encode::cat_region;
pub use encode::spec_region;
pub use encode::lemma_cat_region_len;
pub use encode::lemma_region_len;
pub use encode::lemma_cat_region_index;
pub use encode::cat_row_sum;
pub use encode::cell_value;
pub use encode::lemma_dummy_row_sum;
pub use encode::lemma_cat_row_sum;
pub use encode::encode_column;
pub use encode::encode_dummies;
pub use names::digit_char;
pub use names::dec_str;
pub use names::usize_to_string;
pub use names::row_names_spec;
pub use names::row_names;
pub use names::col_names;
pub use names::names_concat;
pub use names::names_spec;
pub use names::lemma_names_len;
pub use names::column_names;
pub use builder::spec_nrow;
pub use builder::col_error;
pub use builder::first_bad;
pub use builder::lemma_first_bad_at;
pub use builder::error_matches;
pub use builder::errors_agree;
pub use builder::regions_concat;
pub use builder::buffer_spec;
pub use builder::lemma_regions_len;
pub use builder::lemma_buffer_len;
pub use builder::cell_at;
pub use builder::lemma_column_major;
pub use builder::resolved_version;
pub use builder::lemma_resolved_version;
pub use builder::lemma_resolved_table;
pub use builder::build_ok;
pub use builder::build_post;
pub use builder::resolve_columns;
pub use builder::build_design_matrix;
pub use builder::lemma_total_columns;
pub use builder::lemma_matrix_column_major;
pub use builder::lemma_build_deterministic;

verus! {

/// One cell of the output matrix.
///
/// `Int` holds an exact small integer (the intercept, a dummy indicator, or
/// a widened integer observation); `Num` holds a floating-point observation
/// as its IEEE 754 bit pattern, copied verbatim from the input; `Missing` is
/// the distinguished missing-value marker, propagated and never imputed.
/// The host maps `Int(v)` to `v as f64`, `Num(b)` to `f64::from_bits(b)`,
/// and `Missing` to its missing-value sentinel.
#[derive(Clone, Copy, Debug, PartialEq, Eq, Structural)]
pub enum Cell {
    Missing,
    Int(i64),
    Num(u64),
}

/// An input column: a tagged sequence of observations, all of one kind.
///
/// * `Numeric`: floating-point observations as bit patterns; `None` is a
///   missing observation.
/// * `Integer`: integer observations; `None` is missing.
/// * `Boolean`: tri-state observations; `None` is missing.
/// * `Categorical`: an already-factorized column: a 0-based level index per
///   row (`None` for missing) and the ordered level labels. The level order
///   is authoritative as given; the first level is the reference level.
/// * `Text`: raw strings (`None` for missing), factorized internally into a
///   `Categorical` column whose levels are the distinct values in sorted
///   order.
/// * `Unsupported`: a column of a host type that has no encoding rule; the
///   carried string names that type. Classification of such a column fails
///   and aborts the whole build.
pub enum Column {
    Numeric(Vec<Option<u64>>),
    Integer(Vec<Option<i64>>),
    Boolean(Vec<Option<bool>>),
    Categorical(Vec<Option<usize>>, Vec<String>),
    Text(Vec<Option<String>>),
    Unsupported(String),
}

/// The encoding kind of an output block, as determined by the classifier.
/// `Intercept` is synthetic: it labels the leading column of ones and never
/// arises from an input column.
#[derive(Clone, Copy, Debug, PartialEq, Eq, Structural)]
pub enum Kind {
    Intercept,
    Numeric,
    Integer,
    Boolean,
    Categorical,
}

/// A table: named columns in insertion order. The order is canonical for
/// the output; columns are never re-sorted. All columns must share one row
/// count, which is checked at the entry of the build.
pub struct Table {
    pub columns: Vec<(String, Column)>,
}

/// The result of a build: a flat column-major buffer (`nrow * ncol` cells,
/// slot `(r, c)` at index `c * nrow + r`), the dimensions, and the labels.
pub struct Matrix {
    pub nrow: usize,
    pub ncol: usize,
    pub data: Vec<Cell>,
    pub column_names: Vec<String>,
    pub row_names: Vec<String>,
}

impl Matrix {
    /// Well-formedness: the buffer and the label sequences are sized exactly
    /// by the dimensions.
    pub open spec fn wf(self) -> bool {
        &&& self.data@.len() == self.nrow * self.ncol
        &&& self.column_names@.len() == self.ncol
        &&& self.row_names@.len() == self.nrow
    }
}

/// A fatal build error. No partial matrix is ever returned.
///
/// An empty table is not an error: it yields the intercept-only matrix with
/// zero rows.
#[derive(Debug)]
pub enum BuildError {
    /// A column's host type has no encoding rule: the column's name and the
    /// name of the offending type.
    UnsupportedColumnType { name: String, kind: String },
    /// A column's length differs from the table's row count: the column's
    /// name, the expected row count, and the actual length.
    ShapeMismatch { name: String, expected: usize, actual: usize },
}

/// The number of rows a column holds. An `Unsupported` column carries no
/// observations and counts as empty.
pub open spec fn spec_col_len(c: Column) -> nat {
    match c {
        Column::Numeric(vals) => vals@.len(),
        Column::Integer(vals) => vals@.len(),
        Column::Boolean(vals) => vals@.len(),
        Column::Categorical(codes, _) => codes@.len(),
        Column::Text(vals) => vals@.len(),
        Column::Unsupported(_) => 0,
    }
}

/// The classifier's verdict on a column: its encoding kind, or `None` for a
/// column that has no encoding rule. A text column classifies as
/// categorical, since it is factorized before encoding proceeds.
pub open spec fn spec_classify(c: Column) -> Option<Kind> {
    match c {
        Column::Numeric(_) => Some(Kind::Numeric),
        Column::Integer(_) => Some(Kind::Integer),
        Column::Boolean(_) => Some(Kind::Boolean),
        Column::Categorical(_, _) => Some(Kind::Categorical),
        Column::Text(_) => Some(Kind::Categorical),
        Column::Unsupported(_) => None,
    }
}

/// A column the encoder accepts directly: classified, and already
/// factorized if it started as text.
pub open spec fn is_resolved(c: Column) -> bool {
    match c {
        Column::Text(_) => false,
        Column::Unsupported(_) => false,
        _ => true,
    }
}

/// Column classifier: determines the encoding kind of one input column, or
/// `None` for a column no rule covers. Pure inspection; text counts as
/// categorical because factorization precedes encoding.
pub fn classify(c: &Column) -> (k: Option<Kind>)
    ensures
        k == spec_classify(*c),
{
    match c {
        Column::Numeric(_) => Some(Kind::Numeric),
        Column::Integer(_) => Some(Kind::Integer),
        Column::Boolean(_) => Some(Kind::Boolean),
        Column::Categorical(_, _) => Some(Kind::Categorical),
        Column::Text(_) => Some(Kind::Categorical),
        Column::Unsupported(_) => None,
    }
}

/// The number of rows a column holds, as the host sees it.
pub fn col_len(c: &Column) -> (n: usize)
    ensures
        n == spec_col_len(*c),
{
    match c {
        Column::Numeric(vals) => vals.len(),
        Column::Integer(vals) => vals.len(),
        Column::Boolean(vals) => vals.len(),
        Column::Categorical(codes, _) => codes.len(),
        Column::Text(vals) => vals.len(),
        Column::Unsupported(_) => 0,
    }
}

} // verus!
