//! The build pipeline: validation, text resolution, layout, encoding,
//! naming, and assembly of the design matrix.
//!
//! Validation walks the columns in table order and reports the first
//! offending column: one whose host type has no encoding rule, or one
//! whose length differs from the table's row count (the length of the
//! first column). An empty table is not an error: it yields the
//! intercept-only matrix with zero rows. On success the matrix is pinned
//! exactly: its buffer is the intercept region followed by every column's
//! region in table order, and its labels follow the same layout.
//!
//! Encoders run sequentially here; because each one fills its own
//! pre-sized region and the regions are disjoint by construction, a host
//! may also fan the per-column encoders out across workers and place each
//! returned region at its planned offset with identical results.

use vstd::prelude::*;
use vstd::arithmetic::mul::lemma_mul_inequality;
use crate::Cell;
use crate::Column;
use crate::Table;
use crate::Matrix;
use crate::BuildError;
use crate::spec_col_len;
use crate::col_len;
use crate::is_resolved;
use crate::levels::factorize;
use crate::levels::levels_of;
use crate::levels::text_codes;
use crate::layout::spec_width;
use crate::layout::sum_widths;
use crate::layout::spec_total_cols;
use crate::layout::cols_of;
use crate::layout::plan_layout;
use crate::encode::spec_region;
use crate::encode::lemma_region_len;
use crate::encode::encode_column;
use crate::names::col_names;
use crate::names::names_concat;
use crate::names::names_spec;
use crate::names::lemma_names_len;
use crate::names::row_names_spec;
use crate::names::row_names;
use crate::names::column_names;

verus! {

/// The table's row count: the length of its first column (zero for an
/// empty table).
pub open spec fn spec_nrow(pairs: Seq<(String, Column)>) -> nat {
    if pairs.len() == 0 {
        0
    } else {
        spec_col_len(pairs[0].1)
    }
}

/// Whether a column is rejected at entry: it has no encoding rule, or its
/// length differs from the table's row count.
pub open spec fn col_error(c: Column, nrow: nat) -> bool {
    c is Unsupported || spec_col_len(c) != nrow
}

/// The index of the first rejected column (`pairs.len()` if none).
pub open spec fn first_bad(pairs: Seq<(String, Column)>, nrow: nat) -> int
    decreases pairs.len(),
{
    if pairs.len() == 0 {
        0
    } else if col_error(pairs[0].1, nrow) {
        0
    } else {
        1 + first_bad(pairs.skip(1), nrow)
    }
}

/// If no column before `j` is rejected, and `j` is the end or a rejected
/// column, then `j` is the first rejected index.
pub proof fn lemma_first_bad_at(pairs: Seq<(String, Column)>, nrow: nat, j: int)
    requires
        0 <= j <= pairs.len(),
        forall|i: int| 0 <= i < j ==> !col_error(#[trigger] pairs[i].1, nrow),
        j < pairs.len() ==> col_error(pairs[j].1, nrow),
    ensures
        first_bad(pairs, nrow) == j,
    decreases pairs.len(),
{
    if pairs.len() == 0 {
    } else if j == 0 {
    } else {
        let tail = pairs.skip(1);
        assert forall|i: int| 0 <= i < j - 1 implies !col_error(#[trigger] tail[i].1, nrow) by {
            assert(tail[i] == pairs[i + 1]);
        }
        assert(j - 1 < tail.len() ==> col_error(tail[j - 1].1, nrow)) by {
            if j - 1 < tail.len() {
                assert(tail[j - 1] == pairs[j]);
            }
        }
        lemma_first_bad_at(tail, nrow, j - 1);
    }
}

/// What the error reported for a rejected column must say about it.
pub open spec fn error_matches(pair: (String, Column), nrow: nat, e: BuildError) -> bool {
    match pair.1 {
        Column::Unsupported(k) => e matches BuildError::UnsupportedColumnType { name, kind }
            && name@ == pair.0@ && kind@ == k@,
        _ => e matches BuildError::ShapeMismatch { name, expected, actual } && name@ == pair.0@
            && expected == nrow && actual == spec_col_len(pair.1),
    }
}

/// Two errors that say the same thing.
pub open spec fn errors_agree(e1: BuildError, e2: BuildError) -> bool {
    match (e1, e2) {
        (
            BuildError::UnsupportedColumnType { name: n1, kind: k1 },
            BuildError::UnsupportedColumnType { name: n2, kind: k2 },
        ) => n1@ == n2@ && k1@ == k2@,
        (
            BuildError::ShapeMismatch { name: n1, expected: x1, actual: a1 },
            BuildError::ShapeMismatch { name: n2, expected: x2, actual: a2 },
        ) => n1@ == n2@ && x1 == x2 && a1 == a2,
        _ => false,
    }
}

/// The column regions of the buffer, concatenated in table order.
pub open spec fn regions_concat(cols: Seq<Column>, nrow: nat) -> Seq<Cell>
    decreases cols.len(),
{
    if cols.len() == 0 {
        Seq::empty()
    } else {
        regions_concat(cols.drop_last(), nrow) + spec_region(cols.last(), nrow)
    }
}

/// The whole output buffer: the intercept region of ones, then every
/// column's region, column-major.
pub open spec fn buffer_spec(cols: Seq<Column>, nrow: nat) -> Seq<Cell> {
    Seq::new(nrow, |r: int| Cell::Int(1)) + regions_concat(cols, nrow)
}

/// The concatenated regions hold one cell per row and output column.
pub proof fn lemma_regions_len(cols: Seq<Column>, nrow: nat)
    ensures
        regions_concat(cols, nrow).len() == sum_widths(cols) as int * nrow as int,
    decreases cols.len(),
{
    if cols.len() > 0 {
        lemma_regions_len(cols.drop_last(), nrow);
        lemma_region_len(cols.last(), nrow);
        let s1 = sum_widths(cols.drop_last()) as int;
        let w = spec_width(cols.last()) as int;
        let n = nrow as int;
        assert(regions_concat(cols, nrow).len() == s1 * n + w * n);
        assert(s1 * n + w * n == (s1 + w) * n) by (nonlinear_arith);
        assert(sum_widths(cols) as int == s1 + w);
        assert(regions_concat(cols, nrow).len() == sum_widths(cols) as int * n);
    } else {
        assert(regions_concat(cols, nrow).len() == 0);
        assert(sum_widths(cols) == 0);
        assert(0int * nrow as int == 0) by (nonlinear_arith);
        assert(sum_widths(cols) as int * nrow as int == 0);
    }
}

/// The buffer holds exactly `total columns * nrow` cells.
pub proof fn lemma_buffer_len(cols: Seq<Column>, nrow: nat)
    ensures
        buffer_spec(cols, nrow).len() == spec_total_cols(cols) as int * nrow as int,
{
    lemma_regions_len(cols, nrow);
    let s = sum_widths(cols) as int;
    let n = nrow as int;
    assert(buffer_spec(cols, nrow).len() == n + s * n);
    assert(n + s * n == (1 + s) * n) by (nonlinear_arith);
    assert(spec_total_cols(cols) as int == 1 + s);
    assert(buffer_spec(cols, nrow).len() == spec_total_cols(cols) as int * n);
}

/// The cell the layout puts at row `r`, output column `c`: the intercept
/// for column zero, otherwise the cell of the block that covers `c`.
pub open spec fn cell_at(cols: Seq<Column>, nrow: nat, r: int, c: int) -> Cell
    decreases cols.len(),
{
    if cols.len() == 0 {
        Cell::Int(1)
    } else if c >= spec_total_cols(cols.drop_last()) {
        spec_region(cols.last(), nrow)[(c - spec_total_cols(cols.drop_last())) * nrow + r]
    } else {
        cell_at(cols.drop_last(), nrow, r, c)
    }
}

/// LAW (column-major addressing): slot `(r, c)` of the buffer sits at the
/// fixed offset `c * nrow + r`, and holds exactly the cell that row `r` of
/// the block covering output column `c` prescribes — however the regions
/// were filled.
pub proof fn lemma_column_major(cols: Seq<Column>, nrow: nat, r: int, c: int)
    requires
        0 <= r < nrow,
        0 <= c < spec_total_cols(cols),
    ensures
        buffer_spec(cols, nrow)[c * nrow + r] == cell_at(cols, nrow, r, c),
    decreases cols.len(),
{
    let n = nrow as int;
    if cols.len() == 0 {
        assert(c == 0);
        assert(buffer_spec(cols, nrow)[r] == Cell::Int(1));
    } else {
        let pre = cols.drop_last();
        let last = cols.last();
        let tc = spec_total_cols(pre) as int;
        let w = spec_width(last) as int;
        lemma_buffer_len(pre, nrow);
        lemma_region_len(last, nrow);
        assert(buffer_spec(cols, nrow) =~= buffer_spec(pre, nrow) + spec_region(last, nrow));
        assert(spec_total_cols(cols) as int == tc + w);
        if c >= tc {
            let d = c - tc;
            assert(tc * n <= c * n) by {
                lemma_mul_inequality(tc, c, n);
            }
            assert((c - tc) * n == c * n - tc * n) by (nonlinear_arith);
            assert(d * n == c * n - tc * n);
            assert(d * n + r < w * n) by {
                lemma_mul_inequality(d + 1, w, n);
                assert((d + 1) * n == d * n + n) by (nonlinear_arith);
            }
            assert(buffer_spec(cols, nrow)[c * n + r] == spec_region(last, nrow)[d * n + r]);
        } else {
            lemma_column_major(pre, nrow, r, c);
            assert(c * n + r < tc * n) by {
                lemma_mul_inequality(c + 1, tc, n);
                assert((c + 1) * n == c * n + n) by (nonlinear_arith);
            }
            assert(buffer_spec(cols, nrow)[c * n + r] == buffer_spec(pre, nrow)[c * n + r]);
        }
    }
}

/// How a resolved column relates to the input column it came from: a text
/// column becomes the categorical column of its factorization; every
/// other column is unchanged.
pub open spec fn resolved_version(o: Column, r: Column) -> bool {
    match o {
        Column::Text(vals) => r matches Column::Categorical(codes, levels) && codes@
            == text_codes(vals.deep_view()) && levels.deep_view() == levels_of(vals.deep_view()),
        _ => r == o,
    }
}

/// Resolution preserves everything the build depends on: row count,
/// width, region, and names.
pub proof fn lemma_resolved_version(o: Column, r: Column, nrow: nat)
    requires
        resolved_version(o, r),
    ensures
        spec_col_len(r) == spec_col_len(o),
        spec_width(r) == spec_width(o),
        spec_region(r, nrow) == spec_region(o, nrow),
        forall|name: Seq<char>| #[trigger] col_names(name, r) == col_names(name, o),
        !(o is Unsupported) ==> is_resolved(r),
{
    match o {
        Column::Text(vals) => {
            let dv = vals.deep_view();
            assert(spec_col_len(r) == text_codes(dv).len());
            assert(text_codes(dv).len() == dv.len());
            assert(dv.len() == vals@.len());
            assert(spec_width(r) == spec_width(o));
            assert(spec_region(r, nrow) == spec_region(o, nrow));
            assert forall|name: Seq<char>| #[trigger] col_names(name, r) == col_names(
                name,
                o,
            ) by {
                assert(col_names(name, r) =~= col_names(name, o));
            }
        },
        _ => {},
    }
}

/// Resolution of a whole table preserves the summed widths, the buffer,
/// and the names.
pub proof fn lemma_resolved_table(
    a: Seq<(String, Column)>,
    b: Seq<(String, Column)>,
    nrow: nat,
)
    requires
        a.len() == b.len(),
        forall|j: int| 0 <= j < a.len() ==> (#[trigger] b[j]).0 == a[j].0 && resolved_version(
            a[j].1,
            b[j].1,
        ),
    ensures
        sum_widths(cols_of(b)) == sum_widths(cols_of(a)),
        regions_concat(cols_of(b), nrow) == regions_concat(cols_of(a), nrow),
        names_concat(b) == names_concat(a),
    decreases a.len(),
{
    if a.len() > 0 {
        let a1 = a.drop_last();
        let b1 = b.drop_last();
        assert forall|j: int| 0 <= j < a1.len() implies (#[trigger] b1[j]).0 == a1[j].0
            && resolved_version(a1[j].1, b1[j].1) by {
            assert(b1[j] == b[j]);
            assert(a1[j] == a[j]);
        }
        lemma_resolved_table(a1, b1, nrow);
        assert(b[a.len() - 1].0 == a[a.len() - 1].0);
        lemma_resolved_version(a.last().1, b.last().1, nrow);
        assert(cols_of(a1) =~= cols_of(a).drop_last());
        assert(cols_of(b1) =~= cols_of(b).drop_last());
        assert(cols_of(a).last() == a.last().1);
        assert(cols_of(b).last() == b.last().1);
        assert(names_concat(b) == names_concat(a)) by {
            assert(col_names(b.last().0@, b.last().1) == col_names(a.last().0@, a.last().1));
        }
    }
}

/// The first rejected index lies between zero and the column count.
pub proof fn lemma_first_bad_bounds(pairs: Seq<(String, Column)>, nrow: nat)
    ensures
        0 <= first_bad(pairs, nrow) <= pairs.len(),
    decreases pairs.len(),
{
    if pairs.len() > 0 && !col_error(pairs[0].1, nrow) {
        lemma_first_bad_bounds(pairs.skip(1), nrow);
    }
}

/// What a successful build returns: the dimensions, the buffer, and the
/// labels, all pinned by the input table.
pub open spec fn build_ok(pairs: Seq<(String, Column)>, m: Matrix) -> bool {
    &&& m.nrow == spec_nrow(pairs)
    &&& m.ncol == spec_total_cols(cols_of(pairs))
    &&& m.data@ == buffer_spec(cols_of(pairs), spec_nrow(pairs))
    &&& m.column_names.deep_view() == names_spec(pairs)
    &&& m.row_names.deep_view() == row_names_spec(spec_nrow(pairs))
    &&& m.wf()
}

/// The build's whole contract: a success is pinned by `build_ok` and
/// happens exactly when no column is rejected; a failure reports the
/// first rejected column.
pub open spec fn build_post(
    pairs: Seq<(String, Column)>,
    res: Result<Matrix, BuildError>,
) -> bool {
    match res {
        Ok(m) => {
            &&& forall|j: int| 0 <= j < pairs.len() ==> !col_error(
                (#[trigger] pairs[j]).1,
                spec_nrow(pairs),
            )
            &&& build_ok(pairs, m)
        },
        Err(e) => {
            let j = first_bad(pairs, spec_nrow(pairs));
            &&& j < pairs.len()
            &&& col_error(pairs[j].1, spec_nrow(pairs))
            &&& forall|i: int| 0 <= i < j ==> !col_error((#[trigger] pairs[i]).1, spec_nrow(pairs))
            &&& error_matches(pairs[j], spec_nrow(pairs), e)
        },
    }
}

/// Entry validation: the first column with no encoding rule or with the
/// wrong length, as an error; `None` when every column passes.
fn check_columns(columns: &Vec<(String, Column)>, nrow: usize) -> (res: Option<BuildError>)
    ensures
        res is None ==> forall|j: int|
            0 <= j < columns@.len() ==> !col_error((#[trigger] columns@[j]).1, nrow as nat),
        res matches Some(e) ==> {
            let j = first_bad(columns@, nrow as nat);
            &&& j < columns@.len()
            &&& col_error(columns@[j].1, nrow as nat)
            &&& forall|i: int| 0 <= i < j ==> !col_error((#[trigger] columns@[i]).1, nrow as nat)
            &&& error_matches(columns@[j], nrow as nat, e)
        },
{
    let mut j: usize = 0;
    while j < columns.len()
        invariant
            j <= columns@.len(),
            forall|i: int| 0 <= i < j ==> !col_error((#[trigger] columns@[i]).1, nrow as nat),
        decreases columns@.len() - j,
    {
        match &columns[j].1 {
            Column::Unsupported(k) => {
                proof {
                    lemma_first_bad_at(columns@, nrow as nat, j as int);
                }
                return Some(
                    BuildError::UnsupportedColumnType {
                        name: columns[j].0.clone(),
                        kind: k.clone(),
                    },
                );
            },
            _ => {
                let l = col_len(&columns[j].1);
                if l != nrow {
                    proof {
                        lemma_first_bad_at(columns@, nrow as nat, j as int);
                    }
                    return Some(
                        BuildError::ShapeMismatch {
                            name: columns[j].0.clone(),
                            expected: nrow,
                            actual: l,
                        },
                    );
                }
            },
        }
        j = j + 1;
    }
    None
}

/// Resolution pass: factorizes every text column in place of itself;
/// every other column passes through unchanged.
pub fn resolve_columns(columns: Vec<(String, Column)>) -> (out: Vec<(String, Column)>)
    ensures
        out@.len() == columns@.len(),
        forall|j: int| 0 <= j < columns@.len() ==> (#[trigger] out@[j]).0 == columns@[j].0
            && resolved_version(columns@[j].1, out@[j].1),
{
    let ghost orig = columns@;
    let mut rest = columns;
    let mut out: Vec<(String, Column)> = Vec::new();
    proof {
        assert(rest@ =~= orig.skip(0));
    }
    while rest.len() > 0
        invariant
            out@.len() <= orig.len(),
            rest@ == orig.skip(out@.len() as int),
            forall|j: int| 0 <= j < out@.len() ==> (#[trigger] out@[j]).0 == orig[j].0
                && resolved_version(orig[j].1, out@[j].1),
        decreases rest@.len(),
    {
        let ghost i = out@.len() as int;
        let pair = rest.remove(0);
        proof {
            assert(orig.skip(i)[0] == orig[i]);
            assert(pair == orig[i]);
            assert(rest@ =~= orig.skip(i + 1));
        }
        let (name, col) = pair;
        match col {
            Column::Text(vals) => {
                let (lv, codes) = factorize(&vals);
                out.push((name, Column::Categorical(codes, lv)));
            },
            other => {
                out.push((name, other));
            },
        }
        proof {
            assert(out@[i].0 == orig[i].0);
            assert(resolved_version(orig[i].1, out@[i].1));
        }
    }
    proof {
        assert(orig.skip(out@.len() as int).len() == 0);
    }
    out
}

/// Builds the design matrix of a table: an intercept column of ones, then
/// one block per column in table order — numeric, integer and boolean
/// columns as single columns, categorical and text columns dummy-encoded
/// with their first level dropped as the reference. Missing observations
/// propagate as the missing marker. Fails on the first column with no
/// encoding rule or with a length other than the table's row count; an
/// empty table yields the intercept-only matrix with zero rows.
pub fn build_design_matrix(table: Table) -> (res: Result<Matrix, BuildError>)
    requires
        spec_total_cols(cols_of(table.columns@)) <= usize::MAX,
    ensures
        build_post(table.columns@, res),
{
    let columns = table.columns;
    let ghost pairs = columns@;
    let nrow: usize = if columns.len() == 0 {
        0
    } else {
        col_len(&columns[0].1)
    };
    proof {
        assert(nrow as nat == spec_nrow(pairs));
    }
    match check_columns(&columns, nrow) {
        Some(e) => {
            return Err(e);
        },
        None => {},
    }
    let resolved = resolve_columns(columns);
    let ghost rcols = cols_of(resolved@);
    proof {
        lemma_resolved_table(pairs, resolved@, nrow as nat);
        assert forall|j: int| 0 <= j < resolved@.len() implies is_resolved(
            (#[trigger] resolved@[j]).1,
        ) && spec_col_len(resolved@[j].1) == nrow as nat && spec_region(
            resolved@[j].1,
            nrow as nat,
        ) == spec_region(pairs[j].1, nrow as nat) by {
            lemma_resolved_version(pairs[j].1, resolved@[j].1, nrow as nat);
            assert(!col_error(pairs[j].1, nrow as nat));
        }
    }
    let ncol = plan_layout(&resolved).1;
    let names = column_names(&resolved);
    let rnames = row_names(nrow);
    let mut data: Vec<Cell> = Vec::new();
    let mut r: usize = 0;
    while r < nrow
        invariant
            r <= nrow,
            data@.len() == r,
            forall|i: int| 0 <= i < r ==> data@[i] == Cell::Int(1),
        decreases nrow - r,
    {
        data.push(Cell::Int(1));
        r = r + 1;
    }
    proof {
        assert(data@ =~= Seq::new(nrow as nat, |x: int| Cell::Int(1)));
        assert(rcols.take(0) =~= Seq::<Column>::empty());
        assert(data@ =~= buffer_spec(rcols.take(0), nrow as nat));
    }
    let mut j: usize = 0;
    while j < resolved.len()
        invariant
            j <= resolved@.len(),
            nrow as nat == spec_nrow(pairs),
            rcols == cols_of(resolved@),
            rcols.len() == resolved@.len(),
            forall|k: int| 0 <= k < resolved@.len() ==> is_resolved((#[trigger] resolved@[k]).1)
                && spec_col_len(resolved@[k].1) == nrow as nat,
            data@ == buffer_spec(rcols.take(j as int), nrow as nat),
        decreases resolved@.len() - j,
    {
        let mut region = encode_column(&resolved[j].1, nrow);
        data.append(&mut region);
        proof {
            assert(rcols.take(j + 1).drop_last() =~= rcols.take(j as int));
            assert(rcols.take(j + 1).last() == rcols[j as int]);
            assert(rcols[j as int] == resolved@[j as int].1);
            assert(regions_concat(rcols.take(j + 1), nrow as nat) == regions_concat(
                rcols.take(j as int),
                nrow as nat,
            ) + spec_region(rcols[j as int], nrow as nat));
            assert(data@ =~= buffer_spec(rcols.take(j + 1), nrow as nat));
        }
        j = j + 1;
    }
    proof {
        assert(rcols.take(rcols.len() as int) =~= rcols);
    }
    let m = Matrix { nrow, ncol, data, column_names: names, row_names: rnames };
    proof {
        let n = nrow as nat;
        let acols = cols_of(pairs);
        assert(buffer_spec(rcols, n) == buffer_spec(acols, n)) by {
            assert(regions_concat(rcols, n) == regions_concat(acols, n));
            assert(buffer_spec(rcols, n) =~= buffer_spec(acols, n));
        }
        assert(names_spec(resolved@) == names_spec(pairs)) by {
            assert(names_spec(resolved@) =~= names_spec(pairs));
        }
        assert(m.ncol == spec_total_cols(acols));
        lemma_buffer_len(acols, n);
        let t = spec_total_cols(acols) as int;
        let ni = nrow as int;
        assert(t * ni == ni * t) by (nonlinear_arith);
        assert(m.data@.len() == m.nrow * m.ncol);
        lemma_names_len(pairs);
        assert(m.column_names@.len() == m.column_names.deep_view().len());
        assert(m.row_names@.len() == m.row_names.deep_view().len());
        assert(m.wf());
        assert(build_ok(pairs, m));
    }
    Ok(m)
}

/// LAW (column accounting): a built matrix has one output column for the
/// intercept plus the width of every input column.
pub proof fn lemma_total_columns(pairs: Seq<(String, Column)>, m: Matrix)
    requires
        build_ok(pairs, m),
    ensures
        m.ncol == 1 + sum_widths(cols_of(pairs)),
{
}

/// LAW (column-major layout of a built matrix): slot `(r, c)` sits at the
/// fixed offset `c * nrow + r` of the buffer, whatever order the regions
/// were filled in.
pub proof fn lemma_matrix_column_major(pairs: Seq<(String, Column)>, m: Matrix, r: int, c: int)
    requires
        build_ok(pairs, m),
        0 <= r < m.nrow,
        0 <= c < m.ncol,
    ensures
        m.data@[c * m.nrow + r] == cell_at(cols_of(pairs), m.nrow as nat, r, c),
{
    lemma_column_major(cols_of(pairs), m.nrow as nat, r, c);
}

/// LAW (idempotence): the build is a function of the table alone — two
/// results that both satisfy the build's contract for one table agree:
/// both succeed with identical buffers, dimensions and labels, or both
/// fail with errors that say the same thing.
pub proof fn lemma_build_deterministic(
    pairs: Seq<(String, Column)>,
    r1: Result<Matrix, BuildError>,
    r2: Result<Matrix, BuildError>,
)
    requires
        build_post(pairs, r1),
        build_post(pairs, r2),
    ensures
        r1 is Ok <==> r2 is Ok,
        r1 matches Ok(m1) ==> r2 matches Ok(m2) ==> {
            &&& m1.nrow == m2.nrow
            &&& m1.ncol == m2.ncol
            &&& m1.data@ == m2.data@
            &&& m1.column_names.deep_view() == m2.column_names.deep_view()
            &&& m1.row_names.deep_view() == m2.row_names.deep_view()
        },
        r1 matches Err(e1) ==> r2 matches Err(e2) ==> errors_agree(e1, e2),
{
    let nrow = spec_nrow(pairs);
    lemma_first_bad_bounds(pairs, nrow);
    if r1 is Ok && r2 is Err {
        let j = first_bad(pairs, nrow);
        assert(!col_error(pairs[j].1, nrow));
        assert(false);
    }
    if r1 is Err && r2 is Ok {
        let j = first_bad(pairs, nrow);
        assert(!col_error(pairs[j].1, nrow));
        assert(false);
    }
    match (r1, r2) {
        (Ok(m1), Ok(m2)) => {
            assert(build_ok(pairs, m1));
            assert(build_ok(pairs, m2));
        },
        (Err(e1), Err(e2)) => {
            let j = first_bad(pairs, nrow);
            assert(error_matches(pairs[j], nrow, e1));
            assert(error_matches(pairs[j], nrow, e2));
            assert(errors_agree(e1, e2));
        },
        _ => {},
    }
}

} // verus!
