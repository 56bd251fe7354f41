//! Column encoding: filling one column's region of the output buffer.
//!
//! Every region is column-major and exactly `width * nrow` cells. Numeric
//! values are copied verbatim, integers pass through exactly (the host
//! widens them to floating point), booleans become indicators, and a
//! categorical column becomes `width` dummy indicator sub-columns, the
//! first level serving as the all-zero reference baseline. A missing
//! observation writes the missing marker across the row's whole region —
//! it is propagated, never imputed.

use vstd::prelude::*;
use vstd::arithmetic::mul::lemma_mul_inequality;
use crate::Cell;
use crate::Column;
use crate::is_resolved;
use crate::spec_col_len;
use crate::levels::text_codes;
use crate::layout::spec_width;

verus! {

/// The cell a categorical observation contributes to dummy sub-column `k`
/// (0-based among the kept, non-reference levels): the indicator `1`
/// exactly when the observation is level `k + 1`, otherwise `0` (in
/// particular for the reference level and, defensively, for an
/// out-of-range code), and the missing marker for a missing observation.
pub open spec fn cat_cell(code: Option<usize>, k: int) -> Cell {
    match code {
        None => Cell::Missing,
        Some(i) => if i == k + 1 {
            Cell::Int(1)
        } else {
            Cell::Int(0)
        },
    }
}

/// One dummy sub-column of a categorical region, in row order.
pub open spec fn sub_col(codes: Seq<Option<usize>>, k: int, nrow: nat) -> Seq<Cell> {
    Seq::new(nrow, |r: int| cat_cell(codes[r], k))
}

/// A whole categorical region: `w` dummy sub-columns, column-major.
pub open spec fn cat_region(codes: Seq<Option<usize>>, w: nat, nrow: nat) -> Seq<Cell>
    decreases w,
{
    if w == 0 {
        Seq::empty()
    } else {
        cat_region(codes, (w - 1) as nat, nrow) + sub_col(codes, w - 1, nrow)
    }
}

/// The region one column fills, column-major, `spec_width * nrow` cells.
pub open spec fn spec_region(c: Column, nrow: nat) -> Seq<Cell> {
    match c {
        Column::Numeric(vals) => Seq::new(
            nrow,
            |r: int|
                match vals@[r] {
                    None => Cell::Missing,
                    Some(b) => Cell::Num(b),
                },
        ),
        Column::Integer(vals) => Seq::new(
            nrow,
            |r: int|
                match vals@[r] {
                    None => Cell::Missing,
                    Some(v) => Cell::Int(v),
                },
        ),
        Column::Boolean(vals) => Seq::new(
            nrow,
            |r: int|
                match vals@[r] {
                    None => Cell::Missing,
                    Some(b) => Cell::Int(if b { 1 } else { 0 }),
                },
        ),
        Column::Categorical(codes, _) => cat_region(codes@, spec_width(c), nrow),
        Column::Text(vals) => cat_region(text_codes(vals.deep_view()), spec_width(c), nrow),
        Column::Unsupported(_) => Seq::empty(),
    }
}

/// A categorical region holds exactly `w * nrow` cells.
pub proof fn lemma_cat_region_len(codes: Seq<Option<usize>>, w: nat, nrow: nat)
    ensures
        cat_region(codes, w, nrow).len() == w as int * nrow as int,
    decreases w,
{
    if w > 0 {
        lemma_cat_region_len(codes, (w - 1) as nat, nrow);
        let w1 = (w - 1) as int;
        assert(cat_region(codes, w, nrow).len() == w1 * nrow + nrow);
        assert(w1 * nrow as int + nrow as int == (w1 + 1) * nrow as int) by (nonlinear_arith);
        assert(w1 + 1 == w as int);
        assert(cat_region(codes, w, nrow).len() == w as int * nrow as int);
    } else {
        assert(cat_region(codes, w, nrow).len() == 0);
        assert(w as int * nrow as int == 0);
    }
}

/// Every region holds exactly `spec_width * nrow` cells.
pub proof fn lemma_region_len(c: Column, nrow: nat)
    ensures
        spec_region(c, nrow).len() == spec_width(c) as int * nrow as int,
{
    match c {
        Column::Categorical(codes, _) => {
            lemma_cat_region_len(codes@, spec_width(c), nrow);
        },
        Column::Text(vals) => {
            lemma_cat_region_len(text_codes(vals.deep_view()), spec_width(c), nrow);
        },
        _ => {},
    }
}

/// Column-major addressing within a categorical region: the cell of row
/// `r` in dummy sub-column `k` sits at offset `k * nrow + r`.
pub proof fn lemma_cat_region_index(codes: Seq<Option<usize>>, w: nat, nrow: nat, k: int, r: int)
    requires
        0 <= k < w,
        0 <= r < nrow,
    ensures
        cat_region(codes, w, nrow)[k * nrow + r] == cat_cell(codes[r], k),
    decreases w,
{
    lemma_cat_region_len(codes, (w - 1) as nat, nrow);
    if k == w - 1 {
        assert(cat_region(codes, w, nrow)[k * nrow + r] == sub_col(codes, k, nrow)[k * nrow + r
            - (w - 1) * nrow]);
        assert(k * nrow + r - (w - 1) * nrow == r);
    } else {
        lemma_cat_region_index(codes, (w - 1) as nat, nrow, k, r);
        assert(k * nrow + r < (w - 1) * nrow) by {
            assert((k + 1) * nrow == k * nrow + nrow) by (nonlinear_arith);
            lemma_mul_inequality(k + 1, w - 1, nrow as int);
        }
    }
}

/// The dummy-region row sum of one categorical observation across `w`
/// dummy sub-columns.
pub open spec fn cat_row_sum(code: Option<usize>, w: nat) -> int
    decreases w,
{
    if w == 0 {
        0
    } else {
        cat_row_sum(code, (w - 1) as nat) + cell_value(cat_cell(code, w - 1))
    }
}

/// The exact integer a cell stands for; zero for a value that is not an
/// exact integer.
pub open spec fn cell_value(c: Cell) -> int {
    match c {
        Cell::Int(v) => v as int,
        Cell::Num(_) => 0,
        Cell::Missing => 0,
    }
}

/// LAW: in a categorical column's dummy region, a present observation
/// yields a row of exact indicator cells (never the missing marker) whose
/// sum is exactly 1 for a kept, in-range level and exactly 0 for the
/// reference level or an out-of-range code; a missing observation yields
/// the missing marker across the row's whole region.
pub proof fn lemma_dummy_row_sum(codes: Seq<Option<usize>>, w: nat, nrow: nat, r: int)
    requires
        0 <= r < nrow,
        codes.len() == nrow,
    ensures
        forall|k: int|
            0 <= k < w ==> #[trigger] cat_region(codes, w, nrow)[k * nrow + r] == cat_cell(
                codes[r],
                k,
            ),
        codes[r] is None ==> forall|k: int|
            0 <= k < w ==> #[trigger] cat_region(codes, w, nrow)[k * nrow + r] == Cell::Missing,
        codes[r] is Some ==> forall|k: int|
            0 <= k < w ==> #[trigger] cat_region(codes, w, nrow)[k * nrow + r] is Int,
        codes[r] matches Some(i) ==> cat_row_sum(codes[r], w) == if 1 <= i <= w {
            1int
        } else {
            0int
        },
{
    assert forall|k: int| 0 <= k < w implies #[trigger] cat_region(codes, w, nrow)[k * nrow + r]
        == cat_cell(codes[r], k) by {
        lemma_cat_region_index(codes, w, nrow, k, r);
    }
    lemma_cat_row_sum(codes[r], w);
}

/// The row sum of the indicators: 1 exactly when the code names a kept,
/// in-range level.
pub proof fn lemma_cat_row_sum(code: Option<usize>, w: nat)
    ensures
        code matches Some(i) ==> cat_row_sum(code, w) == if 1 <= i <= w {
            1int
        } else {
            0int
        },
        code is None ==> cat_row_sum(code, w) == 0,
    decreases w,
{
    if w > 0 {
        lemma_cat_row_sum(code, (w - 1) as nat);
    }
}

/// Column encoder: fills one resolved column's region, column-major.
pub fn encode_column(c: &Column, nrow: usize) -> (out: Vec<Cell>)
    requires
        is_resolved(*c),
        spec_col_len(*c) == nrow,
    ensures
        out@ == spec_region(*c, nrow as nat),
{
    match c {
        Column::Numeric(vals) => {
            let mut out: Vec<Cell> = Vec::new();
            let mut r: usize = 0;
            while r < nrow
                invariant
                    r <= nrow,
                    vals@.len() == nrow,
                    out@ == spec_region(Column::Numeric(*vals), nrow as nat).take(r as int),
                decreases nrow - r,
            {
                let ghost region = spec_region(Column::Numeric(*vals), nrow as nat);
                let cell = match vals[r] {
                    None => Cell::Missing,
                    Some(b) => Cell::Num(b),
                };
                out.push(cell);
                proof {
                    assert(region.take(r + 1) =~= region.take(r as int).push(region[r as int]));
                }
                r = r + 1;
            }
            proof {
                assert(spec_region(Column::Numeric(*vals), nrow as nat).take(nrow as int)
                    =~= spec_region(Column::Numeric(*vals), nrow as nat));
            }
            out
        },
        Column::Integer(vals) => {
            let mut out: Vec<Cell> = Vec::new();
            let mut r: usize = 0;
            while r < nrow
                invariant
                    r <= nrow,
                    vals@.len() == nrow,
                    out@ == spec_region(Column::Integer(*vals), nrow as nat).take(r as int),
                decreases nrow - r,
            {
                let ghost region = spec_region(Column::Integer(*vals), nrow as nat);
                let cell = match vals[r] {
                    None => Cell::Missing,
                    Some(v) => Cell::Int(v),
                };
                out.push(cell);
                proof {
                    assert(region.take(r + 1) =~= region.take(r as int).push(region[r as int]));
                }
                r = r + 1;
            }
            proof {
                assert(spec_region(Column::Integer(*vals), nrow as nat).take(nrow as int)
                    =~= spec_region(Column::Integer(*vals), nrow as nat));
            }
            out
        },
        Column::Boolean(vals) => {
            let mut out: Vec<Cell> = Vec::new();
            let mut r: usize = 0;
            while r < nrow
                invariant
                    r <= nrow,
                    vals@.len() == nrow,
                    out@ == spec_region(Column::Boolean(*vals), nrow as nat).take(r as int),
                decreases nrow - r,
            {
                let ghost region = spec_region(Column::Boolean(*vals), nrow as nat);
                let cell = match vals[r] {
                    None => Cell::Missing,
                    Some(b) => Cell::Int(if b { 1 } else { 0 }),
                };
                out.push(cell);
                proof {
                    assert(region.take(r + 1) =~= region.take(r as int).push(region[r as int]));
                }
                r = r + 1;
            }
            proof {
                assert(spec_region(Column::Boolean(*vals), nrow as nat).take(nrow as int)
                    =~= spec_region(Column::Boolean(*vals), nrow as nat));
            }
            out
        },
        Column::Categorical(codes, levels) => {
            let w = if levels.len() == 0 {
                0
            } else {
                levels.len() - 1
            };
            let out = encode_dummies(codes, w, nrow);
            proof {
                assert(w == spec_width(*c));
            }
            out
        },
        Column::Text(_) => Vec::new(),
        Column::Unsupported(_) => Vec::new(),
    }
}

/// Fills the dummy region of a factorized column: `w` indicator
/// sub-columns over `nrow` rows, column-major.
pub fn encode_dummies(codes: &Vec<Option<usize>>, w: usize, nrow: usize) -> (out: Vec<Cell>)
    requires
        codes@.len() == nrow,
    ensures
        out@ == cat_region(codes@, w as nat, nrow as nat),
{
    let mut out: Vec<Cell> = Vec::new();
    let mut k: usize = 0;
    proof {
        assert(out@ =~= cat_region(codes@, 0, nrow as nat));
    }
    while k < w
        invariant
            k <= w,
            codes@.len() == nrow,
            out@ == cat_region(codes@, k as nat, nrow as nat),
        decreases w - k,
    {
        let mut r: usize = 0;
        proof {
            assert(sub_col(codes@, k as int, nrow as nat).take(0) =~= Seq::<Cell>::empty());
            assert(out@ =~= out@ + sub_col(codes@, k as int, nrow as nat).take(0));
        }
        let ghost base = out@;
        while r < nrow
            invariant
                r <= nrow,
                k < w,
                codes@.len() == nrow,
                base == cat_region(codes@, k as nat, nrow as nat),
                out@ == base + sub_col(codes@, k as int, nrow as nat).take(r as int),
            decreases nrow - r,
        {
            let ghost sc = sub_col(codes@, k as int, nrow as nat);
            let cell = match codes[r] {
                None => Cell::Missing,
                Some(i) => if i == k + 1 {
                    Cell::Int(1)
                } else {
                    Cell::Int(0)
                },
            };
            out.push(cell);
            proof {
                assert(sc.take(r + 1) =~= sc.take(r as int).push(sc[r as int]));
                assert(out@ =~= base + sc.take(r + 1));
            }
            r = r + 1;
        }
        proof {
            assert(sub_col(codes@, k as int, nrow as nat).take(nrow as int) =~= sub_col(
                codes@,
                k as int,
                nrow as nat,
            ));
            assert(out@ == cat_region(codes@, (k + 1) as nat, nrow as nat));
        }
        k = k + 1;
    }
    out
}

} // verus!
