//! Output layout planning.
//!
//! The planner turns the classified columns, in table order, into the
//! ordered list of output blocks: the intercept first, then one block per
//! input column. Offsets are contiguous and non-overlapping, and the sum of
//! the widths is the total output column count — the buffer is allocated
//! exactly once from that total before any encoder runs.

use vstd::prelude::*;
use crate::Column;
use crate::Kind;
use crate::classify;
use crate::is_resolved;
use crate::levels::levels_of;

verus! {

/// The number of output columns an input column contributes: one for a
/// numeric, integer or boolean column; the level count less the dropped
/// reference level for a categorical or text column (zero when there are
/// no levels at all, as for an all-missing text column).
pub open spec fn spec_width(c: Column) -> nat {
    match c {
        Column::Numeric(_) => 1,
        Column::Integer(_) => 1,
        Column::Boolean(_) => 1,
        Column::Categorical(_, levels) => if levels@.len() == 0 {
            0
        } else {
            (levels@.len() - 1) as nat
        },
        Column::Text(vals) => {
            let n = levels_of(vals.deep_view()).len();
            if n == 0 {
                0
            } else {
                (n - 1) as nat
            }
        },
        Column::Unsupported(_) => 0,
    }
}

/// The widths of a sequence of columns, summed.
pub open spec fn sum_widths(cols: Seq<Column>) -> nat
    decreases cols.len(),
{
    if cols.len() == 0 {
        0
    } else {
        sum_widths(cols.drop_last()) + spec_width(cols.last())
    }
}

/// Total output column count: the intercept plus one block per column.
pub open spec fn spec_total_cols(cols: Seq<Column>) -> nat {
    1 + sum_widths(cols)
}

/// The columns of a named-column sequence, in order.
pub open spec fn cols_of(pairs: Seq<(String, Column)>) -> Seq<Column> {
    pairs.map_values(|p: (String, Column)| p.1)
}

/// The encoding kind of a resolved column's output block.
pub open spec fn spec_kind(c: Column) -> Kind {
    match c {
        Column::Numeric(_) => Kind::Numeric,
        Column::Integer(_) => Kind::Integer,
        Column::Boolean(_) => Kind::Boolean,
        Column::Categorical(_, _) => Kind::Categorical,
        Column::Text(_) => Kind::Categorical,
        Column::Unsupported(_) => arbitrary(),
    }
}

/// One block of the output: its encoding kind, its width in output
/// columns, and the index of its first output column.
#[derive(Clone, Copy, Debug, PartialEq, Eq, Structural)]
pub struct LayoutEntry {
    pub kind: Kind,
    pub width: usize,
    pub start: usize,
}

/// The layout of the output: the intercept block at offset zero, then one
/// block per input column, each starting where the previous block ends.
pub open spec fn layout_spec(cols: Seq<Column>) -> Seq<LayoutEntry> {
    Seq::new(
        cols.len() + 1,
        |j: int|
            if j == 0 {
                LayoutEntry { kind: Kind::Intercept, width: 1, start: 0 }
            } else {
                LayoutEntry {
                    kind: spec_kind(cols[j - 1]),
                    width: spec_width(cols[j - 1]) as usize,
                    start: spec_total_cols(cols.take(j - 1)) as usize,
                }
            },
    )
}

/// Summing widths column by column: one more column adds its width.
pub proof fn lemma_sum_widths_step(cols: Seq<Column>, i: int)
    requires
        0 <= i < cols.len(),
    ensures
        sum_widths(cols.take(i + 1)) == sum_widths(cols.take(i)) + spec_width(cols[i]),
{
    assert(cols.take(i + 1).drop_last() =~= cols.take(i));
    assert(cols.take(i + 1).last() == cols[i]);
}

/// A prefix of the columns never contributes more width than the whole.
pub proof fn lemma_sum_widths_prefix(cols: Seq<Column>, i: int)
    requires
        0 <= i <= cols.len(),
    ensures
        sum_widths(cols.take(i)) <= sum_widths(cols),
    decreases cols.len() - i,
{
    if i == cols.len() {
        assert(cols.take(i) =~= cols);
    } else {
        lemma_sum_widths_step(cols, i);
        lemma_sum_widths_prefix(cols, i + 1);
    }
}

/// LAW (contiguity): each block of the layout starts exactly where the
/// previous block ends, so the regions cover the buffer without overlap
/// or gap.
pub proof fn lemma_layout_contiguous(cols: Seq<Column>, j: int)
    requires
        spec_total_cols(cols) <= usize::MAX,
        0 <= j < cols.len(),
    ensures
        layout_spec(cols)[j + 1].start == layout_spec(cols)[j].start + layout_spec(cols)[j].width,
{
    if j == 0 {
        assert(cols.take(0) =~= Seq::<Column>::empty());
        assert(sum_widths(cols.take(0)) == 0);
        lemma_sum_widths_prefix(cols, 0);
        assert(layout_spec(cols)[1].start == spec_total_cols(cols.take(0)) as usize);
    } else {
        lemma_sum_widths_step(cols, j - 1);
        lemma_sum_widths_prefix(cols, j);
        lemma_sum_widths_prefix(cols, j - 1);
        assert(spec_total_cols(cols.take(j)) <= spec_total_cols(cols));
        assert(spec_total_cols(cols.take(j - 1)) <= spec_total_cols(cols));
        assert(spec_width(cols[j - 1]) <= sum_widths(cols.take(j)));
    }
}

/// The width of one resolved column, as the planner computes it.
pub fn width(c: &Column) -> (w: usize)
    requires
        is_resolved(*c),
    ensures
        w == spec_width(*c),
{
    match c {
        Column::Numeric(_) => 1,
        Column::Integer(_) => 1,
        Column::Boolean(_) => 1,
        Column::Categorical(_, levels) => if levels.len() == 0 {
            0
        } else {
            levels.len() - 1
        },
        Column::Text(_) => 0,
        Column::Unsupported(_) => 0,
    }
}

/// Layout planner: for resolved columns in table order, the ordered output
/// blocks (intercept first) and the total output column count. Offsets are
/// contiguous: each block starts where the previous one ends, and the total
/// is the intercept plus the summed widths.
pub fn plan_layout(columns: &Vec<(String, Column)>) -> (res: (Vec<LayoutEntry>, usize))
    requires
        forall|j: int| 0 <= j < columns@.len() ==> is_resolved(#[trigger] columns@[j].1),
        spec_total_cols(cols_of(columns@)) <= usize::MAX,
    ensures
        res.0@ == layout_spec(cols_of(columns@)),
        res.1 == spec_total_cols(cols_of(columns@)),
{
    let ghost cols = cols_of(columns@);
    let mut entries: Vec<LayoutEntry> = Vec::new();
    entries.push(LayoutEntry { kind: Kind::Intercept, width: 1, start: 0 });
    let mut total: usize = 1;
    let mut j: usize = 0;
    proof {
        assert(cols.take(0) =~= Seq::<Column>::empty());
    }
    while j < columns.len()
        invariant
            j <= columns@.len(),
            cols == cols_of(columns@),
            cols.len() == columns@.len(),
            forall|k: int| 0 <= k < columns@.len() ==> is_resolved(#[trigger] columns@[k].1),
            spec_total_cols(cols) <= usize::MAX,
            total == spec_total_cols(cols.take(j as int)),
            entries@.len() == j + 1,
            forall|k: int| 0 <= k <= j ==> entries@[k] == layout_spec(cols)[k],
        decreases columns@.len() - j,
    {
        let k = match classify(&columns[j].1) {
            Some(k) => k,
            None => Kind::Intercept,
        };
        let w = width(&columns[j].1);
        proof {
            assert(cols[j as int] == columns@[j as int].1);
            lemma_sum_widths_step(cols, j as int);
            lemma_sum_widths_prefix(cols, j as int + 1);
        }
        entries.push(LayoutEntry { kind: k, width: w, start: total });
        total = total + w;
        j = j + 1;
    }
    proof {
        assert(cols.take(cols.len() as int) =~= cols);
        assert(entries@ =~= layout_spec(cols));
    }
    (entries, total)
}

} // verus!
