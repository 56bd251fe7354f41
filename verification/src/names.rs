//! Output labels.
//!
//! Column names follow the layout order: the intercept's fixed label
//! first, then one name per output column. A numeric or integer column
//! keeps its input name; a boolean column gets the `TRUE` suffix of its
//! kept indicator level; a categorical column contributes one name per
//! kept level, the input name and the level label joined without a
//! separator. Row names are the 1-based row numbers in decimal.

use vstd::prelude::*;
use vstd::string::StringExecFns;
use crate::Column;
use crate::is_resolved;
use crate::levels::levels_of;
use crate::layout::spec_width;
use crate::layout::sum_widths;
use crate::layout::cols_of;

verus! {

/// The decimal digit character for `d` (a value below ten).
pub open spec fn digit_char(d: nat) -> char {
    if d == 0 {
        '0'
    } else if d == 1 {
        '1'
    } else if d == 2 {
        '2'
    } else if d == 3 {
        '3'
    } else if d == 4 {
        '4'
    } else if d == 5 {
        '5'
    } else if d == 6 {
        '6'
    } else if d == 7 {
        '7'
    } else if d == 8 {
        '8'
    } else {
        '9'
    }
}

/// The decimal numeral of `n`, most significant digit first, without
/// leading zeros (the numeral of zero is the single digit zero).
pub open spec fn dec_str(n: nat) -> Seq<char>
    decreases n,
{
    if n < 10 {
        seq![digit_char(n)]
    } else {
        dec_str(n / 10).push(digit_char(n % 10))
    }
}

/// The one-character string for a decimal digit.
fn digit_str(d: usize) -> (r: &'static str)
    requires
        d < 10,
    ensures
        r@ == seq![digit_char(d as nat)],
{
    let r: &'static str = match d {
        0 => "0",
        1 => "1",
        2 => "2",
        3 => "3",
        4 => "4",
        5 => "5",
        6 => "6",
        7 => "7",
        8 => "8",
        _ => "9",
    };
    proof {
        reveal_strlit("0");
        reveal_strlit("1");
        reveal_strlit("2");
        reveal_strlit("3");
        reveal_strlit("4");
        reveal_strlit("5");
        reveal_strlit("6");
        reveal_strlit("7");
        reveal_strlit("8");
        reveal_strlit("9");
        assert(r@ =~= seq![digit_char(d as nat)]);
    }
    r
}

/// Appends the decimal numeral of `n` to `prefix`.
fn push_decimal(prefix: String, n: usize) -> (r: String)
    ensures
        r@ == prefix@ + dec_str(n as nat),
    decreases n,
{
    if n < 10 {
        let r = prefix.concat(digit_str(n));
        proof {
            assert(r@ =~= prefix@ + dec_str(n as nat));
        }
        r
    } else {
        let p = push_decimal(prefix, n / 10);
        let r = p.concat(digit_str(n % 10));
        proof {
            assert(r@ =~= prefix@ + dec_str(n as nat));
        }
        r
    }
}

/// The decimal numeral of `n` as a string.
pub fn usize_to_string(n: usize) -> (s: String)
    ensures
        s@ == dec_str(n as nat),
{
    let s = push_decimal(String::new(), n);
    proof {
        assert(s@ =~= dec_str(n as nat));
    }
    s
}

/// The row labels: the numerals `1` to `nrow`.
pub open spec fn row_names_spec(nrow: nat) -> Seq<Seq<char>> {
    Seq::new(nrow, |r: int| dec_str((r + 1) as nat))
}

/// Naming assembler, row side: the 1-based row numbers as strings.
pub fn row_names(nrow: usize) -> (out: Vec<String>)
    ensures
        out.deep_view() == row_names_spec(nrow as nat),
{
    let mut out: Vec<String> = Vec::new();
    let mut r: usize = 0;
    while r < nrow
        invariant
            r <= nrow,
            out@.len() == r,
            forall|k: int| 0 <= k < r ==> #[trigger] out@[k]@ == dec_str((k + 1) as nat),
        decreases nrow - r,
    {
        let s = usize_to_string(r + 1);
        out.push(s);
        r = r + 1;
    }
    proof {
        assert(out.deep_view() =~= row_names_spec(nrow as nat));
    }
    out
}

/// The output names one input column contributes, in layout order.
pub open spec fn col_names(name: Seq<char>, c: Column) -> Seq<Seq<char>> {
    match c {
        Column::Numeric(_) => seq![name],
        Column::Integer(_) => seq![name],
        Column::Boolean(_) => seq![name + "TRUE"@],
        Column::Categorical(_, levels) => Seq::new(
            spec_width(c),
            |k: int| name + levels.deep_view()[k + 1],
        ),
        Column::Text(vals) => Seq::new(
            spec_width(c),
            |k: int| name + levels_of(vals.deep_view())[k + 1],
        ),
        Column::Unsupported(_) => Seq::empty(),
    }
}

/// The name blocks of all columns, concatenated in table order.
pub open spec fn names_concat(pairs: Seq<(String, Column)>) -> Seq<Seq<char>>
    decreases pairs.len(),
{
    if pairs.len() == 0 {
        Seq::empty()
    } else {
        names_concat(pairs.drop_last()) + col_names(pairs.last().0@, pairs.last().1)
    }
}

/// All output column names: the intercept's fixed label, then each
/// column's block in table order.
pub open spec fn names_spec(pairs: Seq<(String, Column)>) -> Seq<Seq<char>> {
    seq!["(Intercept)"@] + names_concat(pairs)
}

/// There is exactly one name per output column.
pub proof fn lemma_names_len(pairs: Seq<(String, Column)>)
    ensures
        names_concat(pairs).len() == sum_widths(cols_of(pairs)),
    decreases pairs.len(),
{
    if pairs.len() > 0 {
        lemma_names_len(pairs.drop_last());
        assert(cols_of(pairs.drop_last()) =~= cols_of(pairs).drop_last());
        assert(col_names(pairs.last().0@, pairs.last().1).len() == spec_width(
            cols_of(pairs).last(),
        ));
    }
}

/// Naming assembler, column side: the output column names of resolved
/// columns, in layout order.
pub fn column_names(columns: &Vec<(String, Column)>) -> (out: Vec<String>)
    requires
        forall|j: int| 0 <= j < columns@.len() ==> is_resolved(#[trigger] columns@[j].1),
    ensures
        out.deep_view() == names_spec(columns@),
{
    let mut out: Vec<String> = Vec::new();
    out.push(String::from_str("(Intercept)"));
    let mut j: usize = 0;
    proof {
        assert(columns@.take(0) =~= Seq::<(String, Column)>::empty());
        assert(out.deep_view() =~= names_spec(columns@.take(0)));
    }
    while j < columns.len()
        invariant
            j <= columns@.len(),
            forall|k: int| 0 <= k < columns@.len() ==> is_resolved(#[trigger] columns@[k].1),
            out.deep_view() == names_spec(columns@.take(j as int)),
        decreases columns@.len() - j,
    {
        let ghost prefix = names_spec(columns@.take(j as int));
        let ghost pair = columns@[j as int];
        proof {
            assert(columns@.take(j + 1).drop_last() =~= columns@.take(j as int));
            assert(columns@.take(j + 1).last() == pair);
        }
        match &columns[j].1 {
            Column::Numeric(_) => {
                out.push(columns[j].0.clone());
                proof {
                    assert(out.deep_view() =~= prefix + col_names(pair.0@, pair.1));
                }
            },
            Column::Integer(_) => {
                out.push(columns[j].0.clone());
                proof {
                    assert(out.deep_view() =~= prefix + col_names(pair.0@, pair.1));
                }
            },
            Column::Boolean(_) => {
                let n = columns[j].0.clone().concat("TRUE");
                out.push(n);
                proof {
                    assert(out.deep_view() =~= prefix + col_names(pair.0@, pair.1));
                }
            },
            Column::Categorical(_, levels) => {
                let ghost block = col_names(pair.0@, pair.1);
                let mut k: usize = 1;
                proof {
                    assert(block.take(0) =~= Seq::<Seq<char>>::empty());
                    assert(out.deep_view() =~= prefix + block.take(0));
                }
                while k < levels.len()
                    invariant
                        1 <= k <= levels@.len() || (levels@.len() == 0 && k == 1),
                        columns@.len() > j,
                        pair == columns@[j as int],
                        pair.1 matches Column::Categorical(_, lv) && lv == *levels,
                        block == col_names(pair.0@, pair.1),
                        out.deep_view() == prefix + block.take(k - 1),
                    decreases levels@.len() - k,
                {
                    let n = columns[j].0.clone().concat(levels[k].as_str());
                    let ghost oldv = out@;
                    let ghost olddv = out.deep_view();
                    out.push(n);
                    proof {
                        assert(block.len() == levels@.len() - 1);
                        assert(olddv.len() == oldv.len());
                        assert(olddv.len() == prefix.len() + (k - 1));
                        assert(out@.len() == oldv.len() + 1);
                        assert(block[k - 1] == pair.0@ + levels.deep_view()[k as int]);
                        assert(block.take(k as int) =~= block.take(k - 1).push(block[k - 1]));
                        assert forall|i: int| 0 <= i < out@.len() implies out.deep_view()[i] == (
                        prefix + block.take(k as int))[i] by {
                            if i < oldv.len() {
                                assert(out@[i] == oldv[i]);
                                assert(olddv[i] == oldv[i]@);
                            } else {
                                assert(out@[i] == n);
                                assert(block.take(k as int)[k - 1] == block[k - 1]);
                            }
                        }
                        assert(out.deep_view() =~= prefix + block.take(k as int));
                    }
                    k = k + 1;
                }
                proof {
                    assert(block.take(block.len() as int) =~= block);
                    if levels@.len() == 0 {
                        assert(block.take(k - 1) =~= block);
                    } else {
                        assert(k - 1 == block.len());
                    }
                    assert(out.deep_view() =~= prefix + block);
                }
            },
            Column::Text(_) => {},
            Column::Unsupported(_) => {},
        }
        proof {
            assert(names_spec(columns@.take(j + 1)) =~= names_spec(columns@.take(j as int))
                + col_names(pair.0@, pair.1));
        }
        j = j + 1;
    }
    proof {
        assert(columns@.take(columns@.len() as int) =~= columns@);
    }
    out
}

} // verus!
