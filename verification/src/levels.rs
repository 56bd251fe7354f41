//! Level resolution for text columns.
//!
//! A text column is factorized before encoding: its distinct present values,
//! in ascending lexicographic order, become the level labels, and every row
//! is replaced by the 0-based index of its value among those labels (or a
//! missing code). The first level in the resolved order is the reference
//! level that dummy encoding drops.

use vstd::prelude::*;
use crate::order::lex_lt;
use crate::order::lemma_lex_irrefl;
use crate::order::lemma_lex_connex;
use crate::order::lemma_lex_trans;
use crate::order::str_lt;

verus! {

/// A strictly sorted level sequence: distinct labels in ascending
/// lexicographic order.
pub open spec fn lex_sorted(ls: Seq<Seq<char>>) -> bool {
    forall|i: int, j: int| 0 <= i < j < ls.len() ==> lex_lt(ls[i], ls[j])
}

/// `v` placed at its position in the sorted sequence `ls`; `ls` unchanged
/// if it already holds `v`.
pub open spec fn insert_sorted(ls: Seq<Seq<char>>, v: Seq<char>) -> Seq<Seq<char>>
    decreases ls.len(),
{
    if ls.len() == 0 {
        seq![v]
    } else if v == ls[0] {
        ls
    } else if lex_lt(v, ls[0]) {
        seq![v] + ls
    } else {
        seq![ls[0]] + insert_sorted(ls.skip(1), v)
    }
}

/// The ordered level set of a text column: its distinct present values in
/// ascending lexicographic order.
pub open spec fn levels_of(vals: Seq<Option<Seq<char>>>) -> Seq<Seq<char>>
    decreases vals.len(),
{
    if vals.len() == 0 {
        Seq::empty()
    } else {
        match vals.last() {
            None => levels_of(vals.drop_last()),
            Some(s) => insert_sorted(levels_of(vals.drop_last()), s),
        }
    }
}

/// The index of the first occurrence of `v` in `ls`, or `ls.len()` if `v`
/// is absent.
pub open spec fn find_idx(ls: Seq<Seq<char>>, v: Seq<char>) -> int
    decreases ls.len(),
{
    if ls.len() == 0 {
        0
    } else if ls[0] == v {
        0
    } else {
        1 + find_idx(ls.skip(1), v)
    }
}

/// The level code of each row of a text column: the index of the row's
/// value in the resolved level set, or missing.
pub open spec fn text_codes(vals: Seq<Option<Seq<char>>>) -> Seq<Option<usize>> {
    Seq::new(
        vals.len(),
        |r: int|
            match vals[r] {
                None => None,
                Some(s) => Some(find_idx(levels_of(vals), s) as usize),
            },
    )
}

/// Sorted insertion keeps the sequence sorted, grows it by at most one
/// label, and adds exactly the inserted value to its contents.
pub proof fn lemma_insert_sorted(ls: Seq<Seq<char>>, v: Seq<char>)
    requires
        lex_sorted(ls),
    ensures
        lex_sorted(insert_sorted(ls, v)),
        ls.len() <= insert_sorted(ls, v).len() <= ls.len() + 1,
        forall|x: Seq<char>|
            #[trigger] insert_sorted(ls, v).contains(x) <==> (ls.contains(x) || x == v),
    decreases ls.len(),
{
    let r = insert_sorted(ls, v);
    if ls.len() == 0 {
        assert forall|x: Seq<char>| #[trigger] r.contains(x) implies (ls.contains(x) || x == v) by {
            let k = choose|k: int| 0 <= k < r.len() && r[k] == x;
            assert(r[k] == v);
        }
        assert(r.contains(v)) by {
            assert(r[0] == v);
        }
    } else if v == ls[0] {
        assert forall|x: Seq<char>| ls.contains(x) || x == v implies #[trigger] r.contains(x) by {
            if x == v {
                assert(ls[0] == x);
            }
        }
    } else if lex_lt(v, ls[0]) {
        // r == seq![v] + ls
        assert forall|i: int, j: int| 0 <= i < j < r.len() implies lex_lt(r[i], r[j]) by {
            if i == 0 {
                assert(r[j] == ls[j - 1]);
                if j == 1 {
                } else {
                    assert(lex_lt(ls[0], ls[j - 1]));
                    lemma_lex_trans(v, ls[0], ls[j - 1]);
                }
            } else {
                assert(r[i] == ls[i - 1]);
                assert(r[j] == ls[j - 1]);
            }
        }
        assert forall|x: Seq<char>| #[trigger] r.contains(x) implies (ls.contains(x) || x == v) by {
            let k = choose|k: int| 0 <= k < r.len() && r[k] == x;
            if k > 0 {
                assert(ls[k - 1] == x);
            }
        }
        assert forall|x: Seq<char>| ls.contains(x) || x == v implies #[trigger] r.contains(x) by {
            if x == v {
                assert(r[0] == x);
            } else {
                let k = choose|k: int| 0 <= k < ls.len() && ls[k] == x;
                assert(r[k + 1] == x);
            }
        }
    } else {
        // v > ls[0]: insert into the tail.
        lemma_lex_connex(v, ls[0]);
        let h = ls[0];
        let tail = ls.skip(1);
        assert(lex_sorted(tail)) by {
            assert forall|i: int, j: int| 0 <= i < j < tail.len() implies lex_lt(
                tail[i],
                tail[j],
            ) by {
                assert(tail[i] == ls[i + 1]);
                assert(tail[j] == ls[j + 1]);
            }
        }
        lemma_insert_sorted(tail, v);
        let rt = insert_sorted(tail, v);
        // r == seq![h] + rt
        assert forall|i: int, j: int| 0 <= i < j < r.len() implies lex_lt(r[i], r[j]) by {
            if i == 0 {
                assert(r[j] == rt[j - 1]);
                assert(rt.contains(rt[j - 1]));
                if tail.contains(rt[j - 1]) {
                    let k = choose|k: int| 0 <= k < tail.len() && tail[k] == rt[j - 1];
                    assert(tail[k] == ls[k + 1]);
                    assert(lex_lt(ls[0], ls[k + 1]));
                } else {
                    assert(rt[j - 1] == v);
                    assert(lex_lt(h, v));
                }
            } else {
                assert(r[i] == rt[i - 1]);
                assert(r[j] == rt[j - 1]);
            }
        }
        assert forall|x: Seq<char>| #[trigger] r.contains(x) implies (ls.contains(x) || x == v) by {
            let k = choose|k: int| 0 <= k < r.len() && r[k] == x;
            if k == 0 {
                assert(ls[0] == x);
            } else {
                assert(rt[k - 1] == x);
                assert(rt.contains(x));
                if tail.contains(x) {
                    let m = choose|m: int| 0 <= m < tail.len() && tail[m] == x;
                    assert(ls[m + 1] == x);
                }
            }
        }
        assert forall|x: Seq<char>| ls.contains(x) || x == v implies #[trigger] r.contains(x) by {
            if x == v {
                assert(rt.contains(x));
                let m = choose|m: int| 0 <= m < rt.len() && rt[m] == x;
                assert(r[m + 1] == x);
            } else {
                let k = choose|k: int| 0 <= k < ls.len() && ls[k] == x;
                if k == 0 {
                    assert(r[0] == x);
                } else {
                    assert(tail[k - 1] == x);
                    assert(tail.contains(x));
                    assert(rt.contains(x));
                    let m = choose|m: int| 0 <= m < rt.len() && rt[m] == x;
                    assert(r[m + 1] == x);
                }
            }
        }
    }
}

/// The level-set invariant: the resolved level set is strictly sorted —
/// so its labels are pairwise distinct — and holds at most one level per
/// row.
pub proof fn lemma_levels_of(vals: Seq<Option<Seq<char>>>)
    ensures
        lex_sorted(levels_of(vals)),
        forall|i: int, j: int|
            0 <= i < j < levels_of(vals).len() ==> #[trigger] levels_of(vals)[i] != #[trigger] levels_of(vals)[j],
        levels_of(vals).len() <= vals.len(),
    decreases vals.len(),
{
    if vals.len() > 0 {
        lemma_levels_of(vals.drop_last());
        match vals.last() {
            None => {},
            Some(s) => {
                lemma_insert_sorted(levels_of(vals.drop_last()), s);
            },
        }
    }
    assert forall|i: int, j: int| 0 <= i < j < levels_of(vals).len() implies #[trigger] levels_of(
        vals,
    )[i] != #[trigger] levels_of(vals)[j] by {
        if levels_of(vals)[i] == levels_of(vals)[j] {
            lemma_lex_irrefl(levels_of(vals)[i]);
        }
    }
}

/// If `v` does not occur among the first `i` labels, and either `i` is the
/// end or label `i` is `v`, then `i` is the index of the first occurrence.
pub proof fn lemma_find_idx_at(ls: Seq<Seq<char>>, v: Seq<char>, i: int)
    requires
        0 <= i <= ls.len(),
        forall|j: int| 0 <= j < i ==> ls[j] != v,
        i < ls.len() ==> ls[i] == v,
    ensures
        find_idx(ls, v) == i,
    decreases ls.len(),
{
    if ls.len() == 0 {
    } else if i == 0 {
    } else {
        let tail = ls.skip(1);
        assert forall|j: int| 0 <= j < i - 1 implies tail[j] != v by {
            assert(tail[j] == ls[j + 1]);
        }
        assert(i - 1 < tail.len() ==> tail[i - 1] == v) by {
            if i - 1 < tail.len() {
                assert(tail[i - 1] == ls[i]);
            }
        }
        lemma_find_idx_at(tail, v, i - 1);
    }
}

/// Sorted insertion, characterized by the insertion point the search loop
/// finds: the labels before `i` come before `v`, and label `i` (if any)
/// does not.
pub proof fn lemma_insert_sorted_at(ls: Seq<Seq<char>>, v: Seq<char>, i: int)
    requires
        lex_sorted(ls),
        0 <= i <= ls.len(),
        forall|j: int| 0 <= j < i ==> lex_lt(ls[j], v),
        i < ls.len() ==> !lex_lt(ls[i], v),
    ensures
        i < ls.len() && ls[i] == v ==> insert_sorted(ls, v) == ls,
        !(i < ls.len() && ls[i] == v) ==> insert_sorted(ls, v) == ls.insert(i, v),
    decreases ls.len(),
{
    if ls.len() == 0 {
        assert(insert_sorted(ls, v) =~= ls.insert(0, v));
    } else if i == 0 {
        if ls[0] == v {
        } else {
            lemma_lex_connex(v, ls[0]);
            assert(lex_lt(v, ls[0]));
            assert(insert_sorted(ls, v) =~= ls.insert(0, v));
        }
    } else {
        // i > 0: the head comes before v, so v is neither the head nor
        // ahead of it.
        assert(lex_lt(ls[0], v));
        assert(v != ls[0]) by {
            if v == ls[0] {
                lemma_lex_irrefl(v);
            }
        }
        assert(!lex_lt(v, ls[0])) by {
            if lex_lt(v, ls[0]) {
                lemma_lex_trans(ls[0], v, ls[0]);
                lemma_lex_irrefl(ls[0]);
            }
        }
        let tail = ls.skip(1);
        assert(lex_sorted(tail)) by {
            assert forall|a: int, b: int| 0 <= a < b < tail.len() implies lex_lt(
                tail[a],
                tail[b],
            ) by {
                assert(tail[a] == ls[a + 1]);
                assert(tail[b] == ls[b + 1]);
            }
        }
        assert forall|j: int| 0 <= j < i - 1 implies lex_lt(tail[j], v) by {
            assert(tail[j] == ls[j + 1]);
        }
        assert(i - 1 < tail.len() ==> !lex_lt(tail[i - 1], v)) by {
            if i - 1 < tail.len() {
                assert(tail[i - 1] == ls[i]);
            }
        }
        lemma_insert_sorted_at(tail, v, i - 1);
        if i < ls.len() && ls[i] == v {
            assert(tail[i - 1] == v);
            assert(insert_sorted(ls, v) =~= ls);
        } else {
            assert(insert_sorted(ls, v) =~= ls.insert(i, v)) by {
                assert(insert_sorted(tail, v) == tail.insert(i - 1, v));
                tail.insert_ensures(i - 1, v);
                ls.insert_ensures(i, v);
            }
        }
    }
}

/// Level resolver: returns the ordered level set of a text column (its
/// distinct present values, ascending) and each row's level code (`None`
/// for a missing value). The first level is the reference level that dummy
/// encoding drops.
pub fn factorize(vals: &Vec<Option<String>>) -> (res: (Vec<String>, Vec<Option<usize>>))
    ensures
        res.0.deep_view() == levels_of(vals.deep_view()),
        res.1@ == text_codes(vals.deep_view()),
{
    let ghost dv = vals.deep_view();
    let mut lv: Vec<String> = Vec::new();
    proof {
        assert(dv.take(0) =~= Seq::<Option<Seq<char>>>::empty());
        assert(lv.deep_view() =~= levels_of(dv.take(0)));
    }
    let mut i: usize = 0;
    while i < vals.len()
        invariant
            i <= vals.len(),
            dv == vals.deep_view(),
            dv.len() == vals@.len(),
            lv.deep_view() == levels_of(dv.take(i as int)),
            lex_sorted(lv.deep_view()),
        decreases vals@.len() - i,
    {
        let ghost ls = lv.deep_view();
        proof {
            assert(dv.take(i + 1).drop_last() =~= dv.take(i as int));
            assert(dv.take(i + 1).last() == dv[i as int]);
        }
        match &vals[i] {
            None => {
                proof {
                    assert(dv[i as int] is None);
                }
            },
            Some(s) => {
                proof {
                    assert(dv[i as int] == Some(s@));
                }
                let mut p: usize = 0;
                while p < lv.len() && str_lt(lv[p].as_str(), s.as_str())
                    invariant
                        p <= lv.len(),
                        ls == lv.deep_view(),
                        lv@.len() == ls.len(),
                        forall|j: int| 0 <= j < p ==> lex_lt(ls[j], s@),
                    decreases lv@.len() - p,
                {
                    proof {
                        assert(ls[p as int] == lv@[p as int]@);
                    }
                    p = p + 1;
                }
                proof {
                    if p < lv.len() {
                        assert(ls[p as int] == lv@[p as int]@);
                    }
                }
                let present = p < lv.len() && lv[p] == *s;
                proof {
                    lemma_insert_sorted_at(ls, s@, p as int);
                    lemma_insert_sorted(ls, s@);
                }
                if !present {
                    let c = s.clone();
                    let ghost oldv = lv@;
                    lv.insert(p, c);
                    proof {
                        oldv.insert_ensures(p as int, c);
                        ls.insert_ensures(p as int, s@);
                        assert(lv.deep_view() =~= ls.insert(p as int, s@)) by {
                            assert forall|k: int| 0 <= k < lv@.len() implies lv@[k]@ == ls.insert(
                                p as int,
                                s@,
                            )[k] by {
                                if k < p {
                                    assert(lv@[k] == oldv[k]);
                                } else if k == p {
                                    assert(lv@[k] == c);
                                } else {
                                    assert(lv@[k] == oldv[k - 1]);
                                }
                            }
                        }
                    }
                } else {
                    proof {
                        assert(lv.deep_view() == insert_sorted(ls, s@));
                    }
                }
            },
        }
        i = i + 1;
    }
    proof {
        assert(dv.take(dv.len() as int) =~= dv);
    }
    let ghost ls = lv.deep_view();
    let mut codes: Vec<Option<usize>> = Vec::new();
    let mut r: usize = 0;
    while r < vals.len()
        invariant
            r <= vals.len(),
            dv == vals.deep_view(),
            dv.len() == vals@.len(),
            ls == lv.deep_view(),
            lv@.len() == ls.len(),
            ls == levels_of(dv),
            codes@.len() == r,
            forall|k: int| 0 <= k < r ==> codes@[k] == text_codes(dv)[k],
        decreases vals@.len() - r,
    {
        match &vals[r] {
            None => {
                proof {
                    assert(dv[r as int] is None);
                }
                codes.push(None);
            },
            Some(s) => {
                proof {
                    assert(dv[r as int] == Some(s@));
                }
                let mut p: usize = 0;
                while p < lv.len() && !(lv[p] == *s)
                    invariant
                        p <= lv.len(),
                        ls == lv.deep_view(),
                        lv@.len() == ls.len(),
                        forall|j: int| 0 <= j < p ==> ls[j] != s@,
                    decreases lv@.len() - p,
                {
                    proof {
                        assert(ls[p as int] == lv@[p as int]@);
                    }
                    p = p + 1;
                }
                proof {
                    if p < lv.len() {
                        assert(ls[p as int] == lv@[p as int]@);
                    }
                    lemma_find_idx_at(ls, s@, p as int);
                }
                codes.push(Some(p));
            },
        }
        r = r + 1;
    }
    proof {
        assert(codes@ =~= text_codes(dv));
    }
    (lv, codes)
}

} // verus!
