//! Ordering of keyed rows: by key, the way strings compare, and by value, largest first. Both
//! sorts are insertion sorts and keep rows that compare equal in their order.
use vstd::prelude::*;
use crate::tally::tally_view;
use crate::text::{chars_le, chars_of, text_le};

verus! {

broadcast use vstd::seq_lib::group_to_multiset_ensures;

/// String order is total.
pub proof fn lemma_text_le_total(a: Seq<char>, b: Seq<char>)
    ensures
        text_le(a, b) || text_le(b, a),
    decreases a.len(),
{
    if a.len() > 0 && b.len() > 0 && a[0] == b[0] {
        lemma_text_le_total(a.drop_first(), b.drop_first());
    }
}

/// String order is reflexive.
pub proof fn lemma_text_le_refl(a: Seq<char>)
    ensures
        text_le(a, a),
    decreases a.len(),
{
    if a.len() > 0 {
        lemma_text_le_refl(a.drop_first());
    }
}

/// String order is transitive.
pub proof fn lemma_text_le_trans(a: Seq<char>, b: Seq<char>, c: Seq<char>)
    requires
        text_le(a, b),
        text_le(b, c),
    ensures
        text_le(a, c),
    decreases a.len(),
{
    if a.len() > 0 && b.len() > 0 && c.len() > 0 && a[0] == b[0] && b[0] == c[0] {
        lemma_text_le_trans(a.drop_first(), b.drop_first(), c.drop_first());
    }
}

/// String order is antisymmetric.
pub proof fn lemma_text_le_antisym(a: Seq<char>, b: Seq<char>)
    requires
        text_le(a, b),
        text_le(b, a),
    ensures
        a == b,
    decreases a.len(),
{
    if a.len() > 0 && b.len() > 0 {
        lemma_text_le_antisym(a.drop_first(), b.drop_first());
        assert(a =~= seq![a[0]] + a.drop_first());
        assert(b =~= seq![b[0]] + b.drop_first());
    }
}

/// Rows in the order of their keys.
pub open spec fn key_sorted(s: Seq<(Seq<char>, i64)>) -> bool {
    forall|i: int, j: int| 0 <= i < j < s.len() ==> text_le((#[trigger] s[i]).0, (#[trigger] s[j]).0)
}

/// Rows by value, largest first.
pub open spec fn value_sorted_desc(s: Seq<(Seq<char>, i64)>) -> bool {
    forall|i: int, j: int| 0 <= i < j < s.len() ==> (#[trigger] s[i]).1 >= (#[trigger] s[j]).1
}

/// `r` is `s` ordered by key, rows with equal keys in their order in `s`: `idx` gives for each
/// row of `r` its position in `s`.
pub open spec fn stable_key_order(
    r: Seq<(Seq<char>, i64)>,
    s: Seq<(Seq<char>, i64)>,
    idx: Seq<int>,
) -> bool {
    &&& idx.len() == r.len()
    &&& r.len() == s.len()
    &&& forall|q: int| 0 <= q < r.len() ==> 0 <= #[trigger] idx[q] < s.len() && r[q] == s[idx[q]]
    &&& forall|a: int, b: int| 0 <= a < b < r.len() ==> #[trigger] idx[a] != #[trigger] idx[b]
    &&& forall|a: int, b: int|
        0 <= a < b < r.len() ==> text_le((#[trigger] r[a]).0, (#[trigger] r[b]).0) && (r[a].0
            == r[b].0 ==> idx[a] < idx[b])
}

proof fn lemma_view_insert(v: Seq<(String, i64)>, p: int, x: (String, i64))
    requires
        0 <= p <= v.len(),
    ensures
        tally_view(v.insert(p, x)) == tally_view(v).insert(p, (x.0@, x.1)),
{
    assert(tally_view(v.insert(p, x)) =~= tally_view(v).insert(p, (x.0@, x.1)));
}

proof fn lemma_view_take_push(v: Seq<(String, i64)>, i: int)
    requires
        0 <= i < v.len(),
    ensures
        tally_view(v.take(i + 1)) == tally_view(v.take(i)).push((v[i].0@, v[i].1)),
{
    assert(tally_view(v.take(i + 1)) =~= tally_view(v.take(i)).push((v[i].0@, v[i].1)));
}

/// The rows ordered by key, rows with equal keys in their order.
pub fn sort_by_key(rows: &Vec<(String, i64)>) -> (r: Vec<(String, i64)>)
    ensures
        key_sorted(tally_view(r@)),
        tally_view(r@).to_multiset() == tally_view(rows@).to_multiset(),
        exists|idx: Seq<int>| stable_key_order(tally_view(r@), tally_view(rows@), idx),
{
    let mut out: Vec<(String, i64)> = Vec::new();
    let mut i: usize = 0;
    let ghost mut idx: Seq<int> = Seq::empty();
    proof {
        assert(tally_view(rows@.take(0)) =~= tally_view(out@));
    }
    while i < rows.len()
        invariant
            0 <= i <= rows.len(),
            key_sorted(tally_view(out@)),
            tally_view(out@).to_multiset() == tally_view(rows@.take(i as int)).to_multiset(),
            stable_key_order(tally_view(out@), tally_view(rows@).take(i as int), idx),
            forall|q: int| 0 <= q < idx.len() ==> #[trigger] idx[q] < i,
        decreases rows.len() - i,
    {
        let key = chars_of(rows[i].0.as_str());
        let ghost ov = tally_view(out@);
        let mut p: usize = 0;
        while p < out.len() && chars_le(&chars_of(out[p].0.as_str()), &key)
            invariant
                0 <= p <= out.len(),
                ov == tally_view(out@),
                forall|q: int| 0 <= q < p ==> text_le(#[trigger] ov[q].0, key@),
            decreases out.len() - p,
        {
            p = p + 1;
        }
        let ghost xv = (rows@[i as int].0@, rows@[i as int].1);
        proof {
            if p < out.len() {
                assert(!text_le(ov[p as int].0, key@));
                lemma_text_le_total(ov[p as int].0, key@);
            }
            lemma_view_insert(out@, p as int, (rows@[i as int].0, rows@[i as int].1));
            lemma_view_take_push(rows@, i as int);
        }
        out.insert(p, (rows[i].0.clone(), rows[i].1));
        proof {
            let nv = tally_view(out@);
            assert(nv == ov.insert(p as int, xv));
            let old_idx = idx;
            let sv = tally_view(rows@);
            idx = old_idx.insert(p as int, i as int);
            assert(sv.take(i + 1) =~= sv.take(i as int).push(xv));
            assert forall|q: int| 0 <= q < nv.len() implies 0 <= #[trigger] idx[q] < sv.take(i + 1).len()
                && nv[q] == sv.take(i + 1)[idx[q]] by {
                if q < p {
                    assert(idx[q] == old_idx[q]);
                    assert(nv[q] == ov[q]);
                } else if q == p {
                } else {
                    assert(idx[q] == old_idx[q - 1]);
                    assert(nv[q] == ov[q - 1]);
                }
            }
            assert forall|a: int, b: int| 0 <= a < b < nv.len() implies #[trigger] idx[a]
                != #[trigger] idx[b] by {
                if a != p && b != p {
                    let a0 = if a < p { a } else { a - 1 };
                    let b0 = if b < p { b } else { b - 1 };
                    assert(idx[a] == old_idx[a0] && idx[b] == old_idx[b0]);
                    assert(old_idx[a0] != old_idx[b0]);
                } else if a == p {
                    assert(idx[b] == old_idx[b - 1]);
                    assert(old_idx[b - 1] < i);
                } else {
                    assert(idx[a] == old_idx[a]);
                    assert(old_idx[a] < i);
                }
            }
            assert forall|q: int| 0 <= q < idx.len() implies #[trigger] idx[q] < i + 1 by {
                if q < p {
                    assert(idx[q] == old_idx[q]);
                } else if q > p {
                    assert(idx[q] == old_idx[q - 1]);
                }
            }
            assert forall|a: int, b: int| 0 <= a < b < nv.len() implies text_le(
                (#[trigger] nv[a]).0,
                (#[trigger] nv[b]).0,
            ) && (nv[a].0 == nv[b].0 ==> idx[a] < idx[b]) by {
                if b < p {
                    assert(nv[a] == ov[a] && nv[b] == ov[b]);
                    assert(idx[a] == old_idx[a] && idx[b] == old_idx[b]);
                } else if b == p {
                    assert(nv[a] == ov[a]);
                    assert(idx[a] == old_idx[a]);
                    assert(old_idx[a] < i);
                } else if a == p {
                    assert(nv[b] == ov[b - 1]);
                    assert(!text_le(ov[p as int].0, key@));
                    if b - 1 > p {
                        assert(text_le(ov[p as int].0, ov[b - 1].0));
                        lemma_text_le_trans(key@, ov[p as int].0, ov[b - 1].0);
                        if key@ == ov[b - 1].0 {
                            assert(text_le(ov[p as int].0, key@));
                        }
                    }
                } else if a < p {
                    assert(nv[a] == ov[a] && nv[b] == ov[b - 1]);
                    assert(idx[a] == old_idx[a] && idx[b] == old_idx[b - 1]);
                } else {
                    assert(nv[a] == ov[a - 1] && nv[b] == ov[b - 1]);
                    assert(idx[a] == old_idx[a - 1] && idx[b] == old_idx[b - 1]);
                }
            }
            assert forall|a: int, b: int| 0 <= a < b < nv.len() implies text_le(
                (#[trigger] nv[a]).0,
                (#[trigger] nv[b]).0,
            ) by {
                if b < p {
                    assert(nv[a] == ov[a] && nv[b] == ov[b]);
                } else if b == p {
                    assert(nv[a] == ov[a]);
                } else if a == p {
                    assert(nv[b] == ov[b - 1]);
                    if b - 1 > p {
                        assert(text_le(ov[p as int].0, ov[b - 1].0));
                        lemma_text_le_trans(key@, ov[p as int].0, ov[b - 1].0);
                    }
                } else if a < p {
                    assert(nv[a] == ov[a] && nv[b] == ov[b - 1]);
                } else {
                    assert(nv[a] == ov[a - 1] && nv[b] == ov[b - 1]);
                }
            }
        }
        i = i + 1;
    }
    proof {
        assert(rows@.take(rows.len() as int) == rows@);
        assert(tally_view(rows@).take(rows.len() as int) == tally_view(rows@));
    }
    out
}

/// The rows ordered by value, largest first, rows with equal values in their order.
pub fn sort_by_value_desc(rows: &Vec<(String, i64)>) -> (r: Vec<(String, i64)>)
    ensures
        value_sorted_desc(tally_view(r@)),
        tally_view(r@).to_multiset() == tally_view(rows@).to_multiset(),
{
    let mut out: Vec<(String, i64)> = Vec::new();
    let mut i: usize = 0;
    proof {
        assert(tally_view(rows@.take(0)) =~= tally_view(out@));
    }
    while i < rows.len()
        invariant
            0 <= i <= rows.len(),
            value_sorted_desc(tally_view(out@)),
            tally_view(out@).to_multiset() == tally_view(rows@.take(i as int)).to_multiset(),
        decreases rows.len() - i,
    {
        let value = rows[i].1;
        let ghost ov = tally_view(out@);
        let mut p: usize = 0;
        while p < out.len() && out[p].1 >= value
            invariant
                0 <= p <= out.len(),
                ov == tally_view(out@),
                forall|q: int| 0 <= q < p ==> (#[trigger] ov[q]).1 >= value,
            decreases out.len() - p,
        {
            p = p + 1;
        }
        let ghost xv = (rows@[i as int].0@, rows@[i as int].1);
        proof {
            if p < out.len() {
                assert(ov[p as int].1 < value);
            }
            lemma_view_insert(out@, p as int, (rows@[i as int].0, rows@[i as int].1));
            lemma_view_take_push(rows@, i as int);
        }
        out.insert(p, (rows[i].0.clone(), rows[i].1));
        proof {
            let nv = tally_view(out@);
            assert(nv == ov.insert(p as int, xv));
            assert forall|a: int, b: int| 0 <= a < b < nv.len() implies (#[trigger] nv[a]).1 >= (
            #[trigger] nv[b]).1 by {
                if b < p {
                    assert(nv[a] == ov[a] && nv[b] == ov[b]);
                } else if b == p {
                    assert(nv[a] == ov[a]);
                } else if a == p {
                    assert(nv[b] == ov[b - 1]);
                    if b - 1 > p {
                        assert(ov[p as int].1 >= ov[b - 1].1);
                    }
                } else if a < p {
                    assert(nv[a] == ov[a] && nv[b] == ov[b - 1]);
                } else {
                    assert(nv[a] == ov[a - 1] && nv[b] == ov[b - 1]);
                }
            }
        }
        i = i + 1;
    }
    proof {
        assert(rows@.take(rows.len() as int) == rows@);
    }
    out
}

} // verus!
