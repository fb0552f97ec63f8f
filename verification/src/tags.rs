//! Tag lists: trimmed, lower case, without blanks, sorted and without repeats.
use vstd::prelude::*;

use crate::text::{
    is_ws, label, label_str, lemma_trim_end_shape, lemma_trim_start_first, lemma_str_lt_asymmetric, lemma_str_lt_irreflexive,
    lemma_str_lt_total, lemma_str_lt_transitive, lower, lower_char, str_less, str_lt, strs_view,
    trim, trim_start,
};

verus! {

/// Every element is smaller than every later one.
pub open spec fn strictly_sorted(s: Seq<Seq<char>>) -> bool {
    forall|i: int, j: int| 0 <= i < j < s.len() ==> str_lt(s[i], s[j])
}

/// `t` is the label of some raw tag and is not empty.
pub open spec fn is_tag_of(raw: Seq<Seq<char>>, t: Seq<char>) -> bool {
    t.len() > 0 && exists|i: int| 0 <= i < raw.len() && label(#[trigger] raw[i]) == t
}

/// `r` is the normalized tag list of `raw`: the non-empty labels of `raw`,
/// each once, in increasing order.
pub open spec fn is_tag_list_of(r: Seq<Seq<char>>, raw: Seq<Seq<char>>) -> bool {
    &&& strictly_sorted(r)
    &&& forall|t: Seq<char>| r.contains(t) <==> is_tag_of(raw, t)
}

/// The normalized tag list of `raw`. There is one: see `lemma_sorted_unique`.
pub open spec fn normalized(raw: Seq<Seq<char>>) -> Seq<Seq<char>> {
    choose|r: Seq<Seq<char>>| is_tag_list_of(r, raw)
}

fn insert_unique(out: &mut Vec<String>, x: String)
    requires
        strictly_sorted(strs_view(old(out)@)),
    ensures
        strictly_sorted(strs_view(final(out)@)),
        forall|t: Seq<char>|
            strs_view(final(out)@).contains(t) <==> (strs_view(old(out)@).contains(t) || t
                == x@),
{
    let ghost s = strs_view(out@);
    let mut p: usize = 0;
    while p < out.len() && str_less(out[p].as_str(), x.as_str())
        invariant
            p <= out.len(),
            s == strs_view(out@),
            forall|k: int| 0 <= k < p ==> str_lt(#[trigger] s[k], x@),
        decreases out.len() - p,
    {
        p = p + 1;
    }
    if p < out.len() && out[p] == x {
        assert(s[p as int] == x@);
        return ;
    }
    proof {
        if p < s.len() {
            assert(!str_lt(s[p as int], x@));
            assert(s[p as int] != x@);
            lemma_str_lt_total(s[p as int], x@);
            assert forall|k: int| p <= k < s.len() implies str_lt(x@, #[trigger] s[k]) by {
                if k > p {
                    lemma_str_lt_transitive(x@, s[p as int], s[k]);
                }
            }
        }
    }
    let ghost xv = x@;
    out.insert(p, x);
    let ghost r = strs_view(out@);
    assert(r =~= s.take(p as int) + seq![xv] + s.skip(p as int));
    assert forall|i: int, j: int| 0 <= i < j < r.len() implies str_lt(r[i], r[j]) by {
        if j < p {
            assert(r[i] == s[i] && r[j] == s[j]);
        } else if j == p {
            assert(r[i] == s[i]);
        } else if i < p {
            assert(r[i] == s[i] && r[j] == s[j - 1]);
            lemma_str_lt_transitive(s[i], xv, s[j - 1]);
        } else if i == p {
            assert(r[j] == s[j - 1]);
        } else {
            assert(r[i] == s[i - 1] && r[j] == s[j - 1]);
        }
    }
    assert forall|t: Seq<char>| r.contains(t) <==> (s.contains(t) || t == xv) by {
        if r.contains(t) {
            let i = choose|i: int| 0 <= i < r.len() && r[i] == t;
            if i < p {
                assert(s[i] == t);
            } else if i > p {
                assert(s[i - 1] == t);
            }
        }
        if s.contains(t) {
            let i = choose|i: int| 0 <= i < s.len() && s[i] == t;
            if i < p {
                assert(r[i] == t);
            } else {
                assert(r[i + 1] == t);
            }
        }
        if t == xv {
            assert(r[p as int] == t);
        }
    }
}

/// Trims and lower-cases each tag, drops the blank ones, sorts the rest and
/// removes repeats.
pub fn normalize_tags(raw: &Vec<String>) -> (r: Vec<String>)
    ensures
        is_tag_list_of(strs_view(r@), strs_view(raw@)),
        strs_view(r@) == normalized(strs_view(raw@)),
{
    let ghost rv = strs_view(raw@);
    let mut out: Vec<String> = Vec::new();
    let mut i: usize = 0;
    while i < raw.len()
        invariant
            i <= raw.len(),
            rv == strs_view(raw@),
            strictly_sorted(strs_view(out@)),
            forall|t: Seq<char>|
                strs_view(out@).contains(t) <==> is_tag_of(rv.take(i as int), t),
        decreases raw.len() - i,
    {
        let tag = label_str(raw[i].as_str());
        let ghost tv = tag@;
        assert(tv == label(rv[i as int]));
        if !tag.as_str().is_empty() {
            insert_unique(&mut out, tag);
        }
        assert forall|t: Seq<char>|
            strs_view(out@).contains(t) <==> is_tag_of(rv.take(i + 1), t) by {
            if is_tag_of(rv.take(i + 1), t) {
                let k = choose|k: int| 0 <= k < i + 1 && label(#[trigger] rv.take(i + 1)[k]) == t;
                if k < i {
                    assert(rv.take(i as int)[k] == rv.take(i + 1)[k]);
                    assert(is_tag_of(rv.take(i as int), t));
                }
            }
            if is_tag_of(rv.take(i as int), t) {
                let k = choose|k: int| 0 <= k < i && label(#[trigger] rv.take(i as int)[k]) == t;
                assert(rv.take(i + 1)[k] == rv.take(i as int)[k]);
            }
            if t == tv && tv.len() > 0 {
                assert(rv.take(i + 1)[i as int] == rv[i as int]);
            }
        }
        i = i + 1;
    }
    assert(rv.take(raw.len() as int) =~= rv);
    proof {
        let ov = strs_view(out@);
        assert(is_tag_list_of(ov, rv));
        let c = normalized(rv);
        assert(is_tag_list_of(c, rv));
        lemma_sorted_unique(ov, c);
    }
    out
}

proof fn lemma_lower_keeps_ws(c: char)
    ensures
        is_ws(lower_char(c)) == is_ws(c),
{
}

proof fn lemma_trim_of_clean(s: Seq<char>)
    requires
        s.len() > 0 ==> !is_ws(s[0]) && !is_ws(s.last()),
    ensures
        trim(s) == s,
{
}

/// A label is its own label.
pub proof fn lemma_label_idempotent(t: Seq<char>)
    ensures
        label(label(t)) == label(t),
{
    let x = trim(t);
    lemma_trim_start_first(t);
    lemma_trim_end_shape(trim_start(t));
    if x.len() > 0 {
        assert(x[0] == trim_start(t)[0]);
        lemma_lower_keeps_ws(x[0]);
        lemma_lower_keeps_ws(x.last());
    }
    let y = lower(x);
    assert(y.len() > 0 ==> y[0] == lower_char(x[0]) && y.last() == lower_char(x.last()));
    lemma_trim_of_clean(y);
    assert forall|i: int| 0 <= i < y.len() implies lower_char(y[i]) == y[i] by {
        assert(y[i] == lower_char(x[i]));
    }
    assert(lower(y) =~= y);
}

/// Two strictly sorted lists that hold the same elements are equal.
pub proof fn lemma_sorted_unique(a: Seq<Seq<char>>, b: Seq<Seq<char>>)
    requires
        strictly_sorted(a),
        strictly_sorted(b),
        forall|t: Seq<char>| a.contains(t) <==> b.contains(t),
    ensures
        a == b,
    decreases a.len(),
{
    if a.len() == 0 {
        if b.len() > 0 {
            assert(b.contains(b[0]));
        }
        assert(a =~= b);
    } else {
        assert(a.contains(a[0]));
        assert(b.len() > 0);
        assert(b.contains(b[0]));
        let i = choose|i: int| 0 <= i < a.len() && a[i] == b[0];
        let j = choose|j: int| 0 <= j < b.len() && b[j] == a[0];
        if i > 0 {
            assert(str_lt(a[0], b[0]));
            if j > 0 {
                lemma_str_lt_asymmetric(b[0], a[0]);
            } else {
                lemma_str_lt_irreflexive(a[0]);
            }
        }
        assert(a[0] == b[0]);
        let a2 = a.drop_first();
        let b2 = b.drop_first();
        assert forall|t: Seq<char>| a2.contains(t) <==> b2.contains(t) by {
            if a2.contains(t) {
                let k = choose|k: int| 0 <= k < a2.len() && a2[k] == t;
                assert(a.contains(t));
                assert(str_lt(a[0], a[k + 1]));
                let m = choose|m: int| 0 <= m < b.len() && b[m] == t;
                if m == 0 {
                    lemma_str_lt_irreflexive(t);
                }
                assert(b2[m - 1] == t);
            }
            if b2.contains(t) {
                let k = choose|k: int| 0 <= k < b2.len() && b2[k] == t;
                assert(b.contains(t));
                assert(str_lt(b[0], b[k + 1]));
                let m = choose|m: int| 0 <= m < a.len() && a[m] == t;
                if m == 0 {
                    lemma_str_lt_irreflexive(t);
                }
                assert(a2[m - 1] == t);
            }
        }
        lemma_sorted_unique(a2, b2);
        assert(a =~= seq![a[0]] + a2);
        assert(b =~= seq![b[0]] + b2);
    }
}

/// Normalizing a normalized tag list gives it back: `r2` normalizes `r`,
/// which normalizes `raw`, so `r2` is `r`.
pub proof fn lemma_normalize_idempotent(
    raw: Seq<Seq<char>>,
    r: Seq<Seq<char>>,
    r2: Seq<Seq<char>>,
)
    requires
        is_tag_list_of(r, raw),
        is_tag_list_of(r2, r),
    ensures
        r2 == r,
{
    assert forall|t: Seq<char>| r2.contains(t) <==> r.contains(t) by {
        if r2.contains(t) {
            assert(is_tag_of(r, t));
            let i = choose|i: int| 0 <= i < r.len() && label(#[trigger] r[i]) == t;
            assert(r.contains(r[i]));
            assert(is_tag_of(raw, r[i]));
            let k = choose|k: int| 0 <= k < raw.len() && label(#[trigger] raw[k]) == r[i];
            lemma_label_idempotent(raw[k]);
        }
        if r.contains(t) {
            assert(is_tag_of(raw, t));
            let k = choose|k: int| 0 <= k < raw.len() && label(#[trigger] raw[k]) == t;
            lemma_label_idempotent(raw[k]);
            let i = choose|i: int| 0 <= i < r.len() && r[i] == t;
            assert(label(r[i]) == t);
            assert(is_tag_of(r, t));
        }
    }
    lemma_sorted_unique(r2, r);
}

/// How many leading elements of `r` are smaller than `x`.
pub open spec fn count_less(r: Seq<Seq<char>>, x: Seq<char>) -> int
    decreases r.len(),
{
    if r.len() > 0 && str_lt(r[0], x) {
        1 + count_less(r.drop_first(), x)
    } else {
        0
    }
}

proof fn lemma_count_less(r: Seq<Seq<char>>, x: Seq<char>)
    requires
        strictly_sorted(r),
    ensures
        0 <= count_less(r, x) <= r.len(),
        forall|k: int| 0 <= k < count_less(r, x) ==> str_lt(#[trigger] r[k], x),
        forall|k: int| count_less(r, x) <= k < r.len() ==> !str_lt(#[trigger] r[k], x),
    decreases r.len(),
{
    if r.len() > 0 && str_lt(r[0], x) {
        let t = r.drop_first();
        assert(strictly_sorted(t)) by {
            assert forall|i: int, j: int| 0 <= i < j < t.len() implies str_lt(t[i], t[j]) by {
                assert(t[i] == r[i + 1] && t[j] == r[j + 1]);
            }
        }
        lemma_count_less(t, x);
        assert forall|k: int| 0 <= k < count_less(r, x) implies str_lt(#[trigger] r[k], x) by {
            if k > 0 {
                assert(r[k] == t[k - 1]);
            }
        }
        assert forall|k: int| count_less(r, x) <= k < r.len() implies !str_lt(
            #[trigger] r[k],
            x,
        ) by {
            assert(r[k] == t[k - 1]);
        }
    } else if r.len() > 0 {
        assert forall|k: int| 0 <= k < r.len() implies !str_lt(#[trigger] r[k], x) by {
            if k > 0 && str_lt(r[k], x) {
                assert(str_lt(r[0], r[k]));
                lemma_str_lt_transitive(r[0], r[k], x);
            }
        }
    }
}

proof fn lemma_insert_sorted_tag(r: Seq<Seq<char>>, x: Seq<char>)
    requires
        strictly_sorted(r),
        !r.contains(x),
    ensures
        strictly_sorted(r.take(count_less(r, x)) + seq![x] + r.skip(count_less(r, x))),
        forall|t: Seq<char>|
            (r.take(count_less(r, x)) + seq![x] + r.skip(count_less(r, x))).contains(t) <==> (
            r.contains(t) || t == x),
{
    lemma_count_less(r, x);
    let p = count_less(r, x);
    let q = r.take(p) + seq![x] + r.skip(p);
    if p < r.len() {
        assert(r[p] != x);
        lemma_str_lt_total(r[p], x);
    }
    assert forall|k: int| p <= k < r.len() implies str_lt(x, #[trigger] r[k]) by {
        assert(r[k] != x);
        lemma_str_lt_total(r[k], x);
    }
    assert forall|i: int, j: int| 0 <= i < j < q.len() implies str_lt(q[i], q[j]) by {
        if j < p {
            assert(q[i] == r[i] && q[j] == r[j]);
        } else if j == p {
            assert(q[i] == r[i]);
        } else if i < p {
            assert(q[i] == r[i] && q[j] == r[j - 1]);
            lemma_str_lt_transitive(r[i], x, r[j - 1]);
        } else if i == p {
            assert(q[j] == r[j - 1]);
        } else {
            assert(q[i] == r[i - 1] && q[j] == r[j - 1]);
        }
    }
    assert forall|t: Seq<char>| q.contains(t) <==> (r.contains(t) || t == x) by {
        if q.contains(t) {
            let i = choose|i: int| 0 <= i < q.len() && q[i] == t;
            if i < p {
                assert(r[i] == t);
            } else if i > p {
                assert(r[i - 1] == t);
            }
        }
        if r.contains(t) {
            let i = choose|i: int| 0 <= i < r.len() && r[i] == t;
            if i < p {
                assert(q[i] == t);
            } else {
                assert(q[i + 1] == t);
            }
        }
        if t == x {
            assert(q[p] == t);
        }
    }
}

/// Every list of raw tags has a normalized tag list.
pub proof fn lemma_tag_list_exists(raw: Seq<Seq<char>>)
    ensures
        is_tag_list_of(normalized(raw), raw),
    decreases raw.len(),
{
    if raw.len() == 0 {
        let e = Seq::<Seq<char>>::empty();
        assert(is_tag_list_of(e, raw));
    } else {
        let front = raw.drop_last();
        lemma_tag_list_exists(front);
        let r0 = normalized(front);
        let t = label(raw.last());
        assert forall|s: Seq<char>| is_tag_of(raw, s) <==> (is_tag_of(front, s) || (s == t
            && t.len() > 0)) by {
            if is_tag_of(raw, s) {
                let i = choose|i: int| 0 <= i < raw.len() && label(#[trigger] raw[i]) == s;
                if i < front.len() {
                    assert(front[i] == raw[i]);
                }
            }
            if is_tag_of(front, s) {
                let i = choose|i: int| 0 <= i < front.len() && label(#[trigger] front[i]) == s;
                assert(raw[i] == front[i]);
            }
            if s == t && t.len() > 0 {
                assert(raw[raw.len() - 1] == raw.last());
            }
        }
        if t.len() == 0 || r0.contains(t) {
            assert(is_tag_list_of(r0, raw));
        } else {
            lemma_insert_sorted_tag(r0, t);
            let p = count_less(r0, t);
            assert(is_tag_list_of(r0.take(p) + seq![t] + r0.skip(p), raw));
        }
    }
}

/// Normalizing twice is normalizing once.
pub proof fn lemma_normalized_idempotent(raw: Seq<Seq<char>>)
    ensures
        normalized(normalized(raw)) == normalized(raw),
{
    lemma_tag_list_exists(raw);
    lemma_tag_list_exists(normalized(raw));
    lemma_normalize_idempotent(raw, normalized(raw), normalized(normalized(raw)));
}

} // verus!
