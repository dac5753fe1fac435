//! Ordered sets kept as strictly increasing vectors of strings or integers.
use vstd::prelude::*;
use vstd::string::*;

verus! {

/// Lexicographic order on character sequences, by code point; for strings
/// this is the order of their UTF-8 bytes.
pub open spec fn text_lt(a: Seq<char>, b: Seq<char>) -> bool
    decreases a.len(),
{
    if a.len() == 0 {
        b.len() > 0
    } else if b.len() == 0 {
        false
    } else if a[0] != b[0] {
        a[0] < b[0]
    } else {
        text_lt(a.skip(1), b.skip(1))
    }
}

/// The views of `v` are strictly increasing.
pub open spec fn strictly_sorted_text(v: Seq<Seq<char>>) -> bool {
    forall|i: int, j: int| 0 <= i < j < v.len() ==> text_lt(v[i], v[j])
}

/// The views of a vector of strings.
pub open spec fn views(v: Seq<String>) -> Seq<Seq<char>> {
    v.map_values(|s: String| s@)
}

/// `v` is strictly increasing.
pub open spec fn strictly_sorted_i32(v: Seq<i32>) -> bool {
    forall|i: int, j: int| 0 <= i < j < v.len() ==> v[i] < v[j]
}

/// Two distinct sequences are ordered one way or the other.
pub proof fn lemma_text_lt_total(a: Seq<char>, b: Seq<char>)
    ensures
        a != b ==> text_lt(a, b) || text_lt(b, a),
        !(text_lt(a, b) && text_lt(b, a)),
        !text_lt(a, a),
    decreases a.len(),
{
    if a.len() > 0 && b.len() > 0 && a[0] == b[0] {
        lemma_text_lt_total(a.skip(1), b.skip(1));
        if a.skip(1) == b.skip(1) {
            assert(a =~= seq![a[0]] + a.skip(1));
            assert(b =~= seq![b[0]] + b.skip(1));
        }
    }
    if a.len() == 0 && b.len() == 0 {
        assert(a =~= b);
    }
    if a.len() > 0 {
        lemma_text_lt_total(a.skip(1), a.skip(1));
    }
}

/// The order is transitive.
pub proof fn lemma_text_lt_trans(a: Seq<char>, b: Seq<char>, c: Seq<char>)
    requires
        text_lt(a, b),
        text_lt(b, c),
    ensures
        text_lt(a, c),
    decreases a.len(),
{
    if a.len() > 0 && b.len() > 0 && c.len() > 0 && a[0] == b[0] && b[0] == c[0] {
        lemma_text_lt_trans(a.skip(1), b.skip(1), c.skip(1));
    }
}

/// Whether `a` comes strictly before `b`.
pub fn str_lt(a: &str, b: &str) -> (r: bool)
    ensures
        r == text_lt(a@, b@),
{
    let n = a.unicode_len();
    let m = b.unicode_len();
    let mut i: usize = 0;
    assert(a@.skip(0) =~= a@);
    assert(b@.skip(0) =~= b@);
    while i < n && i < m
        invariant
            n == a@.len(),
            m == b@.len(),
            i <= n,
            i <= m,
            text_lt(a@, b@) == text_lt(a@.skip(i as int), b@.skip(i as int)),
        decreases n - i,
    {
        let x = a.get_char(i);
        let y = b.get_char(i);
        assert(a@.skip(i as int)[0] == x);
        assert(b@.skip(i as int)[0] == y);
        if x != y {
            return x < y;
        }
        assert(a@.skip(i as int).skip(1) =~= a@.skip(i + 1));
        assert(b@.skip(i as int).skip(1) =~= b@.skip(i + 1));
        i = i + 1;
    }
    i < m && i >= n
}

/// Inserts `x` into the strictly increasing vector `v`, unless an equal
/// string is already there.
pub fn insert_text(v: &mut Vec<String>, x: String)
    requires
        strictly_sorted_text(views(old(v)@)),
    ensures
        strictly_sorted_text(views(final(v)@)),
        views(final(v)@).to_set() == views(old(v)@).to_set().insert(x@),
{
    let ghost xs = views(v@);
    let n = v.len();
    let mut i: usize = 0;
    while i < n
        invariant
            n == v@.len(),
            xs == views(v@),
            i <= n,
            forall|k: int| 0 <= k < i ==> text_lt(#[trigger] xs[k], x@),
        ensures
            i <= n,
            i < n ==> !text_lt(xs[i as int], x@),
        decreases n - i,
    {
        if !str_lt(v[i].as_str(), x.as_str()) {
            break;
        }
        i = i + 1;
    }
    if i < n && v[i] == x {
        assert(xs[i as int] == x@);
        assert(xs.to_set().insert(x@) =~= xs.to_set());
        return;
    }
    proof {
        if i < n {
            lemma_text_lt_total(xs[i as int], x@);
        }
    }
    v.insert(i, x);
    proof {
        let ys = views(v@);
        assert(ys =~= xs.insert(i as int, x@));
        assert forall|b: int| i < b < ys.len() implies text_lt(x@, #[trigger] ys[b]) by {
            if b > i + 1 {
                lemma_text_lt_trans(x@, xs[i as int], xs[b - 1]);
            }
        }
        assert forall|a: int, b: int| 0 <= a < b < ys.len() implies text_lt(ys[a], ys[b]) by {
            if b == i {
                assert(text_lt(xs[a], x@));
            } else if a == i {
                assert(text_lt(x@, ys[b]));
            } else if a < i && b > i {
                assert(text_lt(xs[a], x@));
                assert(text_lt(x@, ys[b]));
                lemma_text_lt_trans(xs[a], x@, ys[b]);
            } else if a > i {
                assert(ys[a] == xs[a - 1] && ys[b] == xs[b - 1]);
            } else {
                assert(ys[a] == xs[a] && ys[b] == xs[b]);
            }
        }
        assert(ys.to_set() =~= xs.to_set().insert(x@)) by {
            assert forall|e| ys.to_set().contains(e) <==> xs.to_set().insert(x@).contains(e) by {
                if ys.contains(e) {
                    let k = choose|k: int| 0 <= k < ys.len() && ys[k] == e;
                    if k < i {
                        assert(xs[k] == e);
                    } else if k > i {
                        assert(xs[k - 1] == e);
                    }
                }
                if xs.contains(e) {
                    let k = choose|k: int| 0 <= k < xs.len() && xs[k] == e;
                    if k < i {
                        assert(ys[k] == e);
                    } else {
                        assert(ys[k + 1] == e);
                    }
                }
                if e == x@ {
                    assert(ys[i as int] == e);
                }
            }
        }
    }
}

/// Inserts `x` into the strictly increasing vector `v`, unless it is
/// already there.
pub fn insert_i32(v: &mut Vec<i32>, x: i32)
    requires
        strictly_sorted_i32(old(v)@),
    ensures
        strictly_sorted_i32(final(v)@),
        final(v)@.to_set() == old(v)@.to_set().insert(x),
{
    let ghost xs = v@;
    let n = v.len();
    let mut i: usize = 0;
    while i < n
        invariant
            n == v@.len(),
            xs == v@,
            i <= n,
            forall|k: int| 0 <= k < i ==> #[trigger] xs[k] < x,
        ensures
            i <= n,
            i < n ==> xs[i as int] >= x,
        decreases n - i,
    {
        if v[i] >= x {
            break;
        }
        i = i + 1;
    }
    if i < n && v[i] == x {
        assert(xs.to_set().insert(x) =~= xs.to_set());
        return;
    }
    v.insert(i, x);
    proof {
        let ys = v@;
        assert(ys =~= xs.insert(i as int, x));
        assert forall|a: int, b: int| 0 <= a < b < ys.len() implies ys[a] < ys[b] by {
            if b == i {
                assert(xs[a] < x);
            } else if a == i {
                assert(x < xs[i as int]);
                assert(xs[i as int] <= xs[b - 1]);
            } else if a < i && b > i {
                assert(xs[a] < x);
                assert(x < xs[i as int]);
                assert(xs[i as int] <= xs[b - 1]);
            } else if a > i {
                assert(ys[a] == xs[a - 1] && ys[b] == xs[b - 1]);
            } else {
                assert(ys[a] == xs[a] && ys[b] == xs[b]);
            }
        }
        assert(ys.to_set() =~= xs.to_set().insert(x)) by {
            assert forall|e| ys.to_set().contains(e) <==> xs.to_set().insert(x).contains(e) by {
                if ys.contains(e) {
                    let k = choose|k: int| 0 <= k < ys.len() && ys[k] == e;
                    if k < i {
                        assert(xs[k] == e);
                    } else if k > i {
                        assert(xs[k - 1] == e);
                    }
                }
                if xs.contains(e) {
                    let k = choose|k: int| 0 <= k < xs.len() && xs[k] == e;
                    if k < i {
                        assert(ys[k] == e);
                    } else {
                        assert(ys[k + 1] == e);
                    }
                }
                if e == x {
                    assert(ys[i as int] == e);
                }
            }
        }
    }
}

/// A strictly increasing sequence of strings is fixed by its elements: two
/// with the same elements are equal.
pub proof fn lemma_sorted_text_unique(a: Seq<Seq<char>>, b: Seq<Seq<char>>)
    requires
        strictly_sorted_text(a),
        strictly_sorted_text(b),
        a.to_set() == b.to_set(),
    ensures
        a == b,
    decreases a.len(),
{
    if a.len() == 0 {
        if b.len() > 0 {
            assert(b.to_set().contains(b[0]));
        }
        assert(a =~= b);
        return;
    }
    assert(a.to_set().contains(a[0]));
    assert(b.len() > 0);
    assert(b.to_set().contains(b[0]));
    let j = choose|j: int| 0 <= j < b.len() && b[j] == a[0];
    let i = choose|i: int| 0 <= i < a.len() && a[i] == b[0];
    if j > 0 {
        lemma_text_lt_total(a[0], a[0]);
        if i > 0 {
            lemma_text_lt_total(a[0], a[i]);
            assert(text_lt(b[0], b[j]));
        } else {
            assert(text_lt(b[0], b[j]));
        }
    }
    assert(a[0] == b[0]);
    let a1 = a.skip(1);
    let b1 = b.skip(1);
    assert forall|x: Seq<char>| a1.to_set().contains(x) <==> b1.to_set().contains(x) by {
        lemma_text_lt_total(x, x);
        if a1.contains(x) {
            let k = choose|k: int| 0 <= k < a1.len() && a1[k] == x;
            assert(text_lt(a[0], a[k + 1]));
            assert(a.to_set().contains(x));
            let m = choose|m: int| 0 <= m < b.len() && b[m] == x;
            if m == 0 {
                assert(false);
            }
            assert(b1[m - 1] == x);
        }
        if b1.contains(x) {
            let k = choose|k: int| 0 <= k < b1.len() && b1[k] == x;
            assert(text_lt(b[0], b[k + 1]));
            assert(b.to_set().contains(x));
            let m = choose|m: int| 0 <= m < a.len() && a[m] == x;
            if m == 0 {
                assert(false);
            }
            assert(a1[m - 1] == x);
        }
    }
    assert(a1.to_set() =~= b1.to_set());
    lemma_sorted_text_unique(a1, b1);
    assert(a =~= seq![a[0]] + a1);
    assert(b =~= seq![b[0]] + b1);
}

/// A strictly increasing sequence of integers is fixed by its elements.
pub proof fn lemma_sorted_i32_unique(a: Seq<i32>, b: Seq<i32>)
    requires
        strictly_sorted_i32(a),
        strictly_sorted_i32(b),
        a.to_set() == b.to_set(),
    ensures
        a == b,
    decreases a.len(),
{
    if a.len() == 0 {
        if b.len() > 0 {
            assert(b.to_set().contains(b[0]));
        }
        assert(a =~= b);
        return;
    }
    assert(a.to_set().contains(a[0]));
    assert(b.len() > 0);
    assert(b.to_set().contains(b[0]));
    let j = choose|j: int| 0 <= j < b.len() && b[j] == a[0];
    let i = choose|i: int| 0 <= i < a.len() && a[i] == b[0];
    if j > 0 {
        assert(b[0] < b[j]);
        if i > 0 {
            assert(a[0] < a[i]);
        }
    }
    assert(a[0] == b[0]);
    let a1 = a.skip(1);
    let b1 = b.skip(1);
    assert forall|x: i32| a1.to_set().contains(x) <==> b1.to_set().contains(x) by {
        if a1.contains(x) {
            let k = choose|k: int| 0 <= k < a1.len() && a1[k] == x;
            assert(a[0] < a[k + 1]);
            assert(a.to_set().contains(x));
            let m = choose|m: int| 0 <= m < b.len() && b[m] == x;
            assert(b1[m - 1] == x);
        }
        if b1.contains(x) {
            let k = choose|k: int| 0 <= k < b1.len() && b1[k] == x;
            assert(b[0] < b[k + 1]);
            assert(b.to_set().contains(x));
            let m = choose|m: int| 0 <= m < a.len() && a[m] == x;
            assert(a1[m - 1] == x);
        }
    }
    assert(a1.to_set() =~= b1.to_set());
    lemma_sorted_i32_unique(a1, b1);
    assert(a =~= seq![a[0]] + a1);
    assert(b =~= seq![b[0]] + b1);
}

} // verus!
