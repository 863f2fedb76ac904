//! Lexicographic text order and stable sorting by a text key.
use vstd::prelude::*;

verus! {

/// `a < b` in `String`'s order: lexicographic by code point (which is the
/// byte order of the UTF-8 encodings).
pub open spec fn str_lt(a: Seq<char>, b: Seq<char>) -> bool
    decreases a.len(),
{
    if a.len() == 0 {
        b.len() > 0
    } else if b.len() == 0 {
        false
    } else if (a[0] as u32) < (b[0] as u32) {
        true
    } else if (a[0] as u32) > (b[0] as u32) {
        false
    } else {
        str_lt(a.drop_first(), b.drop_first())
    }
}

/// Executable `str_lt`.
pub fn str_lt_exec(a: &[char], b: &[char]) -> (r: bool)
    ensures
        r == str_lt(a@, b@),
{
    let mut i: usize = 0;
    assert(a@.skip(0) =~= a@);
    assert(b@.skip(0) =~= b@);
    loop
        invariant
            i <= a@.len(),
            i <= b@.len(),
            str_lt(a@, b@) == str_lt(a@.skip(i as int), b@.skip(i as int)),
        decreases a@.len() - i,
    {
        if i == a.len() {
            return i < b.len();
        }
        if i == b.len() {
            return false;
        }
        let x = a[i] as u32;
        let y = b[i] as u32;
        assert(a@.skip(i as int)[0] == a@[i as int]);
        assert(b@.skip(i as int)[0] == b@[i as int]);
        if x < y {
            return true;
        }
        if x > y {
            return false;
        }
        assert(a@.skip(i as int).drop_first() =~= a@.skip(i + 1));
        assert(b@.skip(i as int).drop_first() =~= b@.skip(i + 1));
        i += 1;
    }
}

/// Inserts `x` into `s` after every element whose key is not greater than
/// `x`'s: one step of a stable insertion sort.
pub open spec fn insert_sorted<A>(s: Seq<A>, x: A, key: spec_fn(A) -> Seq<char>) -> Seq<A>
    decreases s.len(),
{
    if s.len() == 0 {
        seq![x]
    } else if str_lt(key(x), key(s[0])) {
        seq![x] + s
    } else {
        seq![s[0]] + insert_sorted(s.drop_first(), x, key)
    }
}

/// `s` sorted by `key`, elements with equal keys keeping their order (what
/// a stable sort such as `slice::sort_by_key` yields).
pub open spec fn sort_by_key<A>(s: Seq<A>, key: spec_fn(A) -> Seq<char>) -> Seq<A>
    decreases s.len(),
{
    if s.len() == 0 {
        s
    } else {
        insert_sorted(sort_by_key(s.drop_last(), key), s.last(), key)
    }
}

/// The insertion point of `insert_sorted` is the first element whose key is
/// greater than `x`'s.
pub proof fn lemma_insert_sorted_at<A>(s: Seq<A>, x: A, key: spec_fn(A) -> Seq<char>, p: int)
    requires
        0 <= p <= s.len(),
        forall|j: int| 0 <= j < p ==> !str_lt(key(x), #[trigger] key(s[j])),
        p == s.len() || str_lt(key(x), key(s[p])),
    ensures
        insert_sorted(s, x, key) == s.insert(p, x),
    decreases s.len(),
{
    if s.len() == 0 {
        assert(s.insert(p, x) =~= seq![x]);
    } else if p == 0 {
        assert(s.insert(p, x) =~= seq![x] + s);
    } else {
        let t = s.drop_first();
        assert forall|j: int| 0 <= j < p - 1 implies !str_lt(key(x), #[trigger] key(t[j])) by {
            assert(t[j] == s[j + 1]);
        }
        if p < s.len() {
            assert(t[p - 1] == s[p]);
        }
        lemma_insert_sorted_at(t, x, key, p - 1);
        assert(s.insert(p, x) =~= seq![s[0]] + t.insert(p - 1, x));
    }
}

/// Every element of a stable sort's output comes from its input, and the
/// output has the input's length.
pub proof fn lemma_sort_by_key_len<A>(s: Seq<A>, key: spec_fn(A) -> Seq<char>)
    ensures
        sort_by_key(s, key).len() == s.len(),
    decreases s.len(),
{
    if s.len() > 0 {
        lemma_sort_by_key_len(s.drop_last(), key);
        lemma_insert_sorted_len(sort_by_key(s.drop_last(), key), s.last(), key);
    }
}

proof fn lemma_insert_sorted_len<A>(s: Seq<A>, x: A, key: spec_fn(A) -> Seq<char>)
    ensures
        insert_sorted(s, x, key).len() == s.len() + 1,
    decreases s.len(),
{
    if s.len() > 0 && !str_lt(key(x), key(s[0])) {
        lemma_insert_sorted_len(s.drop_first(), x, key);
    }
}

/// Position at which `insert_sorted` puts an element of key `k` into the
/// list whose keys are `keys`.
pub fn insertion_point(keys: &Vec<Vec<char>>, k: &Vec<char>) -> (p: usize)
    ensures
        p <= keys@.len(),
        forall|j: int| 0 <= j < p ==> !str_lt(k@, #[trigger] keys@[j]@),
        p == keys@.len() || str_lt(k@, keys@[p as int]@),
{
    let mut p: usize = 0;
    while p < keys.len()
        invariant
            p <= keys@.len(),
            forall|j: int| 0 <= j < p ==> !str_lt(k@, #[trigger] keys@[j]@),
        decreases keys@.len() - p,
    {
        if str_lt_exec(k.as_slice(), keys[p].as_slice()) {
            return p;
        }
        p += 1;
    }
    p
}


/// Inserts `x` into `s` after every element whose key is not greater than
/// `x`'s (integer keys).
pub open spec fn insert_by_int<A>(s: Seq<A>, x: A, key: spec_fn(A) -> int) -> Seq<A>
    decreases s.len(),
{
    if s.len() == 0 {
        seq![x]
    } else if key(x) < key(s[0]) {
        seq![x] + s
    } else {
        seq![s[0]] + insert_by_int(s.drop_first(), x, key)
    }
}

/// `s` stably sorted by an integer `key`.
pub open spec fn sort_by_int_key<A>(s: Seq<A>, key: spec_fn(A) -> int) -> Seq<A>
    decreases s.len(),
{
    if s.len() == 0 {
        s
    } else {
        insert_by_int(sort_by_int_key(s.drop_last(), key), s.last(), key)
    }
}

pub proof fn lemma_insert_by_int_at<A>(s: Seq<A>, x: A, key: spec_fn(A) -> int, p: int)
    requires
        0 <= p <= s.len(),
        forall|j: int| 0 <= j < p ==> !(key(x) < #[trigger] key(s[j])),
        p == s.len() || key(x) < key(s[p]),
    ensures
        insert_by_int(s, x, key) == s.insert(p, x),
    decreases s.len(),
{
    if s.len() == 0 {
        assert(s.insert(p, x) =~= seq![x]);
    } else if p == 0 {
        assert(s.insert(p, x) =~= seq![x] + s);
    } else {
        let t = s.drop_first();
        assert forall|j: int| 0 <= j < p - 1 implies !(key(x) < #[trigger] key(t[j])) by {
            assert(t[j] == s[j + 1]);
        }
        if p < s.len() {
            assert(t[p - 1] == s[p]);
        }
        lemma_insert_by_int_at(t, x, key, p - 1);
        assert(s.insert(p, x) =~= seq![s[0]] + t.insert(p - 1, x));
    }
}

/// Keys in non-decreasing order.
pub open spec fn int_sorted<A>(s: Seq<A>, key: spec_fn(A) -> int) -> bool {
    forall|i: int, j: int| 0 <= i < j < s.len() ==> key(#[trigger] s[i]) <= key(#[trigger] s[j])
}

proof fn lemma_insert_by_int_sorted<A>(s: Seq<A>, x: A, key: spec_fn(A) -> int)
    requires
        int_sorted(s, key),
    ensures
        int_sorted(insert_by_int(s, x, key), key),
        insert_by_int(s, x, key).to_multiset() =~= s.to_multiset().insert(x),
    decreases s.len(),
{
    broadcast use vstd::seq_lib::group_to_multiset_ensures;
    if s.len() == 0 {
        assert(seq![x] =~= s.push(x));
    } else if key(x) < key(s[0]) {
        let r = seq![x] + s;
        assert forall|i: int, j: int| 0 <= i < j < r.len() implies key(#[trigger] r[i]) <= key(#[trigger] r[j]) by {
            if i == 0 {
                assert(r[j] == s[j - 1]);
                if j - 1 > 0 {
                    assert(key(s[0]) <= key(s[j - 1]));
                }
            } else {
                assert(r[i] == s[i - 1]);
                assert(r[j] == s[j - 1]);
            }
        }
        vstd::seq_lib::lemma_multiset_commutative(seq![x], s);
        assert(seq![x].to_multiset() =~= vstd::multiset::Multiset::empty().insert(x));
    } else {
        let t = s.drop_first();
        assert(int_sorted(t, key)) by {
            assert forall|i: int, j: int| 0 <= i < j < t.len() implies key(#[trigger] t[i]) <= key(#[trigger] t[j]) by {
                assert(t[i] == s[i + 1]);
                assert(t[j] == s[j + 1]);
            }
        }
        lemma_insert_by_int_sorted(t, x, key);
        let u = insert_by_int(t, x, key);
        let r = seq![s[0]] + u;
        assert forall|k: int| 0 <= k < u.len() implies key(s[0]) <= key(#[trigger] u[k]) by {
            assert(u.to_multiset().count(u[k]) > 0);
            if u[k] != x {
                assert(t.to_multiset().count(u[k]) > 0);
                let m = choose|m: int| 0 <= m < t.len() && t[m] == u[k];
                assert(t[m] == s[m + 1]);
            }
        }
        assert forall|i: int, j: int| 0 <= i < j < r.len() implies key(#[trigger] r[i]) <= key(#[trigger] r[j]) by {
            if i == 0 {
                assert(r[j] == u[j - 1]);
            } else {
                assert(r[i] == u[i - 1]);
                assert(r[j] == u[j - 1]);
            }
        }
        vstd::seq_lib::lemma_multiset_commutative(seq![s[0]], u);
        vstd::seq_lib::lemma_multiset_commutative(seq![s[0]], t);
        assert(seq![s[0]] + t =~= s);
    }
}

/// A stable sort by an integer key orders the keys and keeps exactly the
/// elements it was given.
pub proof fn lemma_sort_by_int_key_sorted<A>(s: Seq<A>, key: spec_fn(A) -> int)
    ensures
        int_sorted(sort_by_int_key(s, key), key),
        sort_by_int_key(s, key).to_multiset() =~= s.to_multiset(),
    decreases s.len(),
{
    broadcast use vstd::seq_lib::group_to_multiset_ensures;
    if s.len() > 0 {
        lemma_sort_by_int_key_sorted(s.drop_last(), key);
        lemma_insert_by_int_sorted(sort_by_int_key(s.drop_last(), key), s.last(), key);
        assert(s =~= s.drop_last().push(s.last()));
    }
}

/// Position at which `insert_by_int` puts an element of key `k` into the
/// list whose keys are `keys`.
pub fn int_insertion_point(keys: &Vec<i128>, k: i128) -> (p: usize)
    ensures
        p <= keys@.len(),
        forall|j: int| 0 <= j < p ==> !(k < #[trigger] keys@[j]),
        p == keys@.len() || k < keys@[p as int],
{
    let mut p: usize = 0;
    while p < keys.len()
        invariant
            p <= keys@.len(),
            forall|j: int| 0 <= j < p ==> !(k < #[trigger] keys@[j]),
        decreases keys@.len() - p,
    {
        if k < keys[p] {
            return p;
        }
        p += 1;
    }
    p
}

// ---------------------------------------------------------------------
// The text order is a strict total order, and sorting by a text key
// ---------------------------------------------------------------------

pub proof fn lemma_str_lt_irreflexive(a: Seq<char>)
    ensures
        !str_lt(a, a),
    decreases a.len(),
{
    if a.len() > 0 {
        lemma_str_lt_irreflexive(a.drop_first());
    }
}

pub proof fn lemma_str_lt_transitive(a: Seq<char>, b: Seq<char>, c: Seq<char>)
    requires
        str_lt(a, b),
        str_lt(b, c),
    ensures
        str_lt(a, c),
    decreases a.len(),
{
    if a.len() > 0 && b.len() > 0 && c.len() > 0 {
        if (a[0] as u32) == (b[0] as u32) && (b[0] as u32) == (c[0] as u32) {
            lemma_str_lt_transitive(a.drop_first(), b.drop_first(), c.drop_first());
        }
    }
}

pub proof fn lemma_str_lt_total(a: Seq<char>, b: Seq<char>)
    ensures
        a == b || str_lt(a, b) || str_lt(b, a),
    decreases a.len(),
{
    if a.len() > 0 && b.len() > 0 && (a[0] as u32) == (b[0] as u32) {
        lemma_str_lt_total(a.drop_first(), b.drop_first());
        if a.drop_first() == b.drop_first() {
            assert(a[0] == b[0]) by {
                let x = a[0];
                let y = b[0];
                vstd::utf8::char_u32_cast(x, x as u32);
                vstd::utf8::char_u32_cast(y, y as u32);
            }
            assert(a =~= seq![a[0]] + a.drop_first());
            assert(b =~= seq![b[0]] + b.drop_first());
        }
    } else if a.len() == 0 && b.len() == 0 {
        assert(a =~= b);
    }
}

/// Keys in non-decreasing text order.
pub open spec fn str_sorted<A>(s: Seq<A>, key: spec_fn(A) -> Seq<char>) -> bool {
    forall|i: int, j: int| 0 <= i < j < s.len() ==> !str_lt(key(#[trigger] s[j]), key(#[trigger] s[i]))
}

/// No two elements share a key.
pub open spec fn distinct_keys<A>(s: Seq<A>, key: spec_fn(A) -> Seq<char>) -> bool {
    forall|i: int, j: int| 0 <= i < s.len() && 0 <= j < s.len() && i != j ==> key(#[trigger] s[i]) != key(#[trigger] s[j])
}

proof fn lemma_insert_sorted_sorted<A>(s: Seq<A>, x: A, key: spec_fn(A) -> Seq<char>)
    requires
        str_sorted(s, key),
    ensures
        str_sorted(insert_sorted(s, x, key), key),
        insert_sorted(s, x, key).to_multiset() =~= s.to_multiset().insert(x),
    decreases s.len(),
{
    broadcast use vstd::seq_lib::group_to_multiset_ensures;
    if s.len() == 0 {
        assert(seq![x] =~= s.push(x));
    } else if str_lt(key(x), key(s[0])) {
        let r = seq![x] + s;
        assert forall|i: int, j: int| 0 <= i < j < r.len() implies !str_lt(key(#[trigger] r[j]), key(#[trigger] r[i])) by {
            if i == 0 {
                assert(r[j] == s[j - 1]);
                if str_lt(key(s[j - 1]), key(x)) {
                    lemma_str_lt_transitive(key(s[j - 1]), key(x), key(s[0]));
                    if j - 1 == 0 {
                        lemma_str_lt_irreflexive(key(s[0]));
                    }
                }
            } else {
                assert(r[i] == s[i - 1]);
                assert(r[j] == s[j - 1]);
            }
        }
        vstd::seq_lib::lemma_multiset_commutative(seq![x], s);
        assert(seq![x].to_multiset() =~= vstd::multiset::Multiset::empty().insert(x));
    } else {
        let t = s.drop_first();
        assert(str_sorted(t, key)) by {
            assert forall|i: int, j: int| 0 <= i < j < t.len() implies !str_lt(key(#[trigger] t[j]), key(#[trigger] t[i])) by {
                assert(t[i] == s[i + 1]);
                assert(t[j] == s[j + 1]);
            }
        }
        lemma_insert_sorted_sorted(t, x, key);
        let u = insert_sorted(t, x, key);
        let r = seq![s[0]] + u;
        assert forall|k: int| 0 <= k < u.len() implies !str_lt(key(#[trigger] u[k]), key(s[0])) by {
            assert(u.to_multiset().count(u[k]) > 0);
            if u[k] != x {
                assert(t.to_multiset().count(u[k]) > 0);
                let m = choose|m: int| 0 <= m < t.len() && t[m] == u[k];
                assert(t[m] == s[m + 1]);
            }
        }
        assert forall|i: int, j: int| 0 <= i < j < r.len() implies !str_lt(key(#[trigger] r[j]), key(#[trigger] r[i])) by {
            if i == 0 {
                assert(r[j] == u[j - 1]);
            } else {
                assert(r[i] == u[i - 1]);
                assert(r[j] == u[j - 1]);
            }
        }
        vstd::seq_lib::lemma_multiset_commutative(seq![s[0]], u);
        vstd::seq_lib::lemma_multiset_commutative(seq![s[0]], t);
        assert(seq![s[0]] + t =~= s);
    }
}

/// A stable sort by a text key orders the keys and keeps exactly the
/// elements it was given.
pub proof fn lemma_sort_by_key_sorted<A>(s: Seq<A>, key: spec_fn(A) -> Seq<char>)
    ensures
        str_sorted(sort_by_key(s, key), key),
        sort_by_key(s, key).to_multiset() =~= s.to_multiset(),
    decreases s.len(),
{
    broadcast use vstd::seq_lib::group_to_multiset_ensures;
    if s.len() > 0 {
        lemma_sort_by_key_sorted(s.drop_last(), key);
        lemma_insert_sorted_sorted(sort_by_key(s.drop_last(), key), s.last(), key);
        assert(s =~= s.drop_last().push(s.last()));
    }
}

/// Elements with distinct keys have one sorted order: two sorted
/// sequences holding the same elements are equal.
pub proof fn lemma_sorted_unique<A>(s: Seq<A>, t: Seq<A>, key: spec_fn(A) -> Seq<char>)
    requires
        str_sorted(s, key),
        str_sorted(t, key),
        s.to_multiset() == t.to_multiset(),
        distinct_keys(s, key),
    ensures
        s == t,
    decreases s.len(),
{
    broadcast use vstd::seq_lib::group_to_multiset_ensures;
    vstd::seq_lib::to_multiset_len(s);
    vstd::seq_lib::to_multiset_len(t);
    if s.len() == 0 {
        assert(s =~= t);
    } else {
        assert(s.to_multiset().count(s[0]) > 0);
        assert(t.to_multiset().count(s[0]) > 0);
        let k = choose|k: int| 0 <= k < t.len() && t[k] == s[0];
        assert(t.to_multiset().count(t[0]) > 0);
        assert(s.to_multiset().count(t[0]) > 0);
        let m = choose|m: int| 0 <= m < s.len() && s[m] == t[0];
        // key(s[0]) <= key(s[m]) = key(t[0]) <= key(t[k]) = key(s[0])
        if m != 0 {
            assert(!str_lt(key(s[m]), key(s[0])));
        }
        if k != 0 {
            assert(!str_lt(key(t[k]), key(t[0])));
        }
        lemma_str_lt_total(key(s[0]), key(t[0]));
        if m != 0 {
            assert(key(s[m]) != key(s[0]));
        }
        assert(t[0] == s[0]);
        let s1 = s.drop_first();
        let t1 = t.drop_first();
        assert(s.remove(0) =~= s1);
        assert(t.remove(0) =~= t1);
        vstd::seq_lib::to_multiset_remove(s, 0);
        vstd::seq_lib::to_multiset_remove(t, 0);
        assert(s1.to_multiset() =~= t1.to_multiset());
        assert(str_sorted(s1, key)) by {
            assert forall|i: int, j: int| 0 <= i < j < s1.len() implies !str_lt(key(#[trigger] s1[j]), key(#[trigger] s1[i])) by {
                assert(s1[i] == s[i + 1]);
                assert(s1[j] == s[j + 1]);
            }
        }
        assert(str_sorted(t1, key)) by {
            assert forall|i: int, j: int| 0 <= i < j < t1.len() implies !str_lt(key(#[trigger] t1[j]), key(#[trigger] t1[i])) by {
                assert(t1[i] == t[i + 1]);
                assert(t1[j] == t[j + 1]);
            }
        }
        assert(distinct_keys(s1, key)) by {
            assert forall|i: int, j: int| 0 <= i < s1.len() && 0 <= j < s1.len() && i != j implies key(#[trigger] s1[i]) != key(
                #[trigger] s1[j],
            ) by {
                assert(s1[i] == s[i + 1]);
                assert(s1[j] == s[j + 1]);
            }
        }
        lemma_sorted_unique(s1, t1, key);
        assert(s =~= seq![s[0]] + s1);
        assert(t =~= seq![t[0]] + t1);
    }
}

/// Sorting elements with distinct keys does not depend on the order they
/// came in.
pub proof fn lemma_sort_ignores_order<A>(s: Seq<A>, t: Seq<A>, key: spec_fn(A) -> Seq<char>)
    requires
        s.to_multiset() == t.to_multiset(),
        distinct_keys(s, key),
    ensures
        sort_by_key(s, key) == sort_by_key(t, key),
{
    lemma_sort_by_key_sorted(s, key);
    lemma_sort_by_key_sorted(t, key);
    let a = sort_by_key(s, key);
    broadcast use vstd::seq_lib::group_to_multiset_ensures;
    assert(distinct_keys(a, key)) by {
        assert forall|i: int, j: int| 0 <= i < a.len() && 0 <= j < a.len() && i != j implies key(#[trigger] a[i]) != key(
            #[trigger] a[j],
        ) by {
            assert(a.to_multiset().count(a[i]) > 0);
            assert(a.to_multiset().count(a[j]) > 0);
            let p = choose|p: int| 0 <= p < s.len() && s[p] == a[i];
            let q = choose|q: int| 0 <= q < s.len() && s[q] == a[j];
            if p == q {
                // a[i] == a[j] at two places: then it occurs twice in `a`,
                // so twice in `s`, where it is at one place only.
                lemma_count_two(a, i, j);
                lemma_count_one(s, p, key);
            }
        }
    }
    lemma_sorted_unique(a, sort_by_key(t, key), key);
}

proof fn lemma_count_two<A>(s: Seq<A>, i: int, j: int)
    requires
        0 <= i < s.len(),
        0 <= j < s.len(),
        i != j,
        s[i] == s[j],
    ensures
        s.to_multiset().count(s[i]) >= 2,
    decreases s.len(),
{
    broadcast use vstd::seq_lib::group_to_multiset_ensures;
    let n = s.len() - 1;
    assert(s =~= s.drop_last().push(s.last()));
    if i == n {
        assert(s.drop_last()[j] == s[j]);
        assert(s.drop_last().to_multiset().count(s[j]) > 0);
    } else if j == n {
        assert(s.drop_last()[i] == s[i]);
        assert(s.drop_last().to_multiset().count(s[i]) > 0);
    } else {
        assert(s.drop_last()[i] == s[i]);
        assert(s.drop_last()[j] == s[j]);
        lemma_count_two(s.drop_last(), i, j);
    }
}

proof fn lemma_count_one<A>(s: Seq<A>, p: int, key: spec_fn(A) -> Seq<char>)
    requires
        0 <= p < s.len(),
        distinct_keys(s, key),
    ensures
        s.to_multiset().count(s[p]) == 1,
    decreases s.len(),
{
    broadcast use vstd::seq_lib::group_to_multiset_ensures;
    let n = s.len() - 1;
    let d = s.drop_last();
    assert(s =~= d.push(s.last()));
    assert(distinct_keys(d, key)) by {
        assert forall|i: int, j: int| 0 <= i < d.len() && 0 <= j < d.len() && i != j implies key(#[trigger] d[i]) != key(#[trigger] d[j]) by {
            assert(d[i] == s[i]);
            assert(d[j] == s[j]);
        }
    }
    if p == n {
        assert(d.to_multiset().count(s[p]) == 0) by {
            if d.to_multiset().count(s[p]) > 0 {
                let q = choose|q: int| 0 <= q < d.len() && d[q] == s[p];
                assert(s[q] == s[p]);
            }
        }
    } else {
        assert(d[p] == s[p]);
        lemma_count_one(d, p, key);
        assert(s.last() != s[p]);
    }
}

/// Mapping the elements by a function that keeps their keys commutes with
/// the insertion step.
pub proof fn lemma_insert_sorted_map<A>(s: Seq<A>, x: A, key: spec_fn(A) -> Seq<char>, f: spec_fn(A) -> A)
    requires
        forall|a: A| #[trigger] key(f(a)) == key(a),
    ensures
        insert_sorted(s, x, key).map_values(f) == insert_sorted(s.map_values(f), f(x), key),
    decreases s.len(),
{
    let m = s.map_values(f);
    assert(key(f(x)) == key(x));
    if s.len() == 0 {
        assert(seq![x].map_values(f) =~= seq![f(x)]);
    } else {
        assert(m[0] == f(s[0]));
        assert(key(f(s[0])) == key(s[0]));
        if str_lt(key(x), key(s[0])) {
            assert((seq![x] + s).map_values(f) =~= seq![f(x)] + m);
        } else {
            lemma_insert_sorted_map(s.drop_first(), x, key, f);
            assert(m.drop_first() =~= s.drop_first().map_values(f));
            assert((seq![s[0]] + insert_sorted(s.drop_first(), x, key)).map_values(f) =~= seq![f(s[0])]
                + insert_sorted(s.drop_first(), x, key).map_values(f));
        }
    }
}

/// Mapping the elements by a function that keeps their keys commutes with
/// sorting.
pub proof fn lemma_sort_by_key_map<A>(s: Seq<A>, key: spec_fn(A) -> Seq<char>, f: spec_fn(A) -> A)
    requires
        forall|a: A| #[trigger] key(f(a)) == key(a),
    ensures
        sort_by_key(s, key).map_values(f) == sort_by_key(s.map_values(f), key),
    decreases s.len(),
{
    if s.len() > 0 {
        lemma_sort_by_key_map(s.drop_last(), key, f);
        assert(s.map_values(f).drop_last() =~= s.drop_last().map_values(f));
        lemma_insert_sorted_map(sort_by_key(s.drop_last(), key), s.last(), key, f);
    }
}

/// Two sequences holding the same elements still do after mapping both by
/// the same function.
pub proof fn lemma_map_keeps_permutation<A, B>(s: Seq<A>, t: Seq<A>, f: spec_fn(A) -> B)
    requires
        s.to_multiset() == t.to_multiset(),
    ensures
        s.map_values(f).to_multiset() == t.map_values(f).to_multiset(),
    decreases s.len(),
{
    broadcast use vstd::seq_lib::group_to_multiset_ensures;
    broadcast use vstd::multiset::group_multiset_axioms;
    vstd::seq_lib::to_multiset_len(s);
    vstd::seq_lib::to_multiset_len(t);
    if s.len() == 0 {
        assert(s.map_values(f) =~= t.map_values(f));
    } else {
        let x = s.last();
        let d = s.drop_last();
        assert(s =~= d.push(x));
        assert(s.to_multiset().count(x) > 0);
        assert(t.to_multiset().count(x) > 0);
        let j = choose|j: int| 0 <= j < t.len() && t[j] == x;
        let t1 = t.remove(j);
        vstd::seq_lib::to_multiset_remove(t, j);
        assert(d.to_multiset() =~= t1.to_multiset());
        lemma_map_keeps_permutation(d, t1, f);
        let ms = s.map_values(f);
        let mt = t.map_values(f);
        assert(ms =~= d.map_values(f).push(f(x)));
        assert(mt.remove(j) =~= t1.map_values(f));
        assert(mt[j] == f(x));
        vstd::seq_lib::to_multiset_remove(mt, j);
        assert(mt.to_multiset().count(f(x)) > 0);
        assert(ms.to_multiset() =~= mt.to_multiset());
    }
}

} // verus!

