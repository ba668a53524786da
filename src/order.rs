//! The order in which sections and symbols are listed: by name, compared
//! character by character on code points, with a stable insertion sort.

use vstd::prelude::*;

verus! {

broadcast use vstd::seq_lib::group_seq_properties;

/// `a` comes strictly before `b`: lexicographic order on code points, where a
/// proper prefix comes first.
pub open spec fn name_lt(a: Seq<char>, b: Seq<char>) -> bool
    decreases a.len(),
{
    if b.len() == 0 {
        false
    } else if a.len() == 0 {
        true
    } else if a[0] != b[0] {
        (a[0] as int) < (b[0] as int)
    } else {
        name_lt(a.drop_first(), b.drop_first())
    }
}

/// No name comes before itself, and of two names at most one comes first.
pub proof fn lemma_name_lt_asymmetric(a: Seq<char>, b: Seq<char>)
    ensures
        name_lt(a, b) ==> !name_lt(b, a),
    decreases a.len(),
{
    if a.len() > 0 && b.len() > 0 && a[0] == b[0] {
        lemma_name_lt_asymmetric(a.drop_first(), b.drop_first());
    }
}

/// Of two different names, one comes before the other.
pub proof fn lemma_name_lt_total(a: Seq<char>, b: Seq<char>)
    ensures
        a != b ==> name_lt(a, b) || name_lt(b, a),
    decreases a.len(),
{
    if a.len() > 0 && b.len() > 0 && a[0] == b[0] {
        lemma_name_lt_total(a.drop_first(), b.drop_first());
        if a.drop_first() == b.drop_first() {
            assert(a =~= seq![a[0]] + a.drop_first());
            assert(b =~= seq![b[0]] + b.drop_first());
        }
    } else if a.len() == 0 && b.len() == 0 {
        assert(a =~= b);
    } else if a.len() > 0 && b.len() > 0 {
        assert(a[0] as int != b[0] as int);
    }
}

/// If `a` comes before `c`, then any `b` comes after `a` or before `c`.
pub proof fn lemma_name_lt_split(a: Seq<char>, b: Seq<char>, c: Seq<char>)
    ensures
        name_lt(a, c) ==> name_lt(a, b) || name_lt(b, c),
    decreases a.len(),
{
    if a.len() > 0 && b.len() > 0 && c.len() > 0 {
        if a[0] == b[0] && b[0] == c[0] {
            lemma_name_lt_split(a.drop_first(), b.drop_first(), c.drop_first());
        } else {
            assert(a[0] != b[0] ==> a[0] as int != b[0] as int);
            assert(b[0] != c[0] ==> b[0] as int != c[0] as int);
            assert(a[0] != c[0] ==> a[0] as int != c[0] as int);
        }
    }
}

/// `a` comes strictly before `b`.
pub fn name_less(a: &Vec<char>, b: &Vec<char>) -> (r: bool)
    ensures
        r == name_lt(a@, b@),
{
    let mut i: usize = 0;
    while i < a.len() && i < b.len()
        invariant
            i <= a.len(),
            i <= b.len(),
            name_lt(a@, b@) == name_lt(a@.skip(i as int), b@.skip(i as int)),
        decreases a.len() - i,
    {
        if a[i] != b[i] {
            return a[i] < b[i];
        }
        assert(a@.skip(i as int).drop_first() =~= a@.skip(i + 1));
        assert(b@.skip(i as int).drop_first() =~= b@.skip(i + 1));
        i = i + 1;
    }
    i < b.len()
}

/// Where a stable insertion puts `x` into `s`: just after the last element
/// whose key does not come after the key of `x`.
pub open spec fn insert_pos<A>(s: Seq<A>, x: A, key: spec_fn(A) -> Seq<char>) -> int
    decreases s.len(),
{
    if s.len() == 0 {
        0
    } else if name_lt(key(x), key(s.last())) {
        insert_pos(s.drop_last(), x, key)
    } else {
        s.len() as int
    }
}

/// `s` in order of `key`, elements with equal keys kept in their order.
pub open spec fn sort_by_name<A>(s: Seq<A>, key: spec_fn(A) -> Seq<char>) -> Seq<A>
    decreases s.len(),
{
    if s.len() == 0 {
        s
    } else {
        let t = sort_by_name(s.drop_last(), key);
        t.insert(insert_pos(t, s.last(), key), s.last())
    }
}

/// No element of `s` has a key that comes before the key of an earlier one.
pub open spec fn is_sorted_by_name<A>(s: Seq<A>, key: spec_fn(A) -> Seq<char>) -> bool {
    forall|i: int, j: int|
        0 <= i < j < s.len() ==> !name_lt(#[trigger] key(s[j]), #[trigger] key(s[i]))
}

proof fn lemma_insert_pos<A>(s: Seq<A>, x: A, key: spec_fn(A) -> Seq<char>)
    ensures
        0 <= insert_pos(s, x, key) <= s.len(),
        forall|k: int|
            insert_pos(s, x, key) <= k < s.len() ==> name_lt(key(x), #[trigger] key(s[k])),
        insert_pos(s, x, key) > 0 ==> !name_lt(key(x), key(s[insert_pos(s, x, key) - 1])),
    decreases s.len(),
{
    if s.len() > 0 && name_lt(key(x), key(s.last())) {
        lemma_insert_pos(s.drop_last(), x, key);
        assert forall|k: int| insert_pos(s, x, key) <= k < s.len() implies name_lt(
            key(x),
            #[trigger] key(s[k]),
        ) by {
            if k < s.len() - 1 {
                assert(s[k] == s.drop_last()[k]);
            }
        }
    }
}

proof fn lemma_insert_keeps_sorted<A>(t: Seq<A>, x: A, key: spec_fn(A) -> Seq<char>)
    requires
        is_sorted_by_name(t, key),
    ensures
        is_sorted_by_name(t.insert(insert_pos(t, x, key), x), key),
{
    let p = insert_pos(t, x, key);
    lemma_insert_pos(t, x, key);
    let u = t.insert(p, x);
    assert forall|i: int, j: int| 0 <= i < j < u.len() implies !name_lt(
        #[trigger] key(u[j]),
        #[trigger] key(u[i]),
    ) by {
        if i == p {
            lemma_name_lt_asymmetric(key(x), key(t[j - 1]));
        } else if j == p {
            lemma_name_lt_split(key(x), key(t[p - 1]), key(t[i]));
        }
    }
}

/// The sorted sequence is in order.
pub proof fn lemma_sort_sorted<A>(s: Seq<A>, key: spec_fn(A) -> Seq<char>)
    ensures
        is_sorted_by_name(sort_by_name(s, key), key),
    decreases s.len(),
{
    if s.len() > 0 {
        lemma_sort_sorted(s.drop_last(), key);
        lemma_insert_keeps_sorted(sort_by_name(s.drop_last(), key), s.last(), key);
    }
}

/// The sorted sequence holds the same elements, each as often.
pub proof fn lemma_sort_permutes<A>(s: Seq<A>, key: spec_fn(A) -> Seq<char>)
    ensures
        sort_by_name(s, key).to_multiset() == s.to_multiset(),
        sort_by_name(s, key).len() == s.len(),
    decreases s.len(),
{
    broadcast use vstd::multiset::group_multiset_axioms;

    if s.len() > 0 {
        let t = sort_by_name(s.drop_last(), key);
        let x = s.last();
        lemma_sort_permutes(s.drop_last(), key);
        lemma_insert_pos(t, x, key);
        let p = insert_pos(t, x, key);
        let u = t.insert(p, x);
        assert(u.remove(p) =~= t);
        u.to_multiset_ensures();
        s.drop_last().to_multiset_ensures();
        assert(s.drop_last().push(x) =~= s);
        assert(u.to_multiset() =~= t.to_multiset().insert(x));
    }
}

/// Sorting what is already in order changes nothing.
pub proof fn lemma_sort_of_sorted<A>(s: Seq<A>, key: spec_fn(A) -> Seq<char>)
    requires
        is_sorted_by_name(s, key),
    ensures
        sort_by_name(s, key) == s,
    decreases s.len(),
{
    if s.len() > 0 {
        let d = s.drop_last();
        assert(is_sorted_by_name(d, key));
        lemma_sort_of_sorted(d, key);
        if d.len() > 0 {
            assert(!name_lt(key(s[s.len() - 1]), key(s[s.len() - 2])));
        }
        assert(d.insert(d.len() as int, s.last()) =~= s);
    }
}

/// Every element of the sorted sequence comes from the input.
pub proof fn lemma_sort_contains<A>(s: Seq<A>, key: spec_fn(A) -> Seq<char>, e: A)
    requires
        sort_by_name(s, key).contains(e),
    ensures
        s.contains(e),
{
    lemma_sort_permutes(s, key);
    s.to_multiset_ensures();
    sort_by_name(s, key).to_multiset_ensures();
    assert(sort_by_name(s, key).to_multiset().count(e) > 0);
    assert(s.to_multiset().count(e) > 0);
}

/// `insert_pos` is the one place past every element whose key does not come
/// after that of `x`, and before every element whose key does.
proof fn lemma_insert_pos_at<A>(t: Seq<A>, x: A, key: spec_fn(A) -> Seq<char>, p: int)
    requires
        0 <= p <= t.len(),
        forall|k: int| p <= k < t.len() ==> name_lt(key(x), #[trigger] key(t[k])),
        p > 0 ==> !name_lt(key(x), key(t[p - 1])),
    ensures
        insert_pos(t, x, key) == p,
    decreases t.len(),
{
    if p < t.len() {
        assert(name_lt(key(x), key(t[t.len() - 1])));
        assert forall|k: int| p <= k < t.len() - 1 implies name_lt(
            key(x),
            #[trigger] key(t.drop_last()[k]),
        ) by {
            assert(t.drop_last()[k] == t[k]);
        }
        lemma_insert_pos_at(t.drop_last(), x, key, p);
    }
}

/// An item that is listed by its name.
pub trait Named: View + Sized {
    /// The name of an item, from its model.
    spec fn model_name(m: Self::V) -> Seq<char>;

    /// The item's name, as characters.
    fn name_chars(&self) -> (r: Vec<char>)
        ensures
            r@ == Self::model_name(self@),
    ;
}

/// The models of a sequence of items.
pub open spec fn models_of<T: View>(s: Seq<T>) -> Seq<T::V> {
    s.map_values(|x: T| x@)
}

/// Items are ordered by their names.
pub open spec fn name_key<T: Named>() -> spec_fn(T::V) -> Seq<char> {
    |m: T::V| T::model_name(m)
}

/// Sorts `v` by name; items with equal names keep their order.
pub fn sort_named<T: Named>(v: &mut Vec<T>)
    ensures
        models_of(final(v)@) == sort_by_name(models_of(old(v)@), name_key::<T>()),
{
    let ghost key = name_key::<T>();
    let ghost orig = models_of(v@);
    let n = v.len();
    let mut i: usize = 0;
    while i < n
        invariant
            i <= n == v.len() == orig.len(),
            key == name_key::<T>(),
            orig == models_of(old(v)@),
            models_of(v@).subrange(0, i as int) == sort_by_name(orig.subrange(0, i as int), key),
            models_of(v@).subrange(i as int, n as int) == orig.subrange(i as int, n as int),
        decreases n - i,
    {
        let ghost t = models_of(v@).subrange(0, i as int);
        proof {
            lemma_sort_sorted(orig.subrange(0, i as int), key);
        }
        assert(orig[i as int] == models_of(v@).subrange(i as int, n as int)[0]);
        let ghost before = models_of(v@);
        let x = v.remove(i);
        let ghost w = models_of(v@);
        assert(w =~= before.remove(i as int));
        assert(forall|k: int| 0 <= k < i ==> w[k] == #[trigger] t[k]);
        let name = x.name_chars();
        let mut lo: usize = 0;
        let mut hi: usize = i;
        while lo < hi
            invariant
                lo <= hi <= i < n,
                v.len() == n - 1,
                models_of(v@) == w,
                forall|k: int| 0 <= k < i ==> w[k] == #[trigger] t[k],
                t.len() == i,
                key == name_key::<T>(),
                is_sorted_by_name(t, key),
                name@ == key(x@),
                forall|k: int| 0 <= k < lo ==> !name_lt(key(x@), #[trigger] key(t[k])),
                forall|k: int| hi <= k < i ==> name_lt(key(x@), #[trigger] key(t[k])),
            decreases hi - lo,
        {
            let mid = lo + (hi - lo) / 2;
            assert(w[mid as int] == t[mid as int]);
            let other = v[mid].name_chars();
            assert(v@[mid as int]@ == t[mid as int]);
            assert(other@ == T::model_name(t[mid as int]));
            assert(key(t[mid as int]) == T::model_name(t[mid as int]));
            if name_less(&name, &other) {
                assert forall|k: int| mid <= k < i implies name_lt(
                    key(x@),
                    #[trigger] key(t[k]),
                ) by {
                    if k > mid {
                        assert(!name_lt(key(t[k]), key(t[mid as int])));
                    }
                    lemma_name_lt_split(key(x@), key(t[k]), key(t[mid as int]));
                }
                hi = mid;
            } else {
                assert forall|k: int| 0 <= k <= mid implies !name_lt(
                    key(x@),
                    #[trigger] key(t[k]),
                ) by {
                    if k < mid {
                        assert(!name_lt(key(t[mid as int]), key(t[k])));
                    }
                    lemma_name_lt_split(key(x@), key(t[mid as int]), key(t[k]));
                }
                lo = mid + 1;
            }
        }
        proof {
            lemma_insert_pos_at(t, x@, key, lo as int);
        }
        let ghost xm = x@;
        v.insert(lo, x);
        let ghost u = models_of(v@);
        assert(u =~= w.insert(lo as int, xm));
        assert(orig.subrange(0, i + 1).drop_last() =~= orig.subrange(0, i as int));
        assert(u.subrange(0, i + 1) =~= t.insert(lo as int, xm));
        assert forall|k: int| i + 1 <= k < n implies u[k] == orig[k] by {
            assert(u[k] == w[k - 1]);
            assert(w[k - 1] == before[k]);
            assert(before[k] == before.subrange(i as int, n as int)[k - i]);
        }
        assert(u.subrange(i + 1, n as int) =~= orig.subrange(i + 1, n as int));
        i = i + 1;
    }
    assert(models_of(v@) =~= models_of(v@).subrange(0, n as int));
    assert(orig =~= orig.subrange(0, n as int));
}

/// Elements with equal keys are equal.
pub open spec fn keys_identify<A>(s: Seq<A>, key: spec_fn(A) -> Seq<char>) -> bool {
    forall|x: A, y: A|
        s.contains(x) && s.contains(y) && #[trigger] key(x) == #[trigger] key(y) ==> x == y
}

proof fn lemma_sorted_unique<A>(x: Seq<A>, y: Seq<A>, key: spec_fn(A) -> Seq<char>)
    requires
        is_sorted_by_name(x, key),
        is_sorted_by_name(y, key),
        x.to_multiset() == y.to_multiset(),
        keys_identify(x, key),
    ensures
        x == y,
    decreases x.len(),
{
    broadcast use vstd::multiset::group_multiset_axioms;

    x.to_multiset_ensures();
    y.to_multiset_ensures();
    if x.len() == 0 {
        assert(x =~= y);
    } else {
        let n = x.len() as int;
        let lx = x.last();
        let ly = y.last();
        assert(y.to_multiset().count(ly) > 0);
        assert(x.to_multiset().count(lx) > 0);
        let p = choose|p: int| 0 <= p < n && x[p] == ly;
        let q = choose|q: int| 0 <= q < n && y[q] == lx;
        if p < n - 1 {
            assert(!name_lt(key(x[n - 1]), key(x[p])));
        }
        if q < n - 1 {
            assert(!name_lt(key(y[n - 1]), key(y[q])));
        }
        lemma_name_lt_total(key(lx), key(ly));
        assert(x.contains(lx));
        assert(lx == ly);
        assert(x.remove(n - 1) =~= x.drop_last());
        assert(y.remove(n - 1) =~= y.drop_last());
        assert(x.drop_last().to_multiset() =~= y.drop_last().to_multiset());
        assert forall|a: A, b: A|
            x.drop_last().contains(a) && x.drop_last().contains(b) && #[trigger] key(a)
                == #[trigger] key(b) implies a == b by {
            let i = choose|i: int| 0 <= i < n - 1 && x.drop_last()[i] == a;
            let j = choose|j: int| 0 <= j < n - 1 && x.drop_last()[j] == b;
            assert(x[i] == a && x[j] == b);
        }
        lemma_sorted_unique(x.drop_last(), y.drop_last(), key);
        assert(x =~= x.drop_last().push(lx));
        assert(y =~= y.drop_last().push(ly));
    }
}

/// The sorted sequence depends only on which elements the input holds, not
/// on their order, where elements with equal keys are equal.
pub proof fn lemma_sort_ignores_order<A>(a: Seq<A>, b: Seq<A>, key: spec_fn(A) -> Seq<char>)
    requires
        a.to_multiset() == b.to_multiset(),
        keys_identify(a, key),
    ensures
        sort_by_name(a, key) == sort_by_name(b, key),
{
    lemma_sort_sorted(a, key);
    lemma_sort_sorted(b, key);
    lemma_sort_permutes(a, key);
    lemma_sort_permutes(b, key);
    let sa = sort_by_name(a, key);
    assert forall|x: A, y: A|
        sa.contains(x) && sa.contains(y) && #[trigger] key(x) == #[trigger] key(y) implies x
        == y by {
        lemma_sort_contains(a, key, x);
        lemma_sort_contains(a, key, y);
    }
    lemma_sorted_unique(sa, sort_by_name(b, key), key);
}

/// Sorting is idempotent.
pub proof fn lemma_sort_idempotent<A>(s: Seq<A>, key: spec_fn(A) -> Seq<char>)
    ensures
        sort_by_name(sort_by_name(s, key), key) == sort_by_name(s, key),
{
    lemma_sort_sorted(s, key);
    lemma_sort_of_sorted(sort_by_name(s, key), key);
}

} // verus!
