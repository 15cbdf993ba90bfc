//! The order of texts by code point (the order of `str::cmp`), the order of tuples of
//! texts built on it, and a stable sort by such tuples.
use vstd::prelude::*;

verus! {

/// `a` comes before `b`: at the first position where they differ the character of `a` has
/// the lower code point, or `a` is a proper prefix of `b`. For UTF-8 text this is the
/// byte order that `str::cmp` uses.
pub open spec fn text_lt(a: Seq<char>, b: Seq<char>) -> bool
    decreases a.len(),
{
    if a.len() == 0 {
        b.len() > 0
    } else if b.len() == 0 {
        false
    } else if a[0] != b[0] {
        (a[0] as int) < (b[0] as int)
    } else {
        text_lt(a.drop_first(), b.drop_first())
    }
}

/// No text comes before itself.
pub proof fn lemma_text_lt_irreflexive(a: Seq<char>)
    ensures
        !text_lt(a, a),
    decreases a.len(),
{
    if a.len() > 0 {
        lemma_text_lt_irreflexive(a.drop_first());
    }
}

/// The order of texts is transitive.
pub proof fn lemma_text_lt_transitive(a: Seq<char>, b: Seq<char>, c: Seq<char>)
    requires
        text_lt(a, b),
        text_lt(b, c),
    ensures
        text_lt(a, c),
    decreases a.len(),
{
    if a.len() > 0 && b.len() > 0 && c.len() > 0 && a[0] == b[0] && b[0] == c[0] {
        lemma_text_lt_transitive(a.drop_first(), b.drop_first(), c.drop_first());
    }
}

/// Of two different texts one comes before the other.
pub proof fn lemma_text_lt_total(a: Seq<char>, b: Seq<char>)
    ensures
        a != b ==> text_lt(a, b) || text_lt(b, a),
    decreases a.len(),
{
    if a.len() > 0 && b.len() > 0 && a[0] != b[0] {
        assert((a[0] as int) != (b[0] as int));
    }
    if a.len() > 0 && b.len() > 0 && a[0] == b[0] {
        lemma_text_lt_total(a.drop_first(), b.drop_first());
        if a.drop_first() == b.drop_first() {
            assert(a =~= seq![a[0]] + a.drop_first());
            assert(b =~= seq![b[0]] + b.drop_first());
        }
    }
    if a.len() == 0 && b.len() == 0 {
        assert(a =~= b);
    }
}

/// `a` comes before `b` when their texts are compared in turn, each by `text_lt`.
pub open spec fn keys_lt(a: Seq<Seq<char>>, b: Seq<Seq<char>>) -> bool
    decreases a.len(),
{
    if a.len() == 0 {
        b.len() > 0
    } else if b.len() == 0 {
        false
    } else if a[0] != b[0] {
        text_lt(a[0], b[0])
    } else {
        keys_lt(a.drop_first(), b.drop_first())
    }
}

/// No key comes before itself.
pub proof fn lemma_keys_lt_irreflexive(a: Seq<Seq<char>>)
    ensures
        !keys_lt(a, a),
    decreases a.len(),
{
    if a.len() > 0 {
        lemma_keys_lt_irreflexive(a.drop_first());
    }
}

/// The order of keys is transitive.
pub proof fn lemma_keys_lt_transitive(a: Seq<Seq<char>>, b: Seq<Seq<char>>, c: Seq<Seq<char>>)
    requires
        keys_lt(a, b),
        keys_lt(b, c),
    ensures
        keys_lt(a, c),
    decreases a.len(),
{
    if a.len() > 0 && b.len() > 0 && c.len() > 0 {
        if a[0] == b[0] && b[0] == c[0] {
            lemma_keys_lt_transitive(a.drop_first(), b.drop_first(), c.drop_first());
        } else if a[0] != b[0] && b[0] != c[0] {
            lemma_text_lt_transitive(a[0], b[0], c[0]);
            if a[0] == c[0] {
                lemma_text_lt_irreflexive(a[0]);
            }
        }
    }
}

/// Of two different keys one comes before the other.
pub proof fn lemma_keys_lt_total(a: Seq<Seq<char>>, b: Seq<Seq<char>>)
    ensures
        a != b ==> keys_lt(a, b) || keys_lt(b, a),
    decreases a.len(),
{
    if a.len() > 0 && b.len() > 0 {
        if a[0] == b[0] {
            lemma_keys_lt_total(a.drop_first(), b.drop_first());
            if a.drop_first() == b.drop_first() {
                assert(a =~= seq![a[0]] + a.drop_first());
                assert(b =~= seq![b[0]] + b.drop_first());
            }
        } else {
            lemma_text_lt_total(a[0], b[0]);
        }
    }
    if a.len() == 0 && b.len() == 0 {
        assert(a =~= b);
    }
}

/// Whether text `a` comes before text `b`.
pub fn text_less(a: &Vec<char>, b: &Vec<char>) -> (r: bool)
    ensures
        r == text_lt(a@, b@),
{
    let mut i: usize = 0;
    proof {
        assert(a@.subrange(0, a@.len() as int) =~= a@);
        assert(b@.subrange(0, b@.len() as int) =~= b@);
    }
    while i < a.len() && i < b.len() && a[i] == b[i]
        invariant
            i <= a.len(),
            i <= b.len(),
            text_lt(a@, b@) == text_lt(a@.subrange(i as int, a@.len() as int), b@.subrange(i as int, b@.len() as int)),
        decreases a.len() - i,
    {
        proof {
            assert(a@.subrange(i as int, a@.len() as int).drop_first() =~= a@.subrange(i + 1, a@.len() as int));
            assert(b@.subrange(i as int, b@.len() as int).drop_first() =~= b@.subrange(i + 1, b@.len() as int));
        }
        i = i + 1;
    }
    if i == a.len() {
        i < b.len()
    } else if i == b.len() {
        false
    } else {
        a[i] < b[i]
    }
}

fn text_equal(a: &Vec<char>, b: &Vec<char>) -> (r: bool)
    ensures
        r == (a@ == b@),
{
    if a.len() != b.len() {
        return false;
    }
    let mut i: usize = 0;
    while i < a.len()
        invariant
            i <= a.len(),
            a.len() == b.len(),
            forall|j: int| 0 <= j < i ==> a@[j] == b@[j],
        decreases a.len() - i,
    {
        if a[i] != b[i] {
            return false;
        }
        i = i + 1;
    }
    proof { assert(a@ =~= b@); }
    true
}

/// The texts of a key.
pub open spec fn key_view(k: Vec<Vec<char>>) -> Seq<Seq<char>> {
    k@.map_values(|t: Vec<char>| t@)
}

/// Whether key `a` comes before key `b`.
pub fn keys_less(a: &Vec<Vec<char>>, b: &Vec<Vec<char>>) -> (r: bool)
    ensures
        r == keys_lt(key_view(*a), key_view(*b)),
{
    let ghost x = key_view(*a);
    let ghost y = key_view(*b);
    let mut i: usize = 0;
    proof {
        assert(x.subrange(0, x.len() as int) =~= x);
        assert(y.subrange(0, y.len() as int) =~= y);
    }
    while i < a.len() && i < b.len() && text_equal(&a[i], &b[i])
        invariant
            i <= a.len(),
            i <= b.len(),
            x == key_view(*a),
            y == key_view(*b),
            keys_lt(x, y) == keys_lt(x.subrange(i as int, x.len() as int), y.subrange(i as int, y.len() as int)),
        decreases a.len() - i,
    {
        proof {
            assert(x.subrange(i as int, x.len() as int).drop_first() =~= x.subrange(i + 1, x.len() as int));
            assert(y.subrange(i as int, y.len() as int).drop_first() =~= y.subrange(i + 1, y.len() as int));
        }
        i = i + 1;
    }
    if i == a.len() {
        i < b.len()
    } else if i == b.len() {
        false
    } else {
        proof {
            assert(x[i as int] == a@[i as int]@);
            assert(y[i as int] == b@[i as int]@);
        }
        text_less(&a[i], &b[i])
    }
}

/// Position `x` goes before position `y` in a stable sort by the keys: a smaller key
/// first, and for equal keys the earlier position first.
pub open spec fn sorts_before(keys: Seq<Seq<Seq<char>>>, x: int, y: int) -> bool {
    keys_lt(keys[x], keys[y]) || (keys[x] == keys[y] && x < y)
}

proof fn lemma_insert_sorted(ks: Seq<Seq<Seq<char>>>, before: Seq<usize>, after: Seq<usize>, p: int, i: usize)
    requires
        0 <= p <= before.len(),
        i < ks.len(),
        after == before.insert(p, i),
        forall|k: int| 0 <= k < before.len() ==> #[trigger] before[k] < i,
        forall|j: int| 0 <= j < i ==> #[trigger] before.contains(j as usize),
        forall|a: int, b: int| 0 <= a < b < before.len() ==> sorts_before(ks, #[trigger] before[a] as int, #[trigger] before[b] as int),
        forall|k: int| 0 <= k < p ==> !keys_lt(ks[i as int], ks[#[trigger] before[k] as int]),
        p < before.len() ==> keys_lt(ks[i as int], ks[before[p] as int]),
    ensures
        forall|k: int| 0 <= k < after.len() ==> #[trigger] after[k] < i + 1,
        forall|j: int| 0 <= j < i + 1 ==> #[trigger] after.contains(j as usize),
        forall|a: int, b: int| 0 <= a < b < after.len() ==> sorts_before(ks, #[trigger] after[a] as int, #[trigger] after[b] as int),
{
    let ki = ks[i as int];
    assert forall|k: int| p <= k < before.len() implies keys_lt(ki, ks[#[trigger] before[k] as int]) by {
        if k > p {
            let x = ks[before[p] as int];
            let y = ks[before[k] as int];
            assert(sorts_before(ks, before[p] as int, before[k] as int));
            if keys_lt(x, y) {
                lemma_keys_lt_transitive(ki, x, y);
            }
        }
    }
    assert forall|k: int| 0 <= k < p implies sorts_before(ks, #[trigger] before[k] as int, i as int) by {
        lemma_keys_lt_total(ks[before[k] as int], ki);
    }
    assert forall|k: int| 0 <= k < after.len() implies #[trigger] after[k] < i + 1 by {
        if k < p {
            assert(after[k] == before[k]);
        } else if k > p {
            assert(after[k] == before[k - 1]);
        }
    }
    assert forall|j: int| 0 <= j < i + 1 implies #[trigger] after.contains(j as usize) by {
        if j < i {
            assert(before.contains(j as usize));
            let w = choose|w: int| 0 <= w < before.len() && before[w] == j as usize;
            if w < p {
                assert(after[w] == j as usize);
            } else {
                assert(after[w + 1] == j as usize);
            }
        } else {
            assert(after[p] == i);
        }
    }
    assert forall|a: int, b: int| 0 <= a < b < after.len() implies sorts_before(ks, #[trigger] after[a] as int, #[trigger] after[b] as int) by {
        if b < p {
            assert(after[a] == before[a] && after[b] == before[b]);
        } else if b == p {
            assert(after[a] == before[a]);
        } else if a == p {
            assert(after[b] == before[b - 1]);
        } else if a < p {
            assert(after[a] == before[a] && after[b] == before[b - 1]);
        } else {
            assert(after[a] == before[a - 1] && after[b] == before[b - 1]);
        }
    }
}

/// The keys of a list of keys.
pub open spec fn keys_view(keys: Seq<Vec<Vec<char>>>) -> Seq<Seq<Seq<char>>> {
    keys.map_values(|k: Vec<Vec<char>>| key_view(k))
}

/// The positions `0..n` in stable sorted order of their keys: every position once, a
/// smaller key first, equal keys in their original order.
pub fn stable_order(keys: &Vec<Vec<Vec<char>>>) -> (r: Vec<usize>)
    ensures
        r@.len() == keys@.len(),
        forall|k: int| 0 <= k < r.len() ==> #[trigger] r@[k] < keys@.len(),
        forall|j: int| 0 <= j < keys@.len() ==> #[trigger] r@.contains(j as usize),
        forall|a: int, b: int| 0 <= a < b < r.len() ==> sorts_before(keys_view(keys@), #[trigger] r@[a] as int, #[trigger] r@[b] as int),
{
    let ghost ks = keys_view(keys@);
    let mut r: Vec<usize> = Vec::new();
    let mut i: usize = 0;
    while i < keys.len()
        invariant
            i <= keys@.len(),
            ks == keys_view(keys@),
            forall|k: int| 0 <= k < r.len() ==> #[trigger] r@[k] < i,
            forall|j: int| 0 <= j < i ==> #[trigger] r@.contains(j as usize),
            forall|a: int, b: int| 0 <= a < b < r.len() ==> sorts_before(ks, #[trigger] r@[a] as int, #[trigger] r@[b] as int),
        decreases keys@.len() - i,
    {
        let mut p: usize = 0;
        while p < r.len() && !keys_less(&keys[i], &keys[r[p]])
            invariant
                p <= r.len(),
                i < keys@.len(),
                ks == keys_view(keys@),
                forall|k: int| 0 <= k < r.len() ==> #[trigger] r@[k] < i,
                forall|k: int| 0 <= k < p ==> !keys_lt(ks[i as int], ks[#[trigger] r@[k] as int]),
            decreases r.len() - p,
        {
            proof {
                assert(ks[i as int] == key_view(keys@[i as int]));
                assert(ks[r@[p as int] as int] == key_view(keys@[r@[p as int] as int]));
            }
            p = p + 1;
        }
        proof {
            if p < r.len() {
                assert(ks[i as int] == key_view(keys@[i as int]));
                assert(ks[r@[p as int] as int] == key_view(keys@[r@[p as int] as int]));
            }
        }
        let ghost before = r@;
        r.insert(p, i);
        proof { lemma_insert_sorted(ks, before, r@, p as int, i); }
        i = i + 1;
    }
    proof {
        assert forall|a: int, b: int| 0 <= a < b < r.len() implies r@[a] != r@[b] by {
            if r@[a] == r@[b] {
                lemma_keys_lt_irreflexive(ks[r@[a] as int]);
            }
        }
        lemma_distinct_bounded_len(r@, keys@.len());
    }
    r
}

/// `less` is a strict total order on the positions `0..n`.
pub open spec fn strict_total_on(less: spec_fn(int, int) -> bool, n: int) -> bool {
    &&& forall|x: int| 0 <= x < n ==> !#[trigger] less(x, x)
    &&& forall|x: int, y: int, z: int|
        0 <= x < n && 0 <= y < n && 0 <= z < n && #[trigger] less(x, y) && #[trigger] less(y, z) ==> less(x, z)
    &&& forall|x: int, y: int| #![trigger less(x, y)] 0 <= x < n && 0 <= y < n && x != y ==> less(x, y) || less(y, x)
}

/// Positions in increasing order of `less`.
pub open spec fn ordered_by(less: spec_fn(int, int) -> bool, r: Seq<usize>) -> bool {
    forall|a: int, b: int| 0 <= a < b < r.len() ==> less(#[trigger] r[a] as int, #[trigger] r[b] as int)
}

/// Inserting position `i` in front of the first position that it goes before keeps a list
/// of the positions `0..i` ordered, and makes it one of the positions `0..i + 1`.
pub proof fn lemma_insert_ordered(less: spec_fn(int, int) -> bool, n: int, before: Seq<usize>, after: Seq<usize>, p: int, i: usize)
    requires
        strict_total_on(less, n),
        0 <= p <= before.len(),
        i < n,
        after == before.insert(p, i),
        forall|k: int| 0 <= k < before.len() ==> #[trigger] before[k] < i,
        forall|j: int| 0 <= j < i ==> #[trigger] before.contains(j as usize),
        ordered_by(less, before),
        forall|k: int| 0 <= k < p ==> !less(i as int, #[trigger] before[k] as int),
        p < before.len() ==> less(i as int, before[p] as int),
    ensures
        forall|k: int| 0 <= k < after.len() ==> #[trigger] after[k] < i + 1,
        forall|j: int| 0 <= j < i + 1 ==> #[trigger] after.contains(j as usize),
        ordered_by(less, after),
{
    assert forall|k: int| p <= k < before.len() implies less(i as int, #[trigger] before[k] as int) by {
        if k > p {
            assert(less(before[p] as int, before[k] as int));
        }
    }
    assert forall|k: int| 0 <= k < p implies less(#[trigger] before[k] as int, i as int) by {
        assert(!less(i as int, before[k] as int));
        assert(before[k] != i);
        assert(less(before[k] as int, i as int) || less(i as int, before[k] as int));
    }
    assert forall|k: int| 0 <= k < after.len() implies #[trigger] after[k] < i + 1 by {
        if k < p {
            assert(after[k] == before[k]);
        } else if k > p {
            assert(after[k] == before[k - 1]);
        }
    }
    assert forall|j: int| 0 <= j < i + 1 implies #[trigger] after.contains(j as usize) by {
        if j < i {
            assert(before.contains(j as usize));
            let w = choose|w: int| 0 <= w < before.len() && before[w] == j as usize;
            if w < p {
                assert(after[w] == j as usize);
            } else {
                assert(after[w + 1] == j as usize);
            }
        } else {
            assert(after[p] == i);
        }
    }
    assert forall|a: int, b: int| 0 <= a < b < after.len() implies less(#[trigger] after[a] as int, #[trigger] after[b] as int) by {
        if b < p {
            assert(after[a] == before[a] && after[b] == before[b]);
        } else if b == p {
            assert(after[a] == before[a]);
        } else if a == p {
            assert(after[b] == before[b - 1]);
        } else if a < p {
            assert(after[a] == before[a] && after[b] == before[b - 1]);
            assert(less(before[a] as int, i as int));
            assert(less(i as int, before[b - 1] as int));
        } else {
            assert(after[a] == before[a - 1] && after[b] == before[b - 1]);
        }
    }
}

/// Distinct positions below `n`, all of `0..n` present: exactly `n` of them, each once.
pub proof fn lemma_ordered_positions_complete(less: spec_fn(int, int) -> bool, r: Seq<usize>, n: nat)
    requires
        n <= usize::MAX,
        strict_total_on(less, n as int),
        ordered_by(less, r),
        forall|k: int| 0 <= k < r.len() ==> #[trigger] r[k] < n,
        forall|j: int| 0 <= j < n ==> #[trigger] r.contains(j as usize),
    ensures
        r.len() == n,
        r.no_duplicates(),
{
    assert forall|a: int, b: int| 0 <= a < b < r.len() implies r[a] != r[b] by {
        assert(less(r[a] as int, r[b] as int));
        if r[a] == r[b] {
            assert(!less(r[a] as int, r[a] as int));
        }
    }
    lemma_distinct_bounded_len(r, n);
    assert(r.no_duplicates()) by {
        assert forall|i: int, j: int| 0 <= i < r.len() && 0 <= j < r.len() && i != j implies r[i] != r[j] by {
            if i < j {} else {}
        }
    }
}

/// Distinct positions below `n`, all of `0..n` present: exactly `n` of them.
proof fn lemma_distinct_bounded_len(r: Seq<usize>, n: nat)
    requires
        n <= usize::MAX,
        forall|k: int| 0 <= k < r.len() ==> #[trigger] r[k] < n,
        forall|j: int| 0 <= j < n ==> #[trigger] r.contains(j as usize),
        forall|a: int, b: int| 0 <= a < b < r.len() ==> r[a] != r[b],
    ensures
        r.len() == n,
{
    let s = r.to_set();
    let full = Set::new(|x: usize| (x as int) < n);
    assert(s =~= full) by {
        assert forall|x: usize| s.contains(x) implies full.contains(x) by {
            let k = choose|k: int| 0 <= k < r.len() && r[k] == x;
        }
        assert forall|x: usize| full.contains(x) implies s.contains(x) by {
            assert(r.contains(x as usize));
        }
    }
    assert(r.no_duplicates()) by {
        assert forall|i: int, j: int| 0 <= i < r.len() && 0 <= j < r.len() && i != j implies r[i] != r[j] by {
            if i < j {} else {}
        }
    }
    r.unique_seq_to_set();
    lemma_range_set_len(n);
}

proof fn lemma_range_set_len(n: nat)
    requires
        n <= usize::MAX,
    ensures
        Set::new(|x: usize| (x as int) < n).finite(),
        Set::new(|x: usize| (x as int) < n).len() == n,
    decreases n,
{
    if n == 0 {
        assert(Set::new(|x: usize| (x as int) < n) =~= Set::<usize>::empty());
    } else {
        lemma_range_set_len((n - 1) as nat);
        let prev = Set::new(|x: usize| (x as int) < n - 1);
        assert(Set::new(|x: usize| (x as int) < n) =~= prev.insert((n - 1) as usize));
    }
}


/// Position `x` goes before position `y` in a stable sort by integer keys: a smaller key
/// first, and for equal keys the earlier position first.
pub open spec fn int_sorts_before(keys: Seq<i128>, x: int, y: int) -> bool {
    keys[x] < keys[y] || (keys[x] == keys[y] && x < y)
}

proof fn lemma_insert_sorted_int(ks: Seq<i128>, before: Seq<usize>, after: Seq<usize>, p: int, i: usize)
    requires
        0 <= p <= before.len(),
        i < ks.len(),
        after == before.insert(p, i),
        forall|k: int| 0 <= k < before.len() ==> #[trigger] before[k] < i,
        forall|j: int| 0 <= j < i ==> #[trigger] before.contains(j as usize),
        forall|a: int, b: int| 0 <= a < b < before.len() ==> int_sorts_before(ks, #[trigger] before[a] as int, #[trigger] before[b] as int),
        forall|k: int| 0 <= k < p ==> ks[#[trigger] before[k] as int] <= ks[i as int],
        p < before.len() ==> ks[i as int] < ks[before[p] as int],
    ensures
        forall|k: int| 0 <= k < after.len() ==> #[trigger] after[k] < i + 1,
        forall|j: int| 0 <= j < i + 1 ==> #[trigger] after.contains(j as usize),
        forall|a: int, b: int| 0 <= a < b < after.len() ==> int_sorts_before(ks, #[trigger] after[a] as int, #[trigger] after[b] as int),
{
    assert forall|k: int| p <= k < before.len() implies ks[i as int] < ks[#[trigger] before[k] as int] by {
        if k > p {
            assert(int_sorts_before(ks, before[p] as int, before[k] as int));
        }
    }
    assert forall|k: int| 0 <= k < after.len() implies #[trigger] after[k] < i + 1 by {
        if k < p {
            assert(after[k] == before[k]);
        } else if k > p {
            assert(after[k] == before[k - 1]);
        }
    }
    assert forall|j: int| 0 <= j < i + 1 implies #[trigger] after.contains(j as usize) by {
        if j < i {
            assert(before.contains(j as usize));
            let w = choose|w: int| 0 <= w < before.len() && before[w] == j as usize;
            if w < p {
                assert(after[w] == j as usize);
            } else {
                assert(after[w + 1] == j as usize);
            }
        } else {
            assert(after[p] == i);
        }
    }
    assert forall|a: int, b: int| 0 <= a < b < after.len() implies int_sorts_before(ks, #[trigger] after[a] as int, #[trigger] after[b] as int) by {
        if b < p {
            assert(after[a] == before[a] && after[b] == before[b]);
        } else if b == p {
            assert(after[a] == before[a]);
        } else if a == p {
            assert(after[b] == before[b - 1]);
        } else if a < p {
            assert(after[a] == before[a] && after[b] == before[b - 1]);
        } else {
            assert(after[a] == before[a - 1] && after[b] == before[b - 1]);
        }
    }
}

/// The positions `0..n` in stable sorted order of their integer keys: every position
/// once, a smaller key first, equal keys in their original order.
pub fn stable_order_int(keys: &Vec<i128>) -> (r: Vec<usize>)
    ensures
        r@.len() == keys@.len(),
        forall|k: int| 0 <= k < r.len() ==> #[trigger] r@[k] < keys@.len(),
        forall|j: int| 0 <= j < keys@.len() ==> #[trigger] r@.contains(j as usize),
        forall|a: int, b: int| 0 <= a < b < r.len() ==> int_sorts_before(keys@, #[trigger] r@[a] as int, #[trigger] r@[b] as int),
{
    let mut r: Vec<usize> = Vec::new();
    let mut i: usize = 0;
    while i < keys.len()
        invariant
            i <= keys@.len(),
            forall|k: int| 0 <= k < r.len() ==> #[trigger] r@[k] < i,
            forall|j: int| 0 <= j < i ==> #[trigger] r@.contains(j as usize),
            forall|a: int, b: int| 0 <= a < b < r.len() ==> int_sorts_before(keys@, #[trigger] r@[a] as int, #[trigger] r@[b] as int),
        decreases keys@.len() - i,
    {
        let key = keys[i];
        let mut p: usize = 0;
        while p < r.len() && keys[r[p]] <= key
            invariant
                p <= r.len(),
                i < keys@.len(),
                key == keys@[i as int],
                forall|k: int| 0 <= k < r.len() ==> #[trigger] r@[k] < i,
                forall|k: int| 0 <= k < p ==> keys@[#[trigger] r@[k] as int] <= key,
            decreases r.len() - p,
        {
            p = p + 1;
        }
        let ghost before = r@;
        r.insert(p, i);
        proof { lemma_insert_sorted_int(keys@, before, r@, p as int, i); }
        i = i + 1;
    }
    proof {
        assert forall|a: int, b: int| 0 <= a < b < r.len() implies r@[a] != r@[b] by {}
        lemma_distinct_bounded_len(r@, keys@.len());
    }
    r
}


/// `order` lists each position of `keys` once, in stable sorted order of the keys.
pub open spec fn is_int_order(keys: Seq<i128>, order: Seq<usize>) -> bool {
    &&& order.len() == keys.len()
    &&& forall|k: int| 0 <= k < order.len() ==> #[trigger] order[k] < keys.len()
    &&& forall|j: int| 0 <= j < keys.len() ==> #[trigger] order.contains(j as usize)
    &&& forall|a: int, b: int| 0 <= a < b < order.len() ==> int_sorts_before(keys, #[trigger] order[a] as int, #[trigger] order[b] as int)
}

/// The stable sorted order of positions by their keys.
pub open spec fn int_order(keys: Seq<i128>) -> Seq<usize> {
    choose|order: Seq<usize>| is_int_order(keys, order)
}

proof fn lemma_sorted_same_elements_equal(keys: Seq<i128>, o1: Seq<usize>, o2: Seq<usize>)
    requires
        o1.len() == o2.len(),
        forall|x: usize| o1.contains(x) <==> o2.contains(x),
        forall|k: int| 0 <= k < o1.len() ==> #[trigger] o1[k] < keys.len(),
        forall|a: int, b: int| 0 <= a < b < o1.len() ==> int_sorts_before(keys, #[trigger] o1[a] as int, #[trigger] o1[b] as int),
        forall|a: int, b: int| 0 <= a < b < o2.len() ==> int_sorts_before(keys, #[trigger] o2[a] as int, #[trigger] o2[b] as int),
    ensures
        o1 == o2,
    decreases o1.len(),
{
    if o1.len() == 0 {
        assert(o1 =~= o2);
    } else {
        assert(o1.contains(o1[0]));
        assert(o2.contains(o2[0]));
        let i = choose|i: int| 0 <= i < o2.len() && o2[i] == o1[0];
        let j = choose|j: int| 0 <= j < o1.len() && o1[j] == o2[0];
        if o1[0] != o2[0] {
            assert(i > 0 && j > 0);
            assert(int_sorts_before(keys, o1[0] as int, o1[j] as int));
            assert(int_sorts_before(keys, o2[0] as int, o2[i] as int));
            assert(false);
        }
        let t1 = o1.drop_first();
        let t2 = o2.drop_first();
        assert forall|x: usize| t1.contains(x) <==> t2.contains(x) by {
            if t1.contains(x) {
                let a = choose|a: int| 0 <= a < t1.len() && t1[a] == x;
                assert(o1[a + 1] == x);
                assert(x != o1[0]) by {
                    assert(int_sorts_before(keys, o1[0] as int, o1[a + 1] as int));
                }
                assert(o2.contains(x));
                let b = choose|b: int| 0 <= b < o2.len() && o2[b] == x;
                assert(b != 0);
                assert(t2[b - 1] == x);
            }
            if t2.contains(x) {
                let a = choose|a: int| 0 <= a < t2.len() && t2[a] == x;
                assert(o2[a + 1] == x);
                assert(x != o2[0]) by {
                    assert(int_sorts_before(keys, o2[0] as int, o2[a + 1] as int));
                }
                assert(o1.contains(x));
                let b = choose|b: int| 0 <= b < o1.len() && o1[b] == x;
                assert(b != 0);
                assert(t1[b - 1] == x);
            }
        }
        assert forall|a: int, b: int| 0 <= a < b < t1.len() implies int_sorts_before(keys, #[trigger] t1[a] as int, #[trigger] t1[b] as int) by {
            assert(t1[a] == o1[a + 1] && t1[b] == o1[b + 1]);
        }
        assert forall|a: int, b: int| 0 <= a < b < t2.len() implies int_sorts_before(keys, #[trigger] t2[a] as int, #[trigger] t2[b] as int) by {
            assert(t2[a] == o2[a + 1] && t2[b] == o2[b + 1]);
        }
        lemma_sorted_same_elements_equal(keys, t1, t2);
        assert(o1 =~= seq![o1[0]] + t1);
        assert(o2 =~= seq![o2[0]] + t2);
    }
}

/// There is exactly one stable sorted order of positions by their keys.
pub proof fn lemma_int_order_unique(keys: Seq<i128>, order: Seq<usize>)
    requires
        is_int_order(keys, order),
    ensures
        int_order(keys) == order,
{
    let other = int_order(keys);
    assert(is_int_order(keys, other));
    assert forall|x: usize| order.contains(x) <==> other.contains(x) by {
        if order.contains(x) {
            let a = choose|a: int| 0 <= a < order.len() && order[a] == x;
            let j = order[a] as int;
            assert(0 <= j < keys.len());
            assert(other.contains(j as usize));
        }
        if other.contains(x) {
            let a = choose|a: int| 0 <= a < other.len() && other[a] == x;
            let j = other[a] as int;
            assert(0 <= j < keys.len());
            assert(order.contains(j as usize));
        }
    }
    lemma_sorted_same_elements_equal(keys, order, other);
}

/// The stable sorted order of positions by their keys, every position once.
pub fn sorted_positions(keys: &Vec<i128>) -> (r: Vec<usize>)
    ensures
        is_int_order(keys@, r@),
        r@ == int_order(keys@),
{
    let r = stable_order_int(keys);
    proof { lemma_int_order_unique(keys@, r@); }
    r
}

/// Where a key goes among positions already in order: past every position whose key is
/// not greater, starting at `p`.
pub open spec fn insert_point(ks: Seq<i128>, r: Seq<usize>, key: i128, p: int) -> int
    decreases r.len() - p,
{
    if 0 <= p < r.len() && ks[r[p] as int] <= key { insert_point(ks, r, key, p + 1) } else { p }
}

proof fn lemma_insert_point(ks: Seq<i128>, r: Seq<usize>, key: i128, p: int)
    requires
        0 <= p <= r.len(),
        forall|k: int| 0 <= k < p ==> ks[#[trigger] r[k] as int] <= key,
        forall|a: int, b: int| 0 <= a < b < r.len() ==> int_sorts_before(ks, #[trigger] r[a] as int, #[trigger] r[b] as int),
        forall|k: int| 0 <= k < r.len() ==> #[trigger] r[k] < ks.len(),
    ensures
        p <= insert_point(ks, r, key, p) <= r.len(),
        forall|k: int| 0 <= k < insert_point(ks, r, key, p) ==> ks[#[trigger] r[k] as int] <= key,
        insert_point(ks, r, key, p) < r.len() ==> key < ks[r[insert_point(ks, r, key, p)] as int],
    decreases r.len() - p,
{
    if p < r.len() && ks[r[p] as int] <= key {
        lemma_insert_point(ks, r, key, p + 1);
    }
}

/// The positions `0..n` in stable sorted order of their keys, built by insertion.
pub open spec fn order_upto(ks: Seq<i128>, n: nat) -> Seq<usize>
    decreases n,
{
    if n == 0 {
        Seq::empty()
    } else {
        let r = order_upto(ks, (n - 1) as nat);
        r.insert(insert_point(ks, r, ks[n - 1], 0), (n - 1) as usize)
    }
}

proof fn lemma_order_upto(ks: Seq<i128>, n: nat)
    requires
        n <= ks.len(),
        n <= usize::MAX,
    ensures
        forall|k: int| 0 <= k < order_upto(ks, n).len() ==> #[trigger] order_upto(ks, n)[k] < n,
        forall|j: int| 0 <= j < n ==> #[trigger] order_upto(ks, n).contains(j as usize),
        forall|a: int, b: int| 0 <= a < b < order_upto(ks, n).len()
            ==> int_sorts_before(ks, #[trigger] order_upto(ks, n)[a] as int, #[trigger] order_upto(ks, n)[b] as int),
    decreases n,
{
    if n > 0 {
        let m = (n - 1) as nat;
        lemma_order_upto(ks, m);
        let r = order_upto(ks, m);
        assert forall|k: int| 0 <= k < r.len() implies #[trigger] r[k] < ks.len() by {}
        lemma_insert_point(ks, r, ks[m as int], 0);
        let p = insert_point(ks, r, ks[m as int], 0);
        lemma_insert_sorted_int(ks, r, order_upto(ks, n), p, m as usize);
    }
}

/// Every list of keys that positions can count has a stable sorted order.
pub proof fn lemma_int_order_exists(ks: Seq<i128>)
    requires
        ks.len() <= usize::MAX,
    ensures
        is_int_order(ks, int_order(ks)),
{
    let n = ks.len();
    lemma_order_upto(ks, n);
    let o = order_upto(ks, n);
    assert forall|a: int, b: int| 0 <= a < b < o.len() implies o[a] != o[b] by {
        assert(int_sorts_before(ks, o[a] as int, o[b] as int));
    }
    lemma_distinct_bounded_len(o, n);
    assert(is_int_order(ks, o));
}

} // verus!
