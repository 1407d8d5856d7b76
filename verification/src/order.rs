use vstd::prelude::*;

verus! {

/// `k` is the first index at which `a` and `b` differ (or the end of the shorter one).
pub open spec fn first_difference(a: Seq<i64>, b: Seq<i64>, k: int) -> bool {
    &&& 0 <= k <= a.len()
    &&& k <= b.len()
    &&& forall|j: int| 0 <= j < k ==> a[j] == b[j]
    &&& (k == a.len() || k == b.len() || a[k] != b[k])
}

/// Lexicographic "strictly less" on integer keys: a proper prefix comes first.
pub open spec fn key_lt(a: Seq<i64>, b: Seq<i64>) -> bool {
    exists|k: int|
        #![trigger first_difference(a, b, k)]
        first_difference(a, b, k) && (if k < a.len() && k < b.len() {
            a[k] < b[k]
        } else {
            a.len() < b.len()
        })
}

/// `a` must come before `b` under the sort direction (`desc` reverses the key order).
pub open spec fn goes_before(a: Seq<i64>, b: Seq<i64>, desc: bool) -> bool {
    if desc {
        key_lt(b, a)
    } else {
        key_lt(a, b)
    }
}

/// Inserts index `i` in front of the first entry of `order` that it goes before, which keeps
/// entries with equal keys in the relative order they had.
pub open spec fn insert_stable(keys: Seq<Seq<i64>>, order: Seq<usize>, i: usize, desc: bool) -> Seq<
    usize,
>
    decreases order.len(),
{
    if order.len() == 0 {
        seq![i]
    } else if goes_before(keys[i as int], keys[order[0] as int], desc) {
        seq![i] + order
    } else {
        seq![order[0]] + insert_stable(keys, order.drop_first(), i, desc)
    }
}

/// The order in which a stable sort places the first `n` keys.
pub open spec fn stable_order(keys: Seq<Seq<i64>>, desc: bool, n: nat) -> Seq<usize>
    decreases n,
{
    if n == 0 {
        seq![]
    } else {
        insert_stable(keys, stable_order(keys, desc, (n - 1) as nat), (n - 1) as usize, desc)
    }
}

/// The sequence of integer keys as they are stored in a vector of vectors.
pub open spec fn keys_view(keys: Seq<Vec<i64>>) -> Seq<Seq<i64>> {
    keys.map_values(|k: Vec<i64>| k@)
}

pub fn key_less(a: &Vec<i64>, b: &Vec<i64>) -> (r: bool)
    ensures
        r == key_lt(a@, b@),
{
    let mut i: usize = 0;
    while i < a.len() && i < b.len() && a[i] == b[i]
        invariant
            i <= a.len(),
            i <= b.len(),
            forall|j: int| 0 <= j < i ==> a@[j] == b@[j],
        decreases a.len() - i,
    {
        i = i + 1;
    }
    assert(first_difference(a@, b@, i as int));
    let r = if i < a.len() && i < b.len() {
        a[i] < b[i]
    } else {
        a.len() < b.len()
    };
    assert forall|k: int| first_difference(a@, b@, k) implies k == i by {
        if k < i {
        } else if k > i {
            assert(a@[i as int] == b@[i as int]);
        }
    }
    r
}

pub fn before(a: &Vec<i64>, b: &Vec<i64>, desc: bool) -> (r: bool)
    ensures
        r == goes_before(a@, b@, desc),
{
    if desc {
        key_less(b, a)
    } else {
        key_less(a, b)
    }
}

proof fn lemma_insert_at(keys: Seq<Seq<i64>>, order: Seq<usize>, i: usize, desc: bool, j: int)
    requires
        0 <= j <= order.len(),
        (i as int) < keys.len(),
        forall|m: int| 0 <= m < order.len() ==> (order[m] as int) < keys.len(),
        forall|m: int| 0 <= m < j ==> !goes_before(keys[i as int], keys[order[m] as int], desc),
        j < order.len() ==> goes_before(keys[i as int], keys[order[j] as int], desc),
    ensures
        insert_stable(keys, order, i, desc) == order.insert(j, i),
    decreases order.len(),
{
    if order.len() == 0 {
        assert(order.insert(j, i) =~= seq![i]);
    } else if j == 0 {
        assert(order.insert(j, i) =~= seq![i] + order);
    } else {
        let rest = order.drop_first();
        assert forall|m: int| 0 <= m < j - 1 implies !goes_before(
            keys[i as int],
            keys[rest[m] as int],
            desc,
        ) by {
            assert(rest[m] == order[m + 1]);
        }
        lemma_insert_at(keys, rest, i, desc, j - 1);
        assert(order.insert(j, i) =~= seq![order[0]] + rest.insert(j - 1, i));
    }
}

/// Indices `0..keys.len()` in the order a stable sort by `keys` gives them.
pub fn stable_sort_indices(keys: &Vec<Vec<i64>>, desc: bool) -> (order: Vec<usize>)
    ensures
        order@ == stable_order(keys_view(keys@), desc, keys@.len() as nat),
        order@.len() == keys@.len(),
        forall|m: int| 0 <= m < order@.len() ==> (order@[m] as int) < keys@.len(),
{
    let ghost kv = keys_view(keys@);
    let mut order: Vec<usize> = Vec::new();
    let mut i: usize = 0;
    while i < keys.len()
        invariant
            i <= keys.len(),
            kv == keys_view(keys@),
            kv.len() == keys@.len(),
            order@ == stable_order(kv, desc, i as nat),
            order@.len() == i,
            forall|m: int| 0 <= m < order@.len() ==> (order@[m] as int) < i,
        decreases keys.len() - i,
    {
        let mut j: usize = 0;
        while j < order.len() && !before(&keys[i], &keys[order[j]], desc)
            invariant
                i < keys.len(),
                kv == keys_view(keys@),
                kv.len() == keys@.len(),
                j <= order@.len(),
                order@.len() == i,
                forall|m: int| 0 <= m < order@.len() ==> (order@[m] as int) < i,
                forall|m: int|
                    0 <= m < j ==> !goes_before(kv[i as int], kv[order@[m] as int], desc),
            decreases order.len() - j,
        {
            assert(kv[order@[j as int] as int] == keys@[order@[j as int] as int]@);
            j = j + 1;
        }
        proof {
            if j < order@.len() {
                assert(kv[order@[j as int] as int] == keys@[order@[j as int] as int]@);
            }
            assert(kv[i as int] == keys@[i as int]@);
            lemma_insert_at(kv, order@, i, desc, j as int);
        }
        order.insert(j, i);
        i = i + 1;
    }
    order
}

} // verus!

verus! {

proof fn lemma_insert_stable_inserts(keys: Seq<Seq<i64>>, order: Seq<usize>, i: usize, desc: bool)
    ensures
        exists|j: int| 0 <= j <= order.len() && insert_stable(keys, order, i, desc) == order.insert(j, i),
    decreases order.len(),
{
    if order.len() == 0 {
        assert(insert_stable(keys, order, i, desc) == order.insert(0, i));
    } else if goes_before(keys[i as int], keys[order[0] as int], desc) {
        assert(insert_stable(keys, order, i, desc) == order.insert(0, i));
    } else {
        let rest = order.drop_first();
        lemma_insert_stable_inserts(keys, rest, i, desc);
        let j = choose|j: int| 0 <= j <= rest.len() && insert_stable(keys, rest, i, desc) == rest.insert(j, i);
        assert(insert_stable(keys, order, i, desc) =~= order.insert(j + 1, i));
    }
}

/// A stable order of `n` keys lists each index below `n` exactly once.
pub proof fn lemma_stable_order_permutes(keys: Seq<Seq<i64>>, desc: bool, n: nat)
    requires
        n <= usize::MAX,
    ensures
        stable_order(keys, desc, n).len() == n,
        forall|m: int| 0 <= m < n ==> (#[trigger] stable_order(keys, desc, n)[m] as int) < n,
        forall|a: int, b: int|
            0 <= a < b < n ==> stable_order(keys, desc, n)[a] != stable_order(keys, desc, n)[b],
        forall|x: usize| (x as int) < n ==> stable_order(keys, desc, n).contains(x),
    decreases n,
{
    if n > 0 {
        let prev = stable_order(keys, desc, (n - 1) as nat);
        lemma_stable_order_permutes(keys, desc, (n - 1) as nat);
        let i = (n - 1) as usize;
        lemma_insert_stable_inserts(keys, prev, i, desc);
        let j = choose|j: int| 0 <= j <= prev.len() && insert_stable(keys, prev, i, desc) == prev.insert(j, i);
        let cur = prev.insert(j, i);
        assert(stable_order(keys, desc, n) == cur);
        assert forall|m: int| 0 <= m < n implies (#[trigger] cur[m] as int) < n by {
            if m < j {
                assert(cur[m] == prev[m]);
            } else if m > j {
                assert(cur[m] == prev[m - 1]);
            }
        }
        assert forall|a: int, b: int| 0 <= a < b < n implies cur[a] != cur[b] by {
            if a < j && b < j {
                assert(cur[a] == prev[a] && cur[b] == prev[b]);
            } else if a < j && b == j {
                assert(cur[a] == prev[a]);
                assert((prev[a] as int) < n - 1);
            } else if a < j && b > j {
                assert(cur[a] == prev[a] && cur[b] == prev[b - 1]);
            } else if a == j {
                assert(cur[b] == prev[b - 1]);
                assert((prev[b - 1] as int) < n - 1);
            } else {
                assert(cur[a] == prev[a - 1] && cur[b] == prev[b - 1]);
            }
        }
        assert forall|x: usize| (x as int) < n implies cur.contains(x) by {
            if x == i {
                assert(cur[j] == i);
            } else {
                assert(prev.contains(x));
                let m = choose|m: int| 0 <= m < prev.len() && prev[m] == x;
                if m < j {
                    assert(cur[m] == x);
                } else {
                    assert(cur[m + 1] == x);
                }
            }
        }
    }
}

/// The order lists the keys from first to last as the sort direction wants them: no key
/// goes before one listed earlier.
pub open spec fn sorted_by(keys: Seq<Seq<i64>>, order: Seq<usize>, desc: bool) -> bool {
    forall|a: int, b: int|
        #![trigger order[a], order[b]]
        0 <= a < b < order.len() ==> !goes_before(keys[order[b] as int], keys[order[a] as int], desc)
}

proof fn lemma_first_difference_unique(a: Seq<i64>, b: Seq<i64>, k: int, m: int)
    requires
        first_difference(a, b, k),
        first_difference(a, b, m),
    ensures
        k == m,
{
    if k < m {
        assert(a[k] == b[k]);
    } else if m < k {
        assert(a[m] == b[m]);
    }
}

proof fn lemma_first_difference_from(a: Seq<i64>, b: Seq<i64>, k: int) -> (d: int)
    requires
        0 <= k <= a.len(),
        k <= b.len(),
        forall|j: int| 0 <= j < k ==> a[j] == b[j],
    ensures
        first_difference(a, b, d),
    decreases a.len() - k,
{
    if k < a.len() && k < b.len() && a[k] == b[k] {
        lemma_first_difference_from(a, b, k + 1)
    } else {
        k
    }
}

proof fn lemma_first_difference_exists(a: Seq<i64>, b: Seq<i64>) -> (k: int)
    ensures
        first_difference(a, b, k),
{
    lemma_first_difference_from(a, b, 0)
}

/// `key_lt` is asymmetric.
pub proof fn lemma_key_lt_asymmetric(a: Seq<i64>, b: Seq<i64>)
    ensures
        !(key_lt(a, b) && key_lt(b, a)),
{
    if key_lt(a, b) && key_lt(b, a) {
        let k = choose|k: int| #![trigger first_difference(a, b, k)] first_difference(a, b, k) && (if k < a.len() && k < b.len() {
            a[k] < b[k]
        } else {
            a.len() < b.len()
        });
        let m = choose|m: int| #![trigger first_difference(b, a, m)] first_difference(b, a, m) && (if m < b.len() && m < a.len() {
            b[m] < a[m]
        } else {
            b.len() < a.len()
        });
        assert(first_difference(a, b, m));
        lemma_first_difference_unique(a, b, k, m);
    }
}

/// `key_lt` is transitive.
pub proof fn lemma_key_lt_transitive(a: Seq<i64>, b: Seq<i64>, c: Seq<i64>)
    requires
        key_lt(a, b),
        key_lt(b, c),
    ensures
        key_lt(a, c),
{
    let k = choose|k: int| #![trigger first_difference(a, b, k)] first_difference(a, b, k) && (if k < a.len() && k < b.len() {
        a[k] < b[k]
    } else {
        a.len() < b.len()
    });
    let m = choose|m: int| #![trigger first_difference(b, c, m)] first_difference(b, c, m) && (if m < b.len() && m < c.len() {
        b[m] < c[m]
    } else {
        b.len() < c.len()
    });
    let d = lemma_first_difference_exists(a, c);
    assert forall|x: int| first_difference(a, c, x) implies x == d by {
        lemma_first_difference_unique(a, c, x, d);
    }
    if k < m {
        assert forall|j: int| 0 <= j < k implies a[j] == c[j] by {
            assert(a[j] == b[j]);
            assert(b[j] == c[j]);
        }
        if k < a.len() && k < b.len() {
            assert(b[k] == c[k]);
            assert(d == k);
        } else {
            assert(k == a.len());
            assert(d == k);
        }
    } else if m < k {
        assert forall|j: int| 0 <= j < m implies a[j] == c[j] by {
            assert(a[j] == b[j]);
            assert(b[j] == c[j]);
        }
        if m < b.len() && m < c.len() {
            assert(a[m] == b[m]);
            assert(d == m);
        } else {
            assert(m == b.len());
            assert(d == m);
        }
    } else {
        assert forall|j: int| 0 <= j < k implies a[j] == c[j] by {
            assert(a[j] == b[j]);
            assert(b[j] == c[j]);
        }
        if k < a.len() && k < b.len() && k < c.len() {
            assert(d == k);
        } else {
            assert(d == k);
        }
    }
    assert(first_difference(a, c, d));
}

proof fn lemma_goes_before_asymmetric(a: Seq<i64>, b: Seq<i64>, desc: bool)
    ensures
        !(goes_before(a, b, desc) && goes_before(b, a, desc)),
{
    lemma_key_lt_asymmetric(a, b);
}

proof fn lemma_goes_before_transitive(a: Seq<i64>, b: Seq<i64>, c: Seq<i64>, desc: bool)
    requires
        goes_before(a, b, desc),
        goes_before(b, c, desc),
    ensures
        goes_before(a, c, desc),
{
    if desc {
        lemma_key_lt_transitive(c, b, a);
    } else {
        lemma_key_lt_transitive(a, b, c);
    }
}

proof fn lemma_insert_stable_sorted(keys: Seq<Seq<i64>>, order: Seq<usize>, i: usize, desc: bool)
    requires
        sorted_by(keys, order, desc),
    ensures
        sorted_by(keys, insert_stable(keys, order, i, desc), desc),
    decreases order.len(),
{
    let r = insert_stable(keys, order, i, desc);
    if order.len() == 0 {
    } else if goes_before(keys[i as int], keys[order[0] as int], desc) {
        assert(r == seq![i] + order);
        assert forall|a: int, b: int| 0 <= a < b < r.len() implies !goes_before(
            keys[r[b] as int],
            keys[r[a] as int],
            desc,
        ) by {
            if a == 0 {
                let ob = r[b];
                assert(ob == order[b - 1]);
                if b - 1 > 0 {
                    assert(!goes_before(keys[order[b - 1] as int], keys[order[0] as int], desc));
                }
                if goes_before(keys[ob as int], keys[i as int], desc) {
                    lemma_goes_before_transitive(
                        keys[ob as int],
                        keys[i as int],
                        keys[order[0] as int],
                        desc,
                    );
                    if b - 1 == 0 {
                        lemma_goes_before_asymmetric(
                            keys[i as int],
                            keys[order[0] as int],
                            desc,
                        );
                    }
                }
            } else {
                assert(r[a] == order[a - 1] && r[b] == order[b - 1]);
            }
        }
    } else {
        let rest = order.drop_first();
        assert forall|a: int, b: int| 0 <= a < b < rest.len() implies !goes_before(
            keys[rest[b] as int],
            keys[rest[a] as int],
            desc,
        ) by {
            assert(rest[a] == order[a + 1] && rest[b] == order[b + 1]);
        }
        lemma_insert_stable_sorted(keys, rest, i, desc);
        let tail = insert_stable(keys, rest, i, desc);
        assert(r == seq![order[0]] + tail);
        lemma_insert_stable_inserts(keys, rest, i, desc);
        let j = choose|j: int| 0 <= j <= rest.len() && insert_stable(keys, rest, i, desc) == rest.insert(j, i);
        assert forall|a: int, b: int| 0 <= a < b < r.len() implies !goes_before(
            keys[r[b] as int],
            keys[r[a] as int],
            desc,
        ) by {
            if a == 0 {
                let x = r[b];
                assert(x == tail[b - 1]);
                if b - 1 == j {
                    assert(x == i);
                } else if b - 1 < j {
                    assert(x == rest[b - 1]);
                    assert(x == order[b]);
                } else {
                    assert(x == rest[b - 2]);
                    assert(x == order[b - 1]);
                }
            } else {
                assert(r[a] == tail[a - 1] && r[b] == tail[b - 1]);
            }
        }
    }
}

/// A stable sort puts the keys in order: no key goes before one placed earlier.
pub proof fn lemma_stable_order_sorted(keys: Seq<Seq<i64>>, desc: bool, n: nat)
    ensures
        sorted_by(keys, stable_order(keys, desc, n), desc),
    decreases n,
{
    if n > 0 {
        lemma_stable_order_sorted(keys, desc, (n - 1) as nat);
        lemma_insert_stable_sorted(keys, stable_order(keys, desc, (n - 1) as nat), (n - 1) as usize, desc);
    }
}

/// On one-number keys, `key_lt` is `<`.
pub proof fn lemma_single_key_lt(x: i64, y: i64)
    ensures
        key_lt(seq![x], seq![y]) == (x < y),
{
    let a = seq![x];
    let b = seq![y];
    if x != y {
        assert(first_difference(a, b, 0));
    } else {
        assert(first_difference(a, b, 1));
        assert forall|k: int| first_difference(a, b, k) implies k == 1 by {
            lemma_first_difference_unique(a, b, k, 1);
        }
    }
    if x < y {
        assert(key_lt(a, b));
    }
}

/// On two-number keys, `key_lt` compares the first numbers, then the second.
pub proof fn lemma_pair_key_lt(x1: i64, y1: i64, x2: i64, y2: i64)
    ensures
        key_lt(seq![x1, y1], seq![x2, y2]) == (x1 < x2 || (x1 == x2 && y1 < y2)),
{
    let a = seq![x1, y1];
    let b = seq![x2, y2];
    let k: int = if x1 != x2 {
        0
    } else if y1 != y2 {
        1
    } else {
        2
    };
    assert(first_difference(a, b, k));
    assert forall|m: int| first_difference(a, b, m) implies m == k by {
        lemma_first_difference_unique(a, b, m, k);
    }
    if x1 < x2 || (x1 == x2 && y1 < y2) {
        assert(key_lt(a, b));
    }
}

} // verus!
