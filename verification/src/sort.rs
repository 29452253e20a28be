//! Ordering rows by a number, keeping the order of rows with equal numbers.

use vstd::prelude::*;

verus! {

/// Row `a` comes before row `b`: its key is smaller, or the keys are equal and
/// it stood before it.
pub open spec fn comes_before(keys: Seq<i64>, a: usize, b: usize) -> bool {
    keys[a as int] < keys[b as int] || (keys[a as int] == keys[b as int] && a < b)
}

/// The positions stand in the order of their keys.
pub open spec fn in_key_order(keys: Seq<i64>, order: Seq<usize>) -> bool {
    forall|x: int, y: int|
        #![trigger order[x], order[y]]
        0 <= x < y < order.len() ==> comes_before(keys, order[x], order[y])
}

/// The order names exactly the positions from `lo` up to `hi`.
pub open spec fn names_range(order: Seq<usize>, lo: int, hi: int) -> bool {
    forall|i: usize| #[trigger] order.contains(i) <==> lo <= i < hi
}

/// Every position once, in the order of the keys; rows with equal keys keep
/// their order.
pub open spec fn is_stable_order(keys: Seq<i64>, order: Seq<usize>) -> bool {
    names_range(order, 0, keys.len() as int) && in_key_order(keys, order)
}

/// An order names every row once. No row stands before one with a smaller key, and
/// rows with equal keys stand as they stood.
pub proof fn orders_ascend(keys: Seq<i64>, order: Seq<usize>)
    requires
        is_stable_order(keys, order),
    ensures
        forall|i: usize| i < keys.len() ==> #[trigger] order.contains(i),
        forall|x: int| 0 <= x < order.len() ==> #[trigger] order[x] < keys.len(),
        order.no_duplicates(),
        forall|x: int, y: int|
            #![trigger order[x], order[y]]
            0 <= x < y < order.len() ==> keys[order[x] as int] <= keys[order[y] as int] && (
            keys[order[x] as int] == keys[order[y] as int] ==> order[x] < order[y]),
{
    assert forall|x: int| 0 <= x < order.len() implies #[trigger] order[x] < keys.len() by {
        assert(order.contains(order[x]));
    }
    assert forall|x: int, y: int|
        #![trigger order[x], order[y]]
        0 <= x < y < order.len() implies keys[order[x] as int] <= keys[order[y] as int] && (
    keys[order[x] as int] == keys[order[y] as int] ==> order[x] < order[y]) by {
        assert(comes_before(keys, order[x], order[y]));
    }
    assert forall|x: int, y: int|
        0 <= x < order.len() && 0 <= y < order.len() && x != y implies order[x] != order[y] by {
        if x < y {
            assert(comes_before(keys, order[x], order[y]));
        } else {
            assert(comes_before(keys, order[y], order[x]));
        }
    }
}

/// The positions of the rows in ascending order of their keys.
pub fn stable_order(keys: &Vec<i64>) -> (r: Vec<usize>)
    ensures
        is_stable_order(keys@, r@),
        r@.len() == keys@.len(),
{
    let n: usize = keys.len();
    sorted_range(keys, 0, n)
}

fn sorted_range(keys: &Vec<i64>, lo: usize, hi: usize) -> (r: Vec<usize>)
    requires
        lo <= hi <= keys@.len(),
    ensures
        names_range(r@, lo as int, hi as int),
        in_key_order(keys@, r@),
        r@.len() == hi - lo,
    decreases hi - lo,
{
    if hi - lo == 0 {
        return Vec::new();
    }
    if hi - lo == 1 {
        let mut one: Vec<usize> = Vec::new();
        one.push(lo);
        proof {
            assert(one@[0] == lo);
        }
        return one;
    }
    let mid: usize = lo + (hi - lo) / 2;
    let left: Vec<usize> = sorted_range(keys, lo, mid);
    let right: Vec<usize> = sorted_range(keys, mid, hi);
    merged(keys, &left, &right, lo, mid, hi)
}

fn merged(
    keys: &Vec<i64>,
    left: &Vec<usize>,
    right: &Vec<usize>,
    lo: usize,
    mid: usize,
    hi: usize,
) -> (r: Vec<usize>)
    requires
        lo <= mid <= hi <= keys@.len(),
        names_range(left@, lo as int, mid as int),
        names_range(right@, mid as int, hi as int),
        in_key_order(keys@, left@),
        in_key_order(keys@, right@),
        left@.len() == mid - lo,
        right@.len() == hi - mid,
    ensures
        names_range(r@, lo as int, hi as int),
        in_key_order(keys@, r@),
        r@.len() == hi - lo,
{
    let mut out: Vec<usize> = Vec::new();
    let mut a: usize = 0;
    let mut b: usize = 0;
    while a < left.len() || b < right.len()
        invariant
            lo <= mid <= hi <= keys@.len(),
            names_range(left@, lo as int, mid as int),
            names_range(right@, mid as int, hi as int),
            in_key_order(keys@, left@),
            in_key_order(keys@, right@),
            left@.len() == mid - lo,
            right@.len() == hi - mid,
            a <= left@.len(),
            b <= right@.len(),
            out@.len() == a + b,
            in_key_order(keys@, out@),
            forall|i: usize| #[trigger]
                out@.contains(i) <==> left@.take(a as int).contains(i) || right@.take(
                    b as int,
                ).contains(i),
            forall|x: int, y: int|
                #![trigger out@[x], left@[y]]
                0 <= x < out@.len() && a <= y < left@.len() ==> comes_before(
                    keys@,
                    out@[x],
                    left@[y],
                ),
            forall|x: int, y: int|
                #![trigger out@[x], right@[y]]
                0 <= x < out@.len() && b <= y < right@.len() ==> comes_before(
                    keys@,
                    out@[x],
                    right@[y],
                ),
        decreases left@.len() - a + right@.len() - b,
    {
        let ghost before = out@;
        proof {
            assert(forall|i: int| 0 <= i < left@.len() ==> left@.contains(#[trigger] left@[i]));
            assert(forall|i: int| 0 <= i < right@.len() ==> right@.contains(#[trigger] right@[i]));
        }
        let take_left: bool = if a >= left.len() {
            false
        } else if b >= right.len() {
            true
        } else {
            proof {
                assert(left@.contains(left@[a as int]));
                assert(right@.contains(right@[b as int]));
            }
            keys[left[a]] <= keys[right[b]]
        };
        if take_left {
            let i: usize = left[a];
            out.push(i);
            proof {
                lemma_take_contains(left@, a as int);
                assert(left@.contains(i));
                assert forall|k: usize| #[trigger] out@.contains(k) <==> left@.take(
                    a + 1,
                ).contains(k) || right@.take(b as int).contains(k) by {
                    lemma_push_contains(before, i, k);
                    lemma_take_step(left@, a as int, k);
                    assert(before.contains(k) <==> left@.take(a as int).contains(k)
                        || right@.take(b as int).contains(k));
                }
                assert forall|x: int, y: int|
                    #![trigger out@[x], right@[y]]
                    0 <= x < out@.len() && b <= y < right@.len() implies comes_before(
                    keys@,
                    out@[x],
                    right@[y],
                ) by {
                    if x == before.len() {
                        assert(right@.contains(right@[y]));
                        if y > b {
                            assert(comes_before(keys@, right@[b as int], right@[y]));
                        }
                    }
                }
            }
            a = a + 1;
        } else {
            let i: usize = right[b];
            out.push(i);
            proof {
                assert(right@.contains(i));
                assert forall|k: usize| #[trigger] out@.contains(k) <==> left@.take(
                    a as int,
                ).contains(k) || right@.take(b + 1).contains(k) by {
                    lemma_push_contains(before, i, k);
                    lemma_take_step(right@, b as int, k);
                    assert(before.contains(k) <==> left@.take(a as int).contains(k)
                        || right@.take(b as int).contains(k));
                }
                assert forall|x: int, y: int|
                    #![trigger out@[x], left@[y]]
                    0 <= x < out@.len() && a <= y < left@.len() implies comes_before(
                    keys@,
                    out@[x],
                    left@[y],
                ) by {
                    if x == before.len() {
                        assert(left@.contains(left@[y]));
                        if y > a {
                            assert(comes_before(keys@, left@[a as int], left@[y]));
                        }
                    }
                }
            }
            b = b + 1;
        }
    }
    proof {
        assert(left@.take(left@.len() as int) =~= left@);
        assert(right@.take(right@.len() as int) =~= right@);
        assert forall|i: usize| #[trigger] out@.contains(i) <==> lo <= i < hi by {
            assert(left@.contains(i) <==> lo <= i < mid);
            assert(right@.contains(i) <==> mid <= i < hi);
        }
    }
    out
}

proof fn lemma_take_contains(s: Seq<usize>, n: int)
    requires
        0 <= n < s.len(),
    ensures
        s.take(n + 1) == s.take(n).push(s[n]),
{
    assert(s.take(n + 1) =~= s.take(n).push(s[n]));
}

proof fn lemma_take_step(s: Seq<usize>, n: int, k: usize)
    requires
        0 <= n < s.len(),
    ensures
        s.take(n + 1).contains(k) <==> s.take(n).contains(k) || s[n] == k,
{
    lemma_take_contains(s, n);
    lemma_push_contains(s.take(n), s[n], k);
}

proof fn lemma_push_contains(s: Seq<usize>, x: usize, k: usize)
    ensures
        s.push(x).contains(k) <==> s.contains(k) || x == k,
{
    let t = s.push(x);
    if s.contains(k) {
        let i = choose|i: int| 0 <= i < s.len() && s[i] == k;
        assert(t[i] == k);
    }
    if x == k {
        assert(t[s.len() as int] == k);
    }
    if t.contains(k) && x != k {
        let i = choose|i: int| 0 <= i < t.len() && t[i] == k;
        assert(s[i] == k);
    }
}

/// There is one stable order only.
pub proof fn stable_order_is_unique(keys: Seq<i64>, a: Seq<usize>, b: Seq<usize>)
    requires
        is_stable_order(keys, a),
        is_stable_order(keys, b),
    ensures
        a == b,
{
    lemma_same_order(keys, a, b);
}

proof fn lemma_same_order(keys: Seq<i64>, a: Seq<usize>, b: Seq<usize>)
    requires
        in_key_order(keys, a),
        in_key_order(keys, b),
        forall|i: usize| #[trigger] a.contains(i) <==> b.contains(i),
    ensures
        a == b,
    decreases a.len(),
{
    if a.len() == 0 {
        if b.len() > 0 {
            assert(b.contains(b[0]));
            assert(!a.contains(b[0]));
        }
        assert(a =~= b);
    } else {
        assert(a.contains(a.last()));
        assert(b.contains(a.last()));
        let bl = b.len() - 1;
        assert(b.contains(b[bl]));
        assert(a.contains(b[bl]));
        let x = choose|x: int| 0 <= x < a.len() && a[x] == b[bl];
        let y = choose|y: int| 0 <= y < b.len() && b[y] == a[a.len() - 1];
        if x < a.len() - 1 {
            assert(comes_before(keys, a[x], a[a.len() - 1]));
            if y < bl {
                assert(comes_before(keys, b[y], b[bl]));
            }
        }
        assert(a[a.len() - 1] == b[bl]);
        let ra = a.drop_last();
        let rb = b.drop_last();
        assert forall|i: usize| #[trigger] ra.contains(i) <==> rb.contains(i) by {
            lemma_drop_last_contains(keys, a, i);
            lemma_drop_last_contains(keys, b, i);
            assert(a.contains(i) <==> b.contains(i));
        }
        assert(in_key_order(keys, ra)) by {
            assert forall|p: int, q: int|
                #![trigger ra[p], ra[q]]
                0 <= p < q < ra.len() implies comes_before(keys, ra[p], ra[q]) by {
                assert(comes_before(keys, a[p], a[q]));
            }
        }
        assert(in_key_order(keys, rb)) by {
            assert forall|p: int, q: int|
                #![trigger rb[p], rb[q]]
                0 <= p < q < rb.len() implies comes_before(keys, rb[p], rb[q]) by {
                assert(comes_before(keys, b[p], b[q]));
            }
        }
        lemma_same_order(keys, ra, rb);
        assert(a =~= ra.push(a.last()));
        assert(b =~= rb.push(b.last()));
    }
}

proof fn lemma_drop_last_contains(keys: Seq<i64>, a: Seq<usize>, i: usize)
    requires
        a.len() > 0,
        in_key_order(keys, a),
    ensures
        a.drop_last().contains(i) <==> a.contains(i) && i != a.last(),
{
    let r = a.drop_last();
    if r.contains(i) {
        let k = choose|k: int| 0 <= k < r.len() && r[k] == i;
        assert(a[k] == i);
        assert(comes_before(keys, a[k], a[a.len() - 1]));
    }
    if a.contains(i) && i != a.last() {
        let k = choose|k: int| 0 <= k < a.len() && a[k] == i;
        assert(r[k] == i);
    }
}

/// The numbers stand in strictly ascending order.
pub open spec fn ascends(s: Seq<i64>) -> bool {
    forall|i: int, j: int| #![trigger s[i], s[j]] 0 <= i < j < s.len() ==> s[i] < s[j]
}

/// The numbers of a list in ascending order, each once.
pub fn sorted_distinct(v: &Vec<i64>) -> (r: Vec<i64>)
    ensures
        ascends(r@),
        forall|x: i64| #[trigger] r@.contains(x) <==> v@.contains(x),
{
    let order: Vec<usize> = stable_order(v);
    let mut out: Vec<i64> = Vec::new();
    let mut k: usize = 0;
    while k < order.len()
        invariant
            k <= order@.len(),
            is_stable_order(v@, order@),
            ascends(out@),
            out@.len() > 0 <==> k > 0,
            k > 0 ==> out@.last() == v@[order@[k - 1] as int],
            forall|x: i64| #[trigger]
                out@.contains(x) <==> exists|j: int|
                    0 <= j < k && v@[(#[trigger] order@[j]) as int] == x,
        decreases order@.len() - k,
    {
        proof {
            assert(order@.contains(order@[k as int]));
        }
        let x: i64 = v[order[k]];
        let n: usize = out.len();
        let repeated: bool = n > 0 && out[n - 1] == x;
        let ghost before = out@;
        if !repeated {
            out.push(x);
        }
        proof {
            if k > 0 {
                assert(comes_before(v@, order@[k - 1], order@[k as int]));
            }
            let ghost_k = k as int;
            assert forall|y: i64| #[trigger] out@.contains(y) <==> exists|j: int|
                0 <= j < ghost_k + 1 && v@[(#[trigger] order@[j]) as int] == y by {
                if out@.contains(y) {
                    let i = choose|i: int| 0 <= i < out@.len() && out@[i] == y;
                    if i < before.len() {
                        assert(before[i] == y);
                        assert(before.contains(y));
                        let j = choose|j: int|
                            0 <= j < ghost_k && v@[(#[trigger] order@[j]) as int] == y;
                        assert(v@[order@[j] as int] == y);
                    } else {
                        assert(v@[order@[ghost_k] as int] == y);
                    }
                }
                if exists|j: int|
                    0 <= j < ghost_k + 1 && v@[(#[trigger] order@[j]) as int] == y {
                    let j = choose|j: int|
                        0 <= j < ghost_k + 1 && v@[(#[trigger] order@[j]) as int] == y;
                    if j < ghost_k {
                        assert(before.contains(y));
                        let i = choose|i: int| 0 <= i < before.len() && before[i] == y;
                        assert(out@[i] == y);
                    } else {
                        assert(out@[out@.len() - 1] == y);
                    }
                }
            }
        }
        k = k + 1;
    }
    proof {
        assert forall|x: i64| #[trigger] out@.contains(x) <==> v@.contains(x) by {
            if out@.contains(x) {
                let j = choose|j: int|
                    0 <= j < k && v@[(#[trigger] order@[j]) as int] == x;
                assert(order@.contains(order@[j]));
                assert(v@[order@[j] as int] == x);
            }
            if v@.contains(x) {
                let i = choose|i: int| 0 <= i < v@.len() && v@[i] == x;
                assert(order@.contains(i as usize));
                let j = choose|j: int| 0 <= j < order@.len() && order@[j] == i as usize;
                assert(v@[order@[j] as int] == x);
            }
        }
    }
    out
}

/// Two ascending lists of the same numbers are the same list.
pub proof fn ascending_list_is_unique(a: Seq<i64>, b: Seq<i64>)
    requires
        ascends(a),
        ascends(b),
        forall|x: i64| #[trigger] a.contains(x) <==> b.contains(x),
    ensures
        a == b,
    decreases a.len(),
{
    if a.len() == 0 {
        if b.len() > 0 {
            assert(b.contains(b[0]));
            assert(!a.contains(b[0]));
        }
        assert(a =~= b);
    } else {
        assert(a.contains(a.last()));
        let bl = b.len() - 1;
        assert(b.contains(b[bl]));
        assert(a.contains(b[bl]));
        let x = choose|x: int| 0 <= x < a.len() && a[x] == b[bl];
        let y = choose|y: int| 0 <= y < b.len() && b[y] == a[a.len() - 1];
        assert(a[a.len() - 1] == b[bl]);
        let ra = a.drop_last();
        let rb = b.drop_last();
        assert forall|i: i64| #[trigger] ra.contains(i) <==> rb.contains(i) by {
            lemma_ascending_drop(a, i);
            lemma_ascending_drop(b, i);
            assert(a.contains(i) <==> b.contains(i));
        }
        ascending_list_is_unique(ra, rb);
        assert(a =~= ra.push(a.last()));
        assert(b =~= rb.push(b.last()));
    }
}

proof fn lemma_ascending_drop(a: Seq<i64>, i: i64)
    requires
        a.len() > 0,
        ascends(a),
    ensures
        a.drop_last().contains(i) <==> a.contains(i) && i != a.last(),
{
    let r = a.drop_last();
    if r.contains(i) {
        let k = choose|k: int| 0 <= k < r.len() && r[k] == i;
        assert(a[k] == i);
        assert(a[k] < a[a.len() - 1]);
    }
    if a.contains(i) && i != a.last() {
        let k = choose|k: int| 0 <= k < a.len() && a[k] == i;
        assert(r[k] == i);
    }
}

/// A number by which newer comes first.
pub open spec fn newest_key(date: i64) -> i64 {
    (-1 - date) as i64
}

/// The positions of rows, newest first.
pub open spec fn is_newest_order(dates: Seq<i64>, order: Seq<usize>) -> bool {
    is_stable_order(dates.map_values(|d: i64| newest_key(d)), order)
}

/// The newest rows come first, and rows of one date stand as they stood.
pub proof fn the_newest_come_first(dates: Seq<i64>, order: Seq<usize>)
    requires
        is_newest_order(dates, order),
    ensures
        forall|i: usize| i < dates.len() ==> #[trigger] order.contains(i),
        forall|x: int, y: int|
            #![trigger order[x], order[y]]
            0 <= x < y < order.len() ==> dates[order[x] as int] >= dates[order[y] as int] && (
            dates[order[x] as int] == dates[order[y] as int] ==> order[x] < order[y]),
{
    let keys = dates.map_values(|d: i64| newest_key(d));
    orders_ascend(keys, order);
    assert forall|x: int, y: int|
        #![trigger order[x], order[y]]
        0 <= x < y < order.len() implies dates[order[x] as int] >= dates[order[y] as int] && (
    dates[order[x] as int] == dates[order[y] as int] ==> order[x] < order[y]) by {
        assert(keys[order[x] as int] == newest_key(dates[order[x] as int]));
        assert(keys[order[y] as int] == newest_key(dates[order[y] as int]));
    }
}

/// The positions of rows, newest first; rows of one date keep their order.
pub fn newest_order(dates: &Vec<i64>) -> (r: Vec<usize>)
    ensures
        is_newest_order(dates@, r@),
        r@.len() == dates@.len(),
        forall|x: int, y: int|
            #![trigger r@[x], r@[y]]
            0 <= x < y < r@.len() ==> dates@[r@[x] as int] >= dates@[r@[y] as int],
{
    let mut keys: Vec<i64> = Vec::new();
    let mut i: usize = 0;
    while i < dates.len()
        invariant
            i <= dates@.len(),
            keys@ == dates@.take(i as int).map_values(|d: i64| newest_key(d)),
        decreases dates@.len() - i,
    {
        let key: i64 = -1 - dates[i];
        keys.push(key);
        i = i + 1;
        proof {
            assert(keys@ =~= dates@.take(i as int).map_values(|d: i64| newest_key(d)));
        }
    }
    proof {
        assert(dates@.take(dates@.len() as int) =~= dates@);
    }
    let order: Vec<usize> = stable_order(&keys);
    proof {
        let o = order@;
        assert forall|x: int, y: int|
            #![trigger o[x], o[y]]
            0 <= x < y < o.len() implies dates@[o[x] as int] >= dates@[o[y] as int] by {
            assert(comes_before(keys@, o[x], o[y]));
            assert(o.contains(o[x]) && o.contains(o[y]));
        }
    }
    order
}

} // verus!
