//! Lists of ids: membership, appending without repetition, and picking.

use vstd::prelude::*;

verus! {

/// The list with `x` at its end, unless it has `x` already.
pub open spec fn with_new<T>(s: Seq<T>, x: T) -> Seq<T> {
    if s.contains(x) {
        s
    } else {
        s.push(x)
    }
}

/// The items of `s` in the order of their first occurrence, behind `seen`.
pub open spec fn with_all_new<T>(seen: Seq<T>, s: Seq<T>) -> Seq<T>
    decreases s.len(),
{
    if s.len() == 0 {
        seen
    } else {
        with_new(with_all_new(seen, s.drop_last()), s.last())
    }
}

pub fn contains_id(v: &Vec<i64>, x: i64) -> (r: bool)
    ensures
        r == v@.contains(x),
{
    let mut i: usize = 0;
    while i < v.len()
        invariant
            i <= v@.len(),
            forall|j: int| 0 <= j < i ==> v@[j] != x,
        decreases v@.len() - i,
    {
        if v[i] == x {
            return true;
        }
        i = i + 1;
    }
    false
}

pub fn push_new(v: &mut Vec<i64>, x: i64)
    ensures
        final(v)@ == with_new(old(v)@, x),
{
    if !contains_id(v, x) {
        v.push(x);
    }
}

/// Appending without repetition keeps a list free of repetitions, keeps what
/// was there, and adds what is new.
pub proof fn with_all_new_is_distinct<T>(seen: Seq<T>, s: Seq<T>)
    requires
        seen.no_duplicates(),
    ensures
        with_all_new(seen, s).no_duplicates(),
        forall|x: T| #[trigger]
            with_all_new(seen, s).contains(x) <==> seen.contains(x) || s.contains(x),
    decreases s.len(),
{
    if s.len() > 0 {
        let rest = s.drop_last();
        with_all_new_is_distinct(seen, rest);
        let before = with_all_new(seen, rest);
        let after = with_all_new(seen, s);
        assert forall|x: T| #[trigger] after.contains(x) <==> seen.contains(x) || s.contains(x) by {
            if rest.contains(x) {
                let i = choose|i: int| 0 <= i < rest.len() && rest[i] == x;
                assert(s[i] == x);
            }
            if s.contains(x) && x != s.last() {
                let i = choose|i: int| 0 <= i < s.len() && s[i] == x;
                assert(rest[i] == x);
            }
            if x == s.last() {
                assert(s[s.len() - 1] == x);
            }
            if before.contains(x) {
                let i = choose|i: int| 0 <= i < before.len() && before[i] == x;
                assert(after[i] == x);
            }
            if after.contains(x) && !before.contains(x) {
                let i = choose|i: int| 0 <= i < after.len() && after[i] == x;
                if i < before.len() {
                    assert(before[i] == x);
                }
            }
            if x == s.last() && !before.contains(x) {
                assert(after[before.len() as int] == x);
            }
        }
    }
}

/// What a list holds once an item was put at its end.
pub proof fn lemma_pushed<T>(s: Seq<T>, x: T)
    ensures
        forall|y: T| #[trigger] s.push(x).contains(y) <==> s.contains(y) || y == x,
{
    let t = s.push(x);
    assert forall|y: T| #[trigger] t.contains(y) <==> s.contains(y) || y == x by {
        if s.contains(y) {
            let i = s.index_of(y);
            assert(t[i] == y);
        }
        if y == x {
            assert(t[s.len() as int] == y);
        }
        if t.contains(y) && y != x {
            let i = t.index_of(y);
            assert(s[i] == y);
        }
    }
}

/// What a list holds: its last item, and what stands before it.
pub proof fn lemma_ends<T>(s: Seq<T>)
    requires
        s.len() > 0,
    ensures
        forall|y: T| #[trigger] s.contains(y) <==> s.drop_last().contains(y) || y == s.last(),
{
    lemma_pushed(s.drop_last(), s.last());
    assert(s.drop_last().push(s.last()) =~= s);
}

/// The numbers below `n` that pass the test, in order.
pub open spec fn picked(test: spec_fn(int) -> bool, n: int) -> Seq<int>
    decreases n,
{
    if n <= 0 {
        Seq::empty()
    } else if test(n - 1) {
        picked(test, n - 1).push(n - 1)
    } else {
        picked(test, n - 1)
    }
}

/// They are those, each once.
pub proof fn lemma_picked(test: spec_fn(int) -> bool, n: int)
    ensures
        forall|j: int|
            0 <= j < picked(test, n).len() ==> 0 <= #[trigger] picked(test, n)[j] < n && test(
                picked(test, n)[j],
            ),
        forall|i: int| 0 <= i < n && #[trigger] test(i) ==> picked(test, n).contains(i),
        forall|x: int, y: int|
            #![trigger picked(test, n)[x], picked(test, n)[y]]
            0 <= x < y < picked(test, n).len() ==> picked(test, n)[x] < picked(test, n)[y],
    decreases n,
{
    if n > 0 {
        lemma_picked(test, n - 1);
        let before = picked(test, n - 1);
        let now = picked(test, n);
        assert forall|j: int| 0 <= j < now.len() implies 0 <= #[trigger] now[j] < n && test(
            now[j],
        ) by {
            if j < before.len() {
                assert(now[j] == before[j]);
            }
        }
        assert forall|i: int| 0 <= i < n && #[trigger] test(i) implies now.contains(i) by {
            if i < n - 1 {
                assert(before.contains(i));
                let j = choose|j: int| 0 <= j < before.len() && before[j] == i;
                assert(now[j] == i);
            } else {
                assert(now[before.len() as int] == i);
            }
        }
        assert forall|x: int, y: int|
            #![trigger now[x], now[y]]
            0 <= x < y < now.len() implies now[x] < now[y] by {
            assert(now[x] == before[x]);
            if y < before.len() {
                assert(now[y] == before[y]);
            }
        }
    }
}

} // verus!
