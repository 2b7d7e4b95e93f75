//! Sequence vocabulary shared by the contracts: counting, searching, maxima
//! and stable sorting.

use vstd::prelude::*;

verus! {

/// How many items of `s` satisfy `p`.
pub open spec fn count_where<A>(s: Seq<A>, p: spec_fn(A) -> bool) -> nat
    decreases s.len(),
{
    if s.len() == 0 {
        0
    } else {
        count_where(s.drop_last(), p) + if p(s.last()) { 1nat } else { 0nat }
    }
}

/// The sum of `f` over the items of `s`.
pub open spec fn sum_of<A>(s: Seq<A>, f: spec_fn(A) -> int) -> int
    decreases s.len(),
{
    if s.len() == 0 {
        0
    } else {
        sum_of(s.drop_last(), f) + f(s.last())
    }
}

/// The items of `s` that satisfy `p`, in order.
pub open spec fn keep<A>(s: Seq<A>, p: spec_fn(A) -> bool) -> Seq<A>
    decreases s.len(),
{
    if s.len() == 0 {
        seq![]
    } else if p(s.last()) {
        keep(s.drop_last(), p).push(s.last())
    } else {
        keep(s.drop_last(), p)
    }
}

/// Whether some item of `s` satisfies `p`.
pub open spec fn any<A>(s: Seq<A>, p: spec_fn(A) -> bool) -> bool {
    exists|i: int| 0 <= i < s.len() && p(#[trigger] s[i])
}

/// The index of the first item of `s` that satisfies `p`.
pub open spec fn first_where<A>(s: Seq<A>, p: spec_fn(A) -> bool) -> Option<int>
    decreases s.len(),
{
    if s.len() == 0 {
        None
    } else {
        match first_where(s.drop_last(), p) {
            Some(i) => Some(i),
            None => if p(s.last()) { Some(s.len() - 1) } else { None },
        }
    }
}

/// The index of the last item that is maximal under `f` among those that
/// satisfy `p`.
pub open spec fn last_max_where<A>(
    s: Seq<A>,
    p: spec_fn(A) -> bool,
    f: spec_fn(A) -> int,
) -> Option<int>
    decreases s.len(),
{
    if s.len() == 0 {
        None
    } else {
        let before = last_max_where(s.drop_last(), p, f);
        if !p(s.last()) {
            before
        } else {
            match before {
                Some(i) => if f(s.last()) >= f(s[i]) { Some(s.len() - 1) } else { Some(i) },
                None => Some(s.len() - 1),
            }
        }
    }
}

/// The largest value of `f` over the items of `s`.
pub open spec fn max_of<A>(s: Seq<A>, f: spec_fn(A) -> int) -> Option<int>
    decreases s.len(),
{
    if s.len() == 0 {
        None
    } else {
        match max_of(s.drop_last(), f) {
            Some(m) => if f(s.last()) > m { Some(f(s.last())) } else { Some(m) },
            None => Some(f(s.last())),
        }
    }
}

/// `x` placed into `s` after every item that does not have to follow it.
pub open spec fn insert_by<A>(s: Seq<A>, x: A, lt: spec_fn(A, A) -> bool) -> Seq<A>
    decreases s.len(),
{
    if s.len() == 0 || !lt(x, s.last()) {
        s.push(x)
    } else {
        insert_by(s.drop_last(), x, lt).push(s.last())
    }
}

/// `s` in the order of `lt`, items that `lt` does not tell apart keeping
/// their places relative to one another.
pub open spec fn sorted_by<A>(s: Seq<A>, lt: spec_fn(A, A) -> bool) -> Seq<A>
    decreases s.len(),
{
    if s.len() == 0 {
        seq![]
    } else {
        insert_by(sorted_by(s.drop_last(), lt), s.last(), lt)
    }
}

/// A strict order on `T`, as a type.
pub trait Order<T> {
    spec fn lt(a: T, b: T) -> bool;

    fn before(a: &T, b: &T) -> (r: bool)
        ensures
            r == Self::lt(*a, *b),
    ;
}

proof fn lemma_insert_step<A>(s: Seq<A>, x: A, lt: spec_fn(A, A) -> bool, k: int)
    requires
        0 <= k <= s.len(),
        forall|j: int| k <= j < s.len() ==> lt(x, #[trigger] s[j]),
        k > 0 ==> !lt(x, s[k - 1]),
    ensures
        insert_by(s, x, lt) == s.insert(k, x),
    decreases s.len(),
{
    if s.len() == k {
        assert(s.insert(k, x) =~= s.push(x));
    } else {
        assert(lt(x, s[s.len() - 1]));
        lemma_insert_step(s.drop_last(), x, lt, k);
        assert(s.drop_last().insert(k, x).push(s.last()) =~= s.insert(k, x));
    }
}

/// Sorts `v` stably.
pub fn sort<T, O: Order<T>>(v: Vec<T>) -> (r: Vec<T>)
    ensures
        r@ == sorted_by(v@, |a: T, b: T| O::lt(a, b)),
{
    let mut rest: Vec<T> = v;
    let mut back: Vec<T> = Vec::new();
    let ghost all = rest@;
    // Turn the input round, so that popping yields it front to back.
    while rest.len() > 0
        invariant
            rest@ == all.take(rest@.len() as int),
            rest@.len() + back@.len() == all.len(),
            forall|i: int| 0 <= i < back@.len() ==> #[trigger] back@[i] == all[all.len() - 1 - i],
        decreases rest@.len(),
    {
        let ghost before = rest@;
        if let Some(x) = rest.pop() {
            back.push(x);
        }
        proof {
            assert(rest@ =~= all.take(rest@.len() as int));
        }
    }
    let mut out: Vec<T> = Vec::new();
    let ghost lt = |a: T, b: T| O::lt(a, b);
    while back.len() > 0
        invariant
            out@.len() + back@.len() == all.len(),
            forall|i: int| 0 <= i < back@.len() ==> #[trigger] back@[i] == all[all.len() - 1 - i],
            out@ == sorted_by(all.take(out@.len() as int), lt),
            lt == (|a: T, b: T| O::lt(a, b)),
        decreases back@.len(),
    {
        let ghost n = out@.len() as int;
        let ghost prev = out@;
        if let Some(x) = back.pop() {
            let mut k: usize = out.len();
            while k > 0 && O::before(&x, &out[k - 1])
                invariant
                    0 <= k <= out@.len(),
                    forall|j: int| k <= j < out@.len() ==> O::lt(x, #[trigger] out@[j]),
                decreases k,
            {
                k = k - 1;
            }
            proof {
                lemma_insert_step(prev, x, lt, k as int);
                assert(all.take(n + 1).drop_last() =~= all.take(n));
                lemma_sorted_len(all.take(n), lt);
            }
            out.insert(k, x);
        }
    }
    proof {
        assert(all.take(all.len() as int) =~= all);
    }
    out
}

proof fn lemma_insert_len<A>(s: Seq<A>, x: A, lt: spec_fn(A, A) -> bool)
    ensures
        insert_by(s, x, lt).len() == s.len() + 1,
    decreases s.len(),
{
    if s.len() > 0 && lt(x, s.last()) {
        lemma_insert_len(s.drop_last(), x, lt);
    }
}

/// Sorting keeps the number of items.
pub proof fn lemma_sorted_len<A>(s: Seq<A>, lt: spec_fn(A, A) -> bool)
    ensures
        sorted_by(s, lt).len() == s.len(),
    decreases s.len(),
{
    if s.len() > 0 {
        lemma_sorted_len(s.drop_last(), lt);
        lemma_insert_len(sorted_by(s.drop_last(), lt), s.last(), lt);
    }
}

proof fn lemma_insert_map<A, B>(
    s: Seq<A>,
    x: A,
    f: spec_fn(A) -> B,
    lta: spec_fn(A, A) -> bool,
    ltb: spec_fn(B, B) -> bool,
)
    requires
        forall|a: A, b: A| #[trigger] lta(a, b) == ltb(f(a), f(b)),
    ensures
        insert_by(s, x, lta).map_values(f) == insert_by(s.map_values(f), f(x), ltb),
    decreases s.len(),
{
    if s.len() == 0 || !lta(x, s.last()) {
        assert(s.push(x).map_values(f) =~= s.map_values(f).push(f(x)));
        assert(s.len() > 0 ==> s.map_values(f).last() == f(s.last()));
    } else {
        lemma_insert_map(s.drop_last(), x, f, lta, ltb);
        assert(s.drop_last().map_values(f) =~= s.map_values(f).drop_last());
        assert(insert_by(s.drop_last(), x, lta).push(s.last()).map_values(f) =~= insert_by(
            s.drop_last(),
            x,
            lta,
        ).map_values(f).push(f(s.last())));
    }
}

/// Sorting commutes with a mapping that carries the order along.
pub proof fn lemma_sorted_map<A, B>(
    s: Seq<A>,
    f: spec_fn(A) -> B,
    lta: spec_fn(A, A) -> bool,
    ltb: spec_fn(B, B) -> bool,
)
    requires
        forall|a: A, b: A| #[trigger] lta(a, b) == ltb(f(a), f(b)),
    ensures
        sorted_by(s, lta).map_values(f) == sorted_by(s.map_values(f), ltb),
    decreases s.len(),
{
    if s.len() == 0 {
        assert(sorted_by(s, lta).map_values(f) =~= Seq::<B>::empty());
        assert(s.map_values(f) =~= Seq::<B>::empty());
    } else {
        lemma_sorted_map(s.drop_last(), f, lta, ltb);
        lemma_insert_map(sorted_by(s.drop_last(), lta), s.last(), f, lta, ltb);
        assert(s.drop_last().map_values(f) =~= s.map_values(f).drop_last());
    }
}

// --- what sorting does -------------------------------------------------------

/// Whether `lt` is a strict order in which not being told apart is an
/// equivalence.
pub open spec fn orders<A>(lt: spec_fn(A, A) -> bool) -> bool {
    &&& forall|a: A, b: A| #[trigger] lt(a, b) ==> !lt(b, a)
    &&& forall|a: A, b: A, c: A|
        #![trigger lt(a, b), lt(b, c)]
        #![trigger lt(a, b), lt(a, c)]
        #![trigger lt(a, c), lt(b, c)]
        lt(a, c) ==> lt(a, b) || lt(b, c)
}

proof fn lemma_insert_multiset<A>(s: Seq<A>, x: A, lt: spec_fn(A, A) -> bool)
    ensures
        insert_by(s, x, lt).to_multiset() == s.to_multiset().insert(x),
    decreases s.len(),
{
    broadcast use vstd::seq_lib::group_to_multiset_ensures;

    if s.len() > 0 && lt(x, s.last()) {
        lemma_insert_multiset(s.drop_last(), x, lt);
        assert(s =~= s.drop_last().push(s.last()));
        assert(insert_by(s, x, lt).to_multiset() =~= s.to_multiset().insert(x));
    }
}

/// Sorting moves items and neither adds nor drops any.
pub proof fn lemma_sort_permutes<A>(s: Seq<A>, lt: spec_fn(A, A) -> bool)
    ensures
        sorted_by(s, lt).to_multiset() == s.to_multiset(),
    decreases s.len(),
{
    broadcast use vstd::seq_lib::group_to_multiset_ensures;

    if s.len() > 0 {
        lemma_sort_permutes(s.drop_last(), lt);
        lemma_insert_multiset(sorted_by(s.drop_last(), lt), s.last(), lt);
        assert(s =~= s.drop_last().push(s.last()));
    } else {
        assert(sorted_by(s, lt) =~= s);
    }
}

/// Whether no item of `s` has to come before an earlier one.
pub open spec fn in_order<A>(s: Seq<A>, lt: spec_fn(A, A) -> bool) -> bool {
    forall|i: int, j: int| 0 <= i < j < s.len() ==> !lt(#[trigger] s[j], #[trigger] s[i])
}

proof fn lemma_insert_orders<A>(s: Seq<A>, x: A, lt: spec_fn(A, A) -> bool)
    requires
        orders(lt),
        in_order(s, lt),
    ensures
        in_order(insert_by(s, x, lt), lt),
        forall|i: int|
            0 <= i < insert_by(s, x, lt).len() ==> (#[trigger] insert_by(s, x, lt)[i] == x || exists|
                k: int,
            |
                0 <= k < s.len() && s[k] == insert_by(s, x, lt)[i]),
    decreases s.len(),
{
    let r = insert_by(s, x, lt);
    if s.len() == 0 || !lt(x, s.last()) {
        assert(r == s.push(x));
        assert forall|i: int, j: int| 0 <= i < j < r.len() implies !lt(
            #[trigger] r[j],
            #[trigger] r[i],
        ) by {
            if j == s.len() {
                if i < s.len() - 1 {
                    assert(!lt(s[s.len() - 1], s[i]));
                    if lt(x, s[i]) {
                        assert(lt(x, s.last()) || lt(s.last(), s[i]));
                    }
                }
            }
        }
        assert forall|i: int| 0 <= i < r.len() implies (#[trigger] r[i] == x || exists|k: int|
            0 <= k < s.len() && s[k] == r[i]) by {
            if i < s.len() {
                assert(s[i] == r[i]);
            }
        }
    } else {
        let t = s.drop_last();
        assert(in_order(t, lt)) by {
            assert forall|i: int, j: int| 0 <= i < j < t.len() implies !lt(
                #[trigger] t[j],
                #[trigger] t[i],
            ) by {
                assert(t[j] == s[j] && t[i] == s[i]);
            }
        }
        lemma_insert_orders(t, x, lt);
        let q = insert_by(t, x, lt);
        assert(r == q.push(s.last()));
        assert forall|i: int, j: int| 0 <= i < j < r.len() implies !lt(
            #[trigger] r[j],
            #[trigger] r[i],
        ) by {
            if j < q.len() {
                assert(r[j] == q[j] && r[i] == q[i]);
            } else {
                assert(r[i] == q[i]);
                if q[i] != x {
                    let k = choose|k: int| 0 <= k < t.len() && t[k] == q[i];
                    assert(!lt(s[s.len() - 1], s[k]));
                }
            }
        }
        assert forall|i: int| 0 <= i < r.len() implies (#[trigger] r[i] == x || exists|k: int|
            0 <= k < s.len() && s[k] == r[i]) by {
            if i < q.len() {
                assert(r[i] == q[i]);
                if q[i] != x {
                    let k = choose|k: int| 0 <= k < t.len() && t[k] == q[i];
                    assert(s[k] == r[i]);
                }
            } else {
                assert(s[s.len() - 1] == r[i]);
            }
        }
    }
}

/// Sorting puts the items in order.
pub proof fn lemma_sort_orders<A>(s: Seq<A>, lt: spec_fn(A, A) -> bool)
    requires
        orders(lt),
    ensures
        in_order(sorted_by(s, lt), lt),
    decreases s.len(),
{
    if s.len() > 0 {
        lemma_sort_orders(s.drop_last(), lt);
        lemma_insert_orders(sorted_by(s.drop_last(), lt), s.last(), lt);
    }
}

proof fn lemma_keep_push<A>(s: Seq<A>, x: A, p: spec_fn(A) -> bool)
    ensures
        keep(s.push(x), p) == (if p(x) {
            keep(s, p).push(x)
        } else {
            keep(s, p)
        }),
{
    assert(s.push(x).drop_last() =~= s);
}

proof fn lemma_insert_stable<A>(
    s: Seq<A>,
    x: A,
    lt: spec_fn(A, A) -> bool,
    p: spec_fn(A) -> bool,
)
    requires
        forall|a: A, b: A| #![trigger lt(a, b)] p(a) && p(b) ==> !lt(a, b),
    ensures
        keep(insert_by(s, x, lt), p) == keep(s.push(x), p),
    decreases s.len(),
{
    lemma_keep_push(s, x, p);
    if s.len() > 0 && lt(x, s.last()) {
        let t = s.drop_last();
        lemma_insert_stable(t, x, lt, p);
        lemma_keep_push(insert_by(t, x, lt), s.last(), p);
        lemma_keep_push(t, x, p);
    }
}

/// Sorting is stable: items that the order does not tell apart keep their
/// places relative to one another.
pub proof fn lemma_sort_stable<A>(s: Seq<A>, lt: spec_fn(A, A) -> bool, p: spec_fn(A) -> bool)
    requires
        forall|a: A, b: A| #![trigger lt(a, b)] p(a) && p(b) ==> !lt(a, b),
    ensures
        keep(sorted_by(s, lt), p) == keep(s, p),
    decreases s.len(),
{
    if s.len() > 0 {
        let t = s.drop_last();
        lemma_sort_stable(t, lt, p);
        lemma_insert_stable(sorted_by(t, lt), s.last(), lt, p);
        lemma_keep_push(sorted_by(t, lt), s.last(), p);
    }
}

/// What holds of every item holds of every item after sorting.
pub proof fn lemma_sort_keeps_all<A>(s: Seq<A>, lt: spec_fn(A, A) -> bool, p: spec_fn(A) -> bool)
    requires
        forall|i: int| 0 <= i < s.len() ==> p(#[trigger] s[i]),
    ensures
        forall|i: int| 0 <= i < sorted_by(s, lt).len() ==> p(#[trigger] sorted_by(s, lt)[i]),
{
    broadcast use vstd::seq_lib::group_to_multiset_ensures;

    lemma_sort_permutes(s, lt);
    let r = sorted_by(s, lt);
    assert forall|i: int| 0 <= i < r.len() implies p(#[trigger] r[i]) by {
        assert(r.contains(r[i]));
        assert(r.to_multiset().count(r[i]) > 0);
        assert(s.to_multiset().count(r[i]) > 0);
        assert(s.contains(r[i]));
    }
}

/// Whether `f` tells all the items of `s` apart.
pub open spec fn distinct_by<A, B>(s: Seq<A>, f: spec_fn(A) -> B) -> bool {
    forall|i: int, j: int| 0 <= i < j < s.len() ==> f(#[trigger] s[i]) != f(#[trigger] s[j])
}

proof fn lemma_insert_distinct<A, B>(
    s: Seq<A>,
    x: A,
    lt: spec_fn(A, A) -> bool,
    f: spec_fn(A) -> B,
)
    requires
        distinct_by(s, f),
        forall|i: int| 0 <= i < s.len() ==> f(#[trigger] s[i]) != f(x),
    ensures
        distinct_by(insert_by(s, x, lt), f),
        forall|y: A|
            #![trigger insert_by(s, x, lt).contains(y)]
            insert_by(s, x, lt).contains(y) ==> y == x || s.contains(y),
    decreases s.len(),
{
    let r = insert_by(s, x, lt);
    if s.len() == 0 || !lt(x, s.last()) {
        assert forall|y: A| #![trigger r.contains(y)] r.contains(y) implies y == x || s.contains(
            y,
        ) by {
            let i = choose|i: int| 0 <= i < r.len() && r[i] == y;
            if i < s.len() {
                assert(s[i] == y);
            }
        }
    } else {
        let t = s.drop_last();
        assert(distinct_by(t, f)) by {
            assert forall|i: int, j: int| 0 <= i < j < t.len() implies f(#[trigger] t[i]) != f(
                #[trigger] t[j],
            ) by {
                assert(f(s[i]) != f(s[j]));
            }
        }
        assert forall|i: int| 0 <= i < t.len() implies f(#[trigger] t[i]) != f(x) by {
            assert(s[i] == t[i]);
        }
        lemma_insert_distinct(t, x, lt, f);
        let q = insert_by(t, x, lt);
        assert(r == q.push(s.last()));
        assert forall|i: int, j: int| 0 <= i < j < r.len() implies f(#[trigger] r[i]) != f(
            #[trigger] r[j],
        ) by {
            if j == q.len() {
                assert(q.contains(q[i]));
                assert(r[i] == q[i]);
                assert(s[s.len() - 1] == s.last());
                if q[i] != x {
                    assert(t.contains(q[i]));
                    let k = choose|k: int| 0 <= k < t.len() && t[k] == q[i];
                    assert(f(s[k]) != f(s[s.len() - 1]));
                }
            } else {
                assert(f(q[i]) != f(q[j]));
            }
        }
        assert forall|y: A| #![trigger r.contains(y)] r.contains(y) implies y == x || s.contains(
            y,
        ) by {
            let i = choose|i: int| 0 <= i < r.len() && r[i] == y;
            if i < q.len() {
                assert(q[i] == y);
                assert(q.contains(y));
                if y != x {
                    let k = choose|k: int| 0 <= k < t.len() && t[k] == y;
                    assert(s[k] == y);
                }
            } else {
                assert(s[s.len() - 1] == y);
            }
        }
    }
}

/// Items that are told apart are told apart after sorting, and they are the
/// same items.
pub proof fn lemma_sort_distinct<A, B>(s: Seq<A>, lt: spec_fn(A, A) -> bool, f: spec_fn(A) -> B)
    requires
        distinct_by(s, f),
    ensures
        distinct_by(sorted_by(s, lt), f),
        forall|y: A|
            #![trigger sorted_by(s, lt).contains(y)]
            #![trigger s.contains(y)]
            sorted_by(s, lt).contains(y) <==> s.contains(y),
    decreases s.len(),
{
    broadcast use vstd::seq_lib::group_to_multiset_ensures;

    lemma_sort_permutes(s, lt);
    let r = sorted_by(s, lt);
    assert forall|y: A|
        #![trigger r.contains(y)]
        #![trigger s.contains(y)]
        r.contains(y) <==> s.contains(y) by {
        assert(r.to_multiset().count(y) > 0 <==> r.contains(y));
        assert(s.to_multiset().count(y) > 0 <==> s.contains(y));
    }
    if s.len() > 0 {
        let t = s.drop_last();
        assert(distinct_by(t, f)) by {
            assert forall|i: int, j: int| 0 <= i < j < t.len() implies f(#[trigger] t[i]) != f(
                #[trigger] t[j],
            ) by {
                assert(f(s[i]) != f(s[j]));
            }
        }
        lemma_sort_distinct(t, lt, f);
        let q = sorted_by(t, lt);
        assert forall|i: int| 0 <= i < q.len() implies f(#[trigger] q[i]) != f(s.last()) by {
            assert(q.contains(q[i]));
            assert(t.contains(q[i]));
            let k = choose|k: int| 0 <= k < t.len() && t[k] == q[i];
            assert(s[k] == t[k]);
            assert(f(s[k]) != f(s[s.len() - 1]));
        }
        lemma_insert_distinct(q, s.last(), lt, f);
    }
}

// --- searching ---------------------------------------------------------------

/// What [`first_where`] finds.
pub proof fn lemma_first_is<A>(s: Seq<A>, p: spec_fn(A) -> bool)
    ensures
        match first_where(s, p) {
            None => forall|j: int| 0 <= j < s.len() ==> !p(#[trigger] s[j]),
            Some(i) => 0 <= i < s.len() && p(s[i]) && forall|j: int|
                0 <= j < i ==> !p(#[trigger] s[j]),
        },
    decreases s.len(),
{
    if s.len() > 0 {
        let t = s.drop_last();
        lemma_first_is(t, p);
        assert(forall|j: int| 0 <= j < t.len() ==> t[j] == #[trigger] s[j]);
    }
}

/// What the first match in a prefix is, it is in the whole.
pub proof fn lemma_first_extends<A>(s: Seq<A>, p: spec_fn(A) -> bool, k: int)
    requires
        0 <= k <= s.len(),
        first_where(s.take(k), p) is Some,
    ensures
        first_where(s, p) == first_where(s.take(k), p),
    decreases s.len() - k,
{
    if k == s.len() {
        assert(s.take(k) =~= s);
    } else {
        assert(s.take(k + 1).drop_last() =~= s.take(k));
        lemma_first_extends(s, p, k + 1);
    }
}

/// Conditions that agree on every item count, keep and find the same items.
pub proof fn lemma_same_condition<A>(s: Seq<A>, p: spec_fn(A) -> bool, q: spec_fn(A) -> bool)
    requires
        forall|i: int| 0 <= i < s.len() ==> p(#[trigger] s[i]) == q(s[i]),
    ensures
        count_where(s, p) == count_where(s, q),
        keep(s, p) == keep(s, q),
        first_where(s, p) == first_where(s, q),
    decreases s.len(),
{
    if s.len() > 0 {
        let t = s.drop_last();
        assert forall|i: int| 0 <= i < t.len() implies p(#[trigger] t[i]) == q(t[i]) by {
            assert(t[i] == s[i]);
        }
        lemma_same_condition(t, p, q);
        assert(p(s[s.len() - 1]) == q(s[s.len() - 1]));
    }
}

/// What [`keep`] keeps: the items that satisfy the condition, as many as
/// [`count_where`] counts, in their order.
pub proof fn lemma_keep<A>(s: Seq<A>, p: spec_fn(A) -> bool)
    ensures
        keep(s, p).len() == count_where(s, p),
        forall|i: int|
            0 <= i < keep(s, p).len() ==> p(#[trigger] keep(s, p)[i]) && s.contains(keep(s, p)[i]),
        forall|i: int| 0 <= i < s.len() && p(#[trigger] s[i]) ==> keep(s, p).contains(s[i]),
    decreases s.len(),
{
    if s.len() > 0 {
        let t = s.drop_last();
        lemma_keep(t, p);
        let k = keep(s, p);
        assert forall|i: int| 0 <= i < k.len() implies p(#[trigger] k[i]) && s.contains(k[i]) by {
            if i < keep(t, p).len() {
                assert(k[i] == keep(t, p)[i]);
                let j = choose|j: int| 0 <= j < t.len() && t[j] == k[i];
                assert(s[j] == k[i]);
            } else {
                assert(s[s.len() - 1] == k[i]);
            }
        }
        assert forall|i: int| 0 <= i < s.len() && p(#[trigger] s[i]) implies k.contains(s[i]) by {
            if i < t.len() {
                assert(t[i] == s[i]);
                let j = choose|j: int| 0 <= j < keep(t, p).len() && keep(t, p)[j] == s[i];
                assert(k[j] == s[i]);
            } else {
                assert(k[k.len() - 1] == s[i]);
            }
        }
    }
}

/// How [`count_where`] and [`any`] go together.
pub proof fn lemma_count_any<A>(s: Seq<A>, p: spec_fn(A) -> bool)
    ensures
        count_where(s, p) <= s.len(),
        any(s, p) == (count_where(s, p) > 0),
    decreases s.len(),
{
    if s.len() > 0 {
        let t = s.drop_last();
        lemma_count_any(t, p);
        if any(t, p) {
            let i = choose|i: int| 0 <= i < t.len() && p(#[trigger] t[i]);
            assert(p(s[i]));
        }
        if p(s.last()) {
            assert(p(s[s.len() - 1]));
        }
        if any(s, p) && !p(s.last()) {
            let i = choose|i: int| 0 <= i < s.len() && p(#[trigger] s[i]);
            assert(p(t[i]));
        }
    }
}

/// Counting among the kept items counts what satisfies both conditions.
pub proof fn lemma_count_kept<A>(s: Seq<A>, p: spec_fn(A) -> bool, q: spec_fn(A) -> bool)
    ensures
        count_where(keep(s, p), q) == count_where(s, |x: A| p(x) && q(x)),
    decreases s.len(),
{
    if s.len() > 0 {
        let t = s.drop_last();
        lemma_count_kept(t, p, q);
        if p(s.last()) {
            assert(keep(s, p).drop_last() =~= keep(t, p));
        }
    }
}

/// What [`max_of`] finds.
pub proof fn lemma_max_of<A>(s: Seq<A>, f: spec_fn(A) -> int)
    ensures
        match max_of(s, f) {
            Some(m) => {
                &&& forall|i: int| 0 <= i < s.len() ==> f(#[trigger] s[i]) <= m
                &&& exists|i: int| 0 <= i < s.len() && f(#[trigger] s[i]) == m
            },
            None => s.len() == 0,
        },
    decreases s.len(),
{
    if s.len() > 0 {
        let t = s.drop_last();
        lemma_max_of(t, f);
        assert forall|i: int| 0 <= i < t.len() implies t[i] == #[trigger] s[i] by {}
        let m = max_of(s, f)->Some_0;
        if m == f(s.last()) {
            assert(f(s[s.len() - 1]) == m);
        } else {
            let i = choose|i: int| 0 <= i < t.len() && f(#[trigger] t[i]) == m;
            assert(f(s[i]) == m);
        }
    }
}

/// An item is in a list exactly if it is in the sorted list.
pub proof fn lemma_sort_contains<A>(s: Seq<A>, lt: spec_fn(A, A) -> bool, x: A)
    ensures
        sorted_by(s, lt).contains(x) == s.contains(x),
{
    broadcast use vstd::seq_lib::group_to_multiset_ensures;

    lemma_sort_permutes(s, lt);
    assert(sorted_by(s, lt).to_multiset().count(x) > 0 <==> sorted_by(s, lt).contains(x));
    assert(s.to_multiset().count(x) > 0 <==> s.contains(x));
}

} // verus!
