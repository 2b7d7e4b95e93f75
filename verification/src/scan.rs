//! Searches over vectors, each driven by a closure whose meaning is a spec
//! function on the items' views.

use vstd::prelude::*;

use crate::seqs;

verus! {

/// The views of the items of `s`.
pub open spec fn views<T: View>(s: Seq<T>) -> Seq<T::V> {
    s.map_values(|x: T| x@)
}

/// Whether the closure `f` decides `p`.
pub open spec fn decides<T: View, F: Fn(&T) -> bool>(f: F, p: spec_fn(T::V) -> bool) -> bool {
    &&& forall|x: &T| #[trigger] f.requires((x,))
    &&& forall|x: &T, b: bool| #[trigger] f.ensures((x,), b) ==> b == p(x@)
}

/// Whether the closure `f` computes `g`.
pub open spec fn computes<T: View, F: Fn(&T) -> i64>(f: F, g: spec_fn(T::V) -> int) -> bool {
    &&& forall|x: &T| #[trigger] f.requires((x,))
    &&& forall|x: &T, n: i64| #[trigger] f.ensures((x,), n) ==> n == g(x@)
}

/// How many items of `v[from..to]` satisfy `p`.
pub(crate) fn count<T: View, F: Fn(&T) -> bool>(
    v: &Vec<T>,
    from: usize,
    to: usize,
    f: F,
    Ghost(p): Ghost<spec_fn(T::V) -> bool>,
) -> (r: usize)
    requires
        from <= to <= v@.len(),
        decides(f, p),
    ensures
        r == seqs::count_where(views(v@).subrange(from as int, to as int), p),
        r <= to - from,
{
    let ghost all = views(v@).subrange(from as int, to as int);
    let mut n: usize = 0;
    for i in from..to
        invariant
            from <= to <= v@.len(),
            decides(f, p),
            all == views(v@).subrange(from as int, to as int),
            n == seqs::count_where(all.take(i - from), p),
            n <= i - from,
    {
        proof {
            assert(all.take(i - from + 1).drop_last() =~= all.take(i - from));
            assert(all.take(i - from + 1).last() == v@[i as int]@);
        }
        if f(&v[i]) {
            n = n + 1;
        }
    }
    proof {
        assert(all.take(to - from) =~= all);
    }
    n
}

/// Whether some item of `v[from..to]` satisfies `p`.
pub(crate) fn any<T: View, F: Fn(&T) -> bool>(
    v: &Vec<T>,
    from: usize,
    to: usize,
    f: F,
    Ghost(p): Ghost<spec_fn(T::V) -> bool>,
) -> (r: bool)
    requires
        from <= to <= v@.len(),
        decides(f, p),
    ensures
        r == seqs::any(views(v@).subrange(from as int, to as int), p),
{
    let ghost all = views(v@).subrange(from as int, to as int);
    for i in from..to
        invariant
            from <= to <= v@.len(),
            decides(f, p),
            all == views(v@).subrange(from as int, to as int),
            forall|j: int| 0 <= j < i - from ==> !p(#[trigger] all[j]),
    {
        proof {
            assert(all[i - from] == v@[i as int]@);
        }
        if f(&v[i]) {
            return true;
        }
    }
    false
}

/// The index of the first item of `v` that satisfies `p`.
pub(crate) fn find<T: View, F: Fn(&T) -> bool>(
    v: &Vec<T>,
    f: F,
    Ghost(p): Ghost<spec_fn(T::V) -> bool>,
) -> (r: Option<usize>)
    requires
        decides(f, p),
    ensures
        match r {
            Some(i) => i < v@.len() && seqs::first_where(views(v@), p) == Some(i as int),
            None => seqs::first_where(views(v@), p) is None,
        },
{
    let ghost all = views(v@);
    for i in 0..v.len()
        invariant
            decides(f, p),
            all == views(v@),
            seqs::first_where(all.take(i as int), p) is None,
    {
        proof {
            assert(all.take(i + 1).drop_last() =~= all.take(i as int));
            assert(all.take(i + 1).last() == v@[i as int]@);
        }
        if f(&v[i]) {
            proof {
                seqs::lemma_first_extends(all, p, i + 1);
            }
            return Some(i);
        }
    }
    proof {
        assert(all.take(all.len() as int) =~= all);
    }
    None
}

/// The largest value of `g` over the items of `v` that satisfy `p`.
pub(crate) fn max<T: View, F: Fn(&T) -> bool, G: Fn(&T) -> i64>(
    v: &Vec<T>,
    from: usize,
    to: usize,
    f: F,
    g: G,
    Ghost(p): Ghost<spec_fn(T::V) -> bool>,
    Ghost(h): Ghost<spec_fn(T::V) -> int>,
) -> (r: Option<i64>)
    requires
        from <= to <= v@.len(),
        decides(f, p),
        computes(g, h),
    ensures
        match r {
            Some(m) => seqs::max_of(
                seqs::keep(views(v@).subrange(from as int, to as int), p),
                h,
            ) == Some(m as int),
            None => seqs::max_of(
                seqs::keep(views(v@).subrange(from as int, to as int), p),
                h,
            ) is None,
        },
{
    let ghost all = views(v@).subrange(from as int, to as int);
    let mut best: Option<i64> = None;
    for i in from..to
        invariant
            from <= to <= v@.len(),
            decides(f, p),
            computes(g, h),
            all == views(v@).subrange(from as int, to as int),
            match best {
                Some(m) => seqs::max_of(seqs::keep(all.take(i - from), p), h) == Some(m as int),
                None => seqs::max_of(seqs::keep(all.take(i - from), p), h) is None,
            },
    {
        let ghost kept = seqs::keep(all.take(i - from), p);
        proof {
            assert(all.take(i - from + 1).drop_last() =~= all.take(i - from));
            assert(all.take(i - from + 1).last() == v@[i as int]@);
            assert(kept.push(v@[i as int]@).drop_last() =~= kept);
        }
        if f(&v[i]) {
            let n: i64 = g(&v[i]);
            best = match best {
                Some(m) => if n > m {
                    Some(n)
                } else {
                    Some(m)
                },
                None => Some(n),
            };
        }
    }
    proof {
        assert(all.take(to - from) =~= all);
    }
    best
}

} // verus!
