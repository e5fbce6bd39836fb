//! Lists that grow at the end and shrink at the front.

use vstd::prelude::*;

verus! {

/// The last `n` of a sequence.
pub open spec fn newest<A>(s: Seq<A>, n: int) -> Seq<A> {
    if s.len() <= n {
        s
    } else {
        s.skip(s.len() - n)
    }
}

/// Keeps the last `n` of a list.
pub fn keep_newest<A>(v: &mut Vec<A>, n: usize)
    ensures
        final(v)@ == newest(old(v)@, n as int),
{
    let ghost all = v@;
    let ghost mut gone: int = 0;
    assert(all.skip(0) == all);
    while v.len() > n
        invariant
            0 <= gone <= all.len(),
            v@ == all.skip(gone),
            gone == 0 || all.len() - gone >= n,
        decreases v@.len(),
    {
        proof {
            assert(all.skip(gone).remove(0) =~= all.skip(gone + 1));
            gone = gone + 1;
        }
        v.remove(0);
    }
}

/// Drops the first `n` of a list.
pub fn drop_first<A>(v: &mut Vec<A>, n: usize)
    requires
        n <= old(v)@.len(),
    ensures
        final(v)@ == old(v)@.skip(n as int),
{
    let ghost all = v@;
    let mut i: usize = 0;
    assert(all.skip(0) == all);
    while i < n
        invariant
            i <= n <= all.len(),
            v@ == all.skip(i as int),
        decreases n - i,
    {
        assert(all.skip(i as int).remove(0) =~= all.skip(i + 1));
        v.remove(0);
        i += 1;
    }
}

/// The least of a number and a bound.
pub open spec fn capped(n: int, top: int) -> int {
    if n > top {
        top
    } else {
        n
    }
}

// ---------- laws ----------

/// Of a list the newest stay, in their order: all where they are no more than may be
/// kept, else exactly so many, and the last of these is the last of all.
pub proof fn law_newest_stay<A>(s: Seq<A>, n: int)
    requires
        n >= 0,
    ensures
        s.len() <= n ==> newest(s, n) == s,
        s.len() > n ==> newest(s, n).len() == n,
        forall|i: int|
            0 <= i < newest(s, n).len() ==> #[trigger] newest(s, n)[i] == s[s.len() - newest(s, n).len() + i],
{
}

/// A number is bounded from above by the bound, and is as it was below it.
pub proof fn law_bound_holds(n: int, top: int)
    ensures
        capped(n, top) <= top,
        capped(n, top) <= n,
        capped(n, top) == n || capped(n, top) == top,
{
}

/// What is picked out of a list is of that list.
pub proof fn lemma_filter_from<A>(s: Seq<A>, pred: spec_fn(A) -> bool)
    ensures
        forall|i: int| 0 <= i < s.filter(pred).len() ==> s.contains(#[trigger] s.filter(pred)[i]),
    decreases s.len(),
{
    reveal(Seq::filter);
    if s.len() > 0 {
        let init = s.drop_last();
        lemma_filter_from(init, pred);
        assert forall|i: int| 0 <= i < s.filter(pred).len() implies s.contains(
            #[trigger] s.filter(pred)[i],
        ) by {
            if i < init.filter(pred).len() {
                let x = init.filter(pred)[i];
                assert(init.contains(x));
                let k = choose|k: int| 0 <= k < init.len() && init[k] == x;
                assert(s[k] == x);
            } else {
                assert(s[s.len() - 1] == s.last());
            }
        }
    }
}

} // verus!
