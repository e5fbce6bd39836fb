//! Budgets of tokens.
//!
//! The estimate for a text weighs its ASCII and its other characters; the weights are
//! not whole numbers and are applied by the application.

use vstd::prelude::*;
use vstd::string::*;

verus! {

/// How many of the characters are ASCII.
pub open spec fn ascii_count(s: Seq<char>) -> nat
    decreases s.len(),
{
    if s.len() == 0 {
        0
    } else {
        ascii_count(s.drop_last()) + (if (s.last() as u32) < 128 {
            1nat
        } else {
            0nat
        })
    }
}

/// How many characters of a text are ASCII, and how many are not.
pub fn count_chars(s: &str) -> (r: (usize, usize))
    ensures
        r.0 == ascii_count(s@),
        r.0 + r.1 == s@.len(),
{
    let n: usize = s.unicode_len();
    let mut ascii: usize = 0;
    let mut i: usize = 0;
    assert(s@.take(0).len() == 0);
    while i < n
        invariant
            i <= n,
            n == s@.len(),
            ascii <= i,
            ascii == ascii_count(s@.take(i as int)),
        decreases n - i,
    {
        proof {
            assert(s@.take(i + 1).drop_last() == s@.take(i as int));
            assert(s@.take(i + 1).last() == s@[i as int]);
        }
        let c: char = s.get_char(i);
        if (c as u32) < 128 {
            ascii += 1;
        }
        i += 1;
    }
    assert(s@.take(n as int) == s@);
    (ascii, n - ascii)
}

/// The sum of some numbers of tokens.
pub open spec fn total(tokens: Seq<u32>) -> int
    decreases tokens.len(),
{
    if tokens.len() == 0 {
        0
    } else {
        tokens[0] + total(tokens.skip(1))
    }
}

/// How many have to go from the front, with `gone` of them gone already: as long as the
/// rest is over the budget and more than `min_keep` remain.
pub open spec fn drop_from(tokens: Seq<u32>, budget: int, min_keep: int, gone: int) -> int
    decreases tokens.len() - gone,
{
    if 0 <= gone < tokens.len() && total(tokens.skip(gone)) > budget && tokens.len() - gone > min_keep {
        drop_from(tokens, budget, min_keep, gone + 1)
    } else {
        gone
    }
}

proof fn lemma_total_bounds(tokens: Seq<u32>)
    ensures
        0 <= total(tokens) <= tokens.len() * (u32::MAX as int),
    decreases tokens.len(),
{
    if tokens.len() > 0 {
        lemma_total_bounds(tokens.skip(1));
        let n = tokens.len() as int;
        let m = u32::MAX as int;
        assert((n - 1) * m + m == n * m) by (nonlinear_arith);
    }
}

/// The sum counted from the other end.
pub proof fn lemma_total_last(tokens: Seq<u32>)
    requires
        tokens.len() > 0,
    ensures
        total(tokens) == total(tokens.drop_last()) + tokens.last(),
    decreases tokens.len(),
{
    reveal_with_fuel(total, 2);
    if tokens.len() > 1 {
        lemma_total_last(tokens.skip(1));
        assert(tokens.drop_last()[0] == tokens[0]);
        assert(tokens.skip(1).drop_last() =~= tokens.drop_last().skip(1));
        assert(tokens.skip(1).last() == tokens.last());
    }
}

fn sum(tokens: &[u32]) -> (r: u128)
    ensures
        r == total(tokens@),
{
    let n: usize = tokens.len();
    let mut i: usize = n;
    let mut t: u128 = 0;
    assert(tokens@.skip(n as int).len() == 0);
    while i > 0
        invariant
            i <= n,
            n == tokens@.len(),
            t == total(tokens@.skip(i as int)),
        decreases i,
    {
        i -= 1;
        proof {
            lemma_total_bounds(tokens@.skip(i + 1));
            assert((n - i - 1) * (u32::MAX as int) <= (u64::MAX as int) * (u32::MAX as int))
                by (nonlinear_arith)
                requires
                    n - i - 1 <= u64::MAX,
            ;
            assert(tokens@.skip(i as int).skip(1) =~= tokens@.skip(i + 1));
            assert(tokens@.skip(i as int)[0] == tokens@[i as int]);
        }
        t = t + tokens[i] as u128;
    }
    assert(tokens@.skip(0) == tokens@);
    t
}

/// How many of the oldest messages have to go for the rest to fit the budget. Only the
/// front is cut, so that what stays is the same to the byte; at least `min_keep` stay.
pub fn compute_drop(hist_tokens: &[u32], budget: u64, min_keep: usize) -> (r: usize)
    ensures
        r == drop_from(hist_tokens@, budget as int, min_keep as int, 0),
        r <= hist_tokens@.len(),
{
    let n: usize = hist_tokens.len();
    let mut rest: u128 = sum(hist_tokens);
    let mut drop: usize = 0;
    assert(hist_tokens@.skip(0) == hist_tokens@);
    while rest > budget as u128 && n - drop > min_keep
        invariant
            n == hist_tokens@.len(),
            drop <= n,
            rest == total(hist_tokens@.skip(drop as int)),
            drop_from(hist_tokens@, budget as int, min_keep as int, 0) == drop_from(
                hist_tokens@,
                budget as int,
                min_keep as int,
                drop as int,
            ),
        decreases n - drop,
    {
        proof {
            lemma_total_bounds(hist_tokens@.skip(drop + 1));
            assert(hist_tokens@.skip(drop as int).skip(1) =~= hist_tokens@.skip(drop + 1));
            assert(hist_tokens@.skip(drop as int)[0] == hist_tokens@[drop as int]);
        }
        rest = rest - hist_tokens[drop] as u128;
        drop += 1;
    }
    drop
}

// ---------- laws ----------

proof fn lemma_drop_from(tokens: Seq<u32>, budget: int, min_keep: int, gone: int)
    requires
        0 <= gone <= tokens.len(),
        0 <= min_keep,
        gone == 0 || tokens.len() - gone >= min_keep,
    ensures
        gone <= drop_from(tokens, budget, min_keep, gone) <= tokens.len(),
        ({
            let d = drop_from(tokens, budget, min_keep, gone);
            &&& d == 0 || tokens.len() - d >= min_keep
            &&& total(tokens.skip(d)) <= budget || tokens.len() - d <= min_keep || d == tokens.len()
            &&& forall|k: int| gone <= k < d ==> total(#[trigger] tokens.skip(k)) > budget
        }),
    decreases tokens.len() - gone,
{
    if gone < tokens.len() && total(tokens.skip(gone)) > budget && tokens.len() - gone > min_keep {
        lemma_drop_from(tokens, budget, min_keep, gone + 1);
    }
}

/// Cutting is no more than needed and always enough: what stays fits the budget, unless
/// only the messages that have to stay are left; and with one message more it would not
/// fit.
pub proof fn law_drop_is_least(tokens: Seq<u32>, budget: int, min_keep: int)
    requires
        0 <= budget,
        0 <= min_keep,
    ensures
        ({
            let d = drop_from(tokens, budget, min_keep, 0);
            &&& 0 <= d <= tokens.len()
            &&& d > 0 ==> tokens.len() - d >= min_keep
            &&& total(tokens.skip(d)) <= budget || tokens.len() - d <= min_keep
            &&& forall|k: int| 0 <= k < d ==> total(#[trigger] tokens.skip(k)) > budget
        }),
{
    lemma_drop_from(tokens, budget, min_keep, 0);
    let d = drop_from(tokens, budget, min_keep, 0);
    if d == tokens.len() {
        assert(tokens.skip(d).len() == 0);
    }
}

/// A total is that of all of them: each adds what it is.
pub proof fn law_total_adds_up(tokens: Seq<u32>, t: u32)
    ensures
        total(Seq::<u32>::empty()) == 0,
        total(tokens.push(t)) == total(tokens) + t,
{
    lemma_total_last(tokens.push(t));
    assert(tokens.push(t).drop_last() =~= tokens);
}

/// A character counts as ASCII exactly where its number is below 128.
pub proof fn law_ascii_is_counted(s: Seq<char>, c: char)
    ensures
        ascii_count(Seq::<char>::empty()) == 0,
        (c as u32) < 128 ==> ascii_count(s.push(c)) == ascii_count(s) + 1,
        (c as u32) >= 128 ==> ascii_count(s.push(c)) == ascii_count(s),
        ascii_count(s) <= s.len(),
    decreases s.len(),
{
    assert(s.push(c).drop_last() =~= s);
    if s.len() > 0 {
        law_ascii_is_counted(s.drop_last(), c);
    }
}

} // verus!
