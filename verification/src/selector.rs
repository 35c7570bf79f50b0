//! Quadrant selection: the first bin attaining the minimum luminance
//! spread wins.

use vstd::prelude::*;

use crate::frac::{frac_lt, frac_lt_spec};
use crate::stats::DevKey;

verus! {

/// Strict order between two selection keys, as exact fractions.
pub open spec fn key_lt(a: DevKey, b: DevKey) -> bool {
    frac_lt_spec(a.num as int, a.den as int, b.num as int, b.den as int)
}

/// Index of the first key attaining the minimum of a sequence, scanning
/// left to right: a later key displaces the running minimum only when it is
/// strictly smaller.
pub open spec fn first_min(keys: Seq<DevKey>) -> int
    decreases keys.len(),
{
    if keys.len() <= 1 {
        0
    } else {
        let i = first_min(keys.drop_last());
        if key_lt(keys.last(), keys[i]) {
            keys.len() - 1
        } else {
            i
        }
    }
}

/// Strict fraction order is transitive.
proof fn lemma_frac_lt_trans(an: int, ad: int, bn: int, bd: int, cn: int, cd: int)
    by (nonlinear_arith)
    requires
        ad > 0,
        bd > 0,
        cd > 0,
        an * bd < bn * ad,
        bn * cd < cn * bd,
    ensures
        an * cd < cn * ad,
{
}

/// A fraction below `b` is also below anything not below `b`.
proof fn lemma_frac_lt_le_trans(an: int, ad: int, bn: int, bd: int, cn: int, cd: int)
    by (nonlinear_arith)
    requires
        ad > 0,
        bd > 0,
        cd > 0,
        an * bd < bn * ad,
        !(cn * bd < bn * cd),
    ensures
        an * cd < cn * ad,
{
}

/// The first-minimum index is in range, no key is strictly below it, and it
/// is strictly below every key before it — ties are broken by the lowest
/// index.
pub proof fn lemma_first_min(keys: Seq<DevKey>)
    requires
        keys.len() >= 1,
        forall|j: int| 0 <= j < keys.len() ==> (#[trigger] keys[j]).den > 0,
    ensures
        0 <= first_min(keys) < keys.len(),
        forall|j: int| 0 <= j < keys.len() ==> !key_lt(#[trigger] keys[j], keys[first_min(keys)]),
        forall|j: int| 0 <= j < first_min(keys) ==> key_lt(keys[first_min(keys)], #[trigger] keys[j]),
    decreases keys.len(),
{
    if keys.len() > 1 {
        let prefix = keys.drop_last();
        lemma_first_min(prefix);
        let i = first_min(prefix);
        let last = keys.last();
        assert(forall|j: int| 0 <= j < prefix.len() ==> #[trigger] prefix[j] == keys[j]);
        assert(keys[keys.len() - 1] == last);
        if key_lt(last, keys[i]) {
            let m = keys.len() - 1;
            assert(first_min(keys) == m);
            assert forall|j: int| 0 <= j < keys.len() implies !key_lt(
                #[trigger] keys[j],
                keys[m],
            ) by {
                if j < m {
                    assert(!key_lt(prefix[j], prefix[i]));
                    if key_lt(keys[j], last) {
                        lemma_frac_lt_trans(
                            keys[j].num as int,
                            keys[j].den as int,
                            last.num as int,
                            last.den as int,
                            keys[i].num as int,
                            keys[i].den as int,
                        );
                    }
                }
            }
            assert forall|j: int| 0 <= j < m implies key_lt(keys[m], #[trigger] keys[j]) by {
                assert(!key_lt(prefix[j], prefix[i]));
                lemma_frac_lt_le_trans(
                    last.num as int,
                    last.den as int,
                    keys[i].num as int,
                    keys[i].den as int,
                    keys[j].num as int,
                    keys[j].den as int,
                );
            }
        } else {
            assert(first_min(keys) == i);
            assert forall|j: int| 0 <= j < keys.len() implies !key_lt(
                #[trigger] keys[j],
                keys[i],
            ) by {
                if j < keys.len() - 1 {
                    assert(!key_lt(prefix[j], prefix[i]));
                }
            }
            assert forall|j: int| 0 <= j < i implies key_lt(keys[i], #[trigger] keys[j]) by {
                assert(key_lt(prefix[i], prefix[j]));
            }
        }
    }
}

/// Picks the quadrant whose key is minimal, breaking ties by the lowest
/// index.
pub fn select_quadrant(keys: &Vec<DevKey>) -> (i: usize)
    requires
        keys@.len() >= 1,
        forall|j: int| 0 <= j < keys@.len() ==> (#[trigger] keys@[j]).den > 0,
    ensures
        i == first_min(keys@),
        0 <= i < keys@.len(),
        forall|j: int| 0 <= j < keys@.len() ==> !key_lt(#[trigger] keys@[j], keys@[i as int]),
        forall|j: int| 0 <= j < i ==> key_lt(keys@[i as int], #[trigger] keys@[j]),
{
    let n = keys.len();
    let mut best: usize = 0;
    let mut j: usize = 1;
    proof {
        assert(keys@.take(1).len() == 1);
        assert(first_min(keys@.take(1)) == 0);
    }
    while j < n
        invariant
            1 <= j <= n,
            n == keys@.len(),
            best < j,
            forall|t: int| 0 <= t < keys@.len() ==> (#[trigger] keys@[t]).den > 0,
            best == first_min(keys@.take(j as int)),
        decreases n - j,
    {
        let cand = keys[j];
        let cur = keys[best];
        let smaller = frac_lt(cand.num, cand.den, cur.num, cur.den);
        proof {
            let t = keys@.take(j as int + 1);
            assert(t.drop_last() =~= keys@.take(j as int));
            assert(t.last() == keys@[j as int]);
            assert(t[first_min(t.drop_last())] == keys@.take(j as int)[first_min(keys@.take(
                j as int,
            ))]);
        }
        if smaller {
            best = j;
        }
        j = j + 1;
    }
    proof {
        assert(keys@.take(n as int) =~= keys@);
        lemma_first_min(keys@);
    }
    best
}

} // verus!
