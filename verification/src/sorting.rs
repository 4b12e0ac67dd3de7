//! Stable ordering of indices by a strict total order.

use vstd::prelude::*;

verus! {

/// `lt` orders the values in `items` strictly and totally.
pub open spec fn strict_total_on(lt: spec_fn(int, int) -> bool, items: Seq<usize>) -> bool {
    &&& forall|a: usize| items.contains(a) ==> !#[trigger] lt(a as int, a as int)
    &&& forall|a: usize, b: usize|
        items.contains(a) && items.contains(b) && a != b ==> #[trigger] lt(a as int, b as int)
            || #[trigger] lt(b as int, a as int)
    &&& forall|a: usize, b: usize, c: usize|
        items.contains(a) && items.contains(b) && items.contains(c) && #[trigger] lt(
            a as int,
            b as int,
        ) && #[trigger] lt(b as int, c as int) ==> lt(a as int, c as int)
}

/// Each element of `s` comes before every later one.
pub open spec fn sorted_by(s: Seq<usize>, lt: spec_fn(int, int) -> bool) -> bool {
    forall|i: int, j: int| 0 <= i < j < s.len() ==> lt(#[trigger] s[i] as int, #[trigger] s[j] as int)
}

/// No value occurs twice in `s`.
pub open spec fn distinct(s: Seq<usize>) -> bool {
    forall|i: int, j: int| 0 <= i < j < s.len() ==> #[trigger] s[i] != #[trigger] s[j]
}

/// The values of `items`, ordered by `before`, which computes `lt`.
pub fn sort_indices<F: Fn(usize, usize) -> bool>(
    items: &Vec<usize>,
    before: &F,
    Ghost(lt): Ghost<spec_fn(int, int) -> bool>,
) -> (r: Vec<usize>)
    requires
        distinct(items@),
        strict_total_on(lt, items@),
        forall|a: usize, b: usize|
            items@.contains(a) && items@.contains(b) ==> #[trigger] before.requires((a, b)),
        forall|a: usize, b: usize, x: bool|
            #[trigger] before.ensures((a, b), x) ==> x == lt(a as int, b as int),
    ensures
        r@.len() == items@.len(),
        forall|x: usize| r@.contains(x) <==> items@.contains(x),
        sorted_by(r@, lt),
        distinct(r@),
{
    let mut r: Vec<usize> = Vec::new();
    let mut i: usize = 0;
    while i < items.len()
        invariant
            i <= items.len(),
            distinct(items@),
            strict_total_on(lt, items@),
            forall|a: usize, b: usize|
                items@.contains(a) && items@.contains(b) ==> #[trigger] before.requires((a, b)),
            forall|a: usize, b: usize, x: bool|
                #[trigger] before.ensures((a, b), x) ==> x == lt(a as int, b as int),
            r@.len() == i,
            forall|x: usize| r@.contains(x) <==> items@.take(i as int).contains(x),
            sorted_by(r@, lt),
            distinct(r@),
        decreases items.len() - i,
    {
        let x = items[i];
        assert(items@.contains(x));
        assert(!r@.contains(x)) by {
            if r@.contains(x) {
                let k = choose|k: int| 0 <= k < i && items@.take(i as int)[k] == x;
                assert(items@[k] == items@[i as int]);
            }
        }
        let mut p: usize = 0;
        while p < r.len() && !before(x, r[p])
            invariant
                p <= r.len(),
                items@.contains(x),
                !r@.contains(x),
                forall|y: usize| r@.contains(y) ==> items@.contains(y),
                strict_total_on(lt, items@),
                forall|a: usize, b: usize|
                    items@.contains(a) && items@.contains(b) ==> #[trigger] before.requires((a, b)),
                forall|a: usize, b: usize, x: bool|
                    #[trigger] before.ensures((a, b), x) ==> x == lt(a as int, b as int),
                forall|k: int| 0 <= k < p ==> lt(#[trigger] r@[k] as int, x as int),
            decreases r.len() - p,
        {
            proof {
                let y = r@[p as int];
                assert(r@.contains(y));
                assert(y != x);
                assert(!lt(x as int, y as int));
                assert(lt(x as int, y as int) || lt(y as int, x as int));
            }
            p = p + 1;
        }
        proof {
            if p < r.len() {
                assert(r@.contains(r@[p as int]));
                assert(lt(x as int, r@[p as int] as int));
            }
        }
        let ghost old_r = r@;
        r.insert(p, x);
        proof {
            assert(r@ == old_r.insert(p as int, x));
            assert(items@.take(i + 1) =~= items@.take(i as int).push(x));
            assert forall|y: usize| r@.contains(y) <==> items@.take(i + 1).contains(y) by {
                if r@.contains(y) {
                    let k = choose|k: int| 0 <= k < r@.len() && r@[k] == y;
                    if k < p {
                        assert(old_r[k] == y);
                        assert(old_r.contains(y));
                    } else if k > p {
                        assert(old_r[k - 1] == y);
                        assert(old_r.contains(y));
                    }
                    if y == x {
                        assert(items@.take(i + 1)[i as int] == x);
                    } else {
                        assert(old_r.contains(y));
                        assert(items@.take(i as int).contains(y));
                        let m = choose|m: int| 0 <= m < i && #[trigger] items@.take(i as int)[m] == y;
                        assert(items@.take(i + 1)[m] == y);
                    }
                }
                if items@.take(i + 1).contains(y) {
                    if y != x {
                        let k = choose|k: int| 0 <= k < i + 1 && #[trigger] items@.take(i + 1)[k] == y;
                        assert(items@.take(i as int)[k] == y);
                        assert(items@.take(i as int).contains(y));
                        assert(old_r.contains(y));
                        let m = choose|m: int| 0 <= m < old_r.len() && old_r[m] == y;
                        if m < p {
                            assert(r@[m] == y);
                        } else {
                            assert(r@[m + 1] == y);
                        }
                    } else {
                        assert(r@[p as int] == x);
                    }
                }
            }
            assert forall|a: int, b: int| 0 <= a < b < r@.len() implies lt(
                #[trigger] r@[a] as int,
                #[trigger] r@[b] as int,
            ) by {
                assert(old_r.contains(old_r[0]) || old_r.len() == 0);
                if a < p && b < p {
                    assert(r@[a] == old_r[a] && r@[b] == old_r[b]);
                } else if a < p && b == p {
                    assert(r@[a] == old_r[a]);
                } else if a < p && b > p {
                    assert(r@[a] == old_r[a] && r@[b] == old_r[b - 1]);
                    assert(old_r.contains(old_r[a]) && old_r.contains(old_r[b - 1]));
                    assert(lt(old_r[a] as int, x as int));
                    assert(lt(x as int, old_r[p as int] as int));
                    assert(old_r.contains(old_r[p as int]));
                    if b - 1 > p {
                        assert(lt(old_r[p as int] as int, old_r[b - 1] as int));
                    }
                } else if a == p {
                    assert(r@[b] == old_r[b - 1]);
                    assert(old_r.contains(old_r[p as int]));
                    assert(old_r.contains(old_r[b - 1]));
                    if b - 1 > p {
                        assert(lt(old_r[p as int] as int, old_r[b - 1] as int));
                    }
                } else {
                    assert(r@[a] == old_r[a - 1] && r@[b] == old_r[b - 1]);
                }
            }
            assert forall|a: int, b: int| 0 <= a < b < r@.len() implies #[trigger] r@[a]
                != #[trigger] r@[b] by {
                assert(r@.contains(r@[a]));
                assert(items@.contains(r@[a]));
                assert(lt(r@[a] as int, r@[b] as int));
            }
        }
        i = i + 1;
    }
    assert(items@.take(items.len() as int) =~= items@);
    r
}

} // verus!
