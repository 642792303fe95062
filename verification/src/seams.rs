//! Ordered, duplicate-free seam coordinate lists.

use vstd::prelude::*;

verus! {

/// Every element is strictly smaller than every later element.
pub open spec fn strictly_increasing(s: Seq<u32>) -> bool {
    forall|i: int, j: int| 0 <= i < j < s.len() ==> s[i] < s[j]
}

/// Both sequences hold exactly the same values (ignoring order and repeats).
pub open spec fn same_values(a: Seq<u32>, b: Seq<u32>) -> bool {
    forall|v: u32| a.contains(v) <==> b.contains(v)
}

/// `sorted` is the ascending, duplicate-free arrangement of the values of `raw`.
pub open spec fn is_sorted_set_of(sorted: Seq<u32>, raw: Seq<u32>) -> bool {
    strictly_increasing(sorted) && same_values(sorted, raw)
}

/// Every coordinate leaves at least two pixels on both of its sides.
pub open spec fn seams_inside(s: Seq<u32>, limit: u32) -> bool {
    forall|i: int| 0 <= i < s.len() ==> 1 < #[trigger] s[i] && s[i] + 1 < limit
}

/// How many of the values are at most `v`.
pub open spec fn count_at_most(s: Seq<u32>, v: u32) -> nat
    decreases s.len(),
{
    if s.len() == 0 {
        0
    } else {
        (if s[0] <= v {
            1nat
        } else {
            0nat
        }) + count_at_most(s.drop_first(), v)
    }
}

/// In an ascending list, the values at most `v` are exactly the first
/// `p` ones.
pub proof fn lemma_count_at_most_sorted(s: Seq<u32>, v: u32, p: int)
    requires
        strictly_increasing(s),
        0 <= p <= s.len(),
        forall|i: int| 0 <= i < p ==> s[i] <= v,
        forall|i: int| p <= i < s.len() ==> v < s[i],
    ensures
        count_at_most(s, v) == p,
    decreases s.len(),
{
    if s.len() > 0 {
        let t = s.drop_first();
        if p > 0 {
            assert forall|i: int, j: int| 0 <= i < j < t.len() implies t[i] < t[j] by {
                assert(t[i] == s[i + 1] && t[j] == s[j + 1]);
            }
            assert forall|i: int| 0 <= i < p - 1 implies t[i] <= v by {
                assert(t[i] == s[i + 1]);
            }
            assert forall|i: int| p - 1 <= i < t.len() implies v < t[i] by {
                assert(t[i] == s[i + 1]);
            }
            lemma_count_at_most_sorted(t, v, p - 1);
        } else {
            assert forall|i: int, j: int| 0 <= i < j < t.len() implies t[i] < t[j] by {
                assert(t[i] == s[i + 1] && t[j] == s[j + 1]);
            }
            assert forall|i: int| 0 <= i < t.len() implies v < t[i] by {
                assert(t[i] == s[i + 1]);
            }
            lemma_count_at_most_sorted(t, v, 0);
        }
    }
}

/// In an ascending list the values at most `v` come first, so
/// `count_at_most(s, v)` is the index of the first value after `v`: the
/// seams next to the tile holding coordinate `v` are the last one at or
/// before `v` and the first one after it.
pub proof fn lemma_count_at_most_splits(s: Seq<u32>, v: u32)
    requires
        strictly_increasing(s),
    ensures
        count_at_most(s, v) <= s.len(),
        forall|i: int| 0 <= i < count_at_most(s, v) ==> #[trigger] s[i] <= v,
        forall|i: int| count_at_most(s, v) <= i < s.len() ==> v < #[trigger] s[i],
    decreases s.len(),
{
    if s.len() > 0 {
        let t = s.drop_first();
        assert forall|i: int, j: int| 0 <= i < j < t.len() implies t[i] < t[j] by {
            assert(t[i] == s[i + 1] && t[j] == s[j + 1]);
        }
        lemma_count_at_most_splits(t, v);
        let q = count_at_most(t, v);
        if s[0] <= v {
            assert forall|i: int| 0 <= i < count_at_most(s, v) implies #[trigger] s[i] <= v by {
                if i > 0 {
                    assert(s[i] == t[i - 1]);
                }
            }
            assert forall|i: int| count_at_most(s, v) <= i < s.len() implies v < #[trigger] s[i] by {
                assert(s[i] == t[i - 1]);
            }
        } else {
            if q > 0 {
                assert(t[0] <= v);
                assert(s[0] < s[1]);
            }
            assert forall|i: int| count_at_most(s, v) <= i < s.len() implies v < #[trigger] s[i] by {
                if i > 0 {
                    assert(s[i] == t[i - 1]);
                }
            }
        }
    }
}

/// An ascending list of distinct values has a unique arrangement: two
/// ascending lists that hold the same values are the same list.
pub proof fn lemma_sorted_set_unique(a: Seq<u32>, b: Seq<u32>)
    requires
        strictly_increasing(a),
        strictly_increasing(b),
        same_values(a, b),
    ensures
        a == b,
    decreases a.len() + b.len(),
{
    if a.len() == 0 {
        if b.len() > 0 {
            assert(b.contains(b[0]));
        }
        assert(a =~= b);
    } else if b.len() == 0 {
        assert(a.contains(a[0]));
    } else {
        // The first element of each is the minimum of the shared values.
        assert(a.contains(a[0]));
        let j = choose|j: int| 0 <= j < b.len() && b[j] == a[0];
        assert(b.contains(b[0]));
        let i = choose|i: int| 0 <= i < a.len() && a[i] == b[0];
        assert(b[0] <= b[j]);
        assert(a[0] <= a[i]);
        assert(a[0] == b[0]);
        let ta = a.drop_first();
        let tb = b.drop_first();
        assert forall|x: int, y: int| 0 <= x < y < ta.len() implies ta[x] < ta[y] by {
            assert(ta[x] == a[x + 1] && ta[y] == a[y + 1]);
        }
        assert forall|x: int, y: int| 0 <= x < y < tb.len() implies tb[x] < tb[y] by {
            assert(tb[x] == b[x + 1] && tb[y] == b[y + 1]);
        }
        assert forall|v: u32| ta.contains(v) <==> tb.contains(v) by {
            if ta.contains(v) {
                let k = choose|k: int| 0 <= k < ta.len() && ta[k] == v;
                assert(a[k + 1] == v);
                assert(a.contains(v));
                let m = choose|m: int| 0 <= m < b.len() && b[m] == v;
                assert(v > a[0]);
                assert(m != 0);
                assert(tb[m - 1] == v);
            }
            if tb.contains(v) {
                let k = choose|k: int| 0 <= k < tb.len() && tb[k] == v;
                assert(b[k + 1] == v);
                assert(b.contains(v));
                let m = choose|m: int| 0 <= m < a.len() && a[m] == v;
                assert(v > b[0]);
                assert(m != 0);
                assert(ta[m - 1] == v);
            }
        }
        lemma_sorted_set_unique(ta, tb);
        assert(a =~= seq![a[0]] + ta);
        assert(b =~= seq![b[0]] + tb);
    }
}

/// A strictly increasing list of values in `[low, high]` holds at most
/// `high - low + 1` values.
pub proof fn lemma_increasing_length_bound(s: Seq<u32>, low: int, high: int)
    requires
        strictly_increasing(s),
        forall|i: int| 0 <= i < s.len() ==> low <= #[trigger] s[i] <= high,
    ensures
        s.len() <= if high - low + 1 > 0 {
            high - low + 1
        } else {
            0
        },
    decreases s.len(),
{
    if s.len() > 0 {
        let t = s.drop_first();
        assert forall|x: int, y: int| 0 <= x < y < t.len() implies t[x] < t[y] by {
            assert(t[x] == s[x + 1] && t[y] == s[y + 1]);
        }
        assert forall|i: int| 0 <= i < t.len() implies s[0] + 1 <= #[trigger] t[i] <= high by {
            assert(t[i] == s[i + 1]);
        }
        lemma_increasing_length_bound(t, s[0] + 1, high);
    }
}

/// The ascending, duplicate-free arrangement of `values`.
pub fn sorted_unique(values: &Vec<u32>) -> (sorted: Vec<u32>)
    ensures
        is_sorted_set_of(sorted@, values@),
        sorted@.len() <= values@.len(),
{
    let mut sorted: Vec<u32> = Vec::new();
    let mut i: usize = 0;
    while i < values.len()
        invariant
            i <= values.len(),
            strictly_increasing(sorted@),
            same_values(sorted@, values@.take(i as int)),
            sorted@.len() <= i,
        decreases values.len() - i,
    {
        let v = values[i];
        // First position whose value is at least `v`.
        let mut p: usize = 0;
        while p < sorted.len() && sorted[p] < v
            invariant
                p <= sorted.len(),
                forall|k: int| 0 <= k < p ==> sorted@[k] < v,
            decreases sorted.len() - p,
        {
            p = p + 1;
        }
        let ghost before = sorted@;
        let ghost old_prefix = values@.take(i as int);
        let ghost new_prefix = values@.take(i + 1);
        assert(new_prefix =~= old_prefix.push(v));
        if p < sorted.len() && sorted[p] == v {
            assert forall|x: u32| sorted@.contains(x) <==> new_prefix.contains(x) by {
                if new_prefix.contains(x) && x != v {
                    let k = choose|k: int| 0 <= k < i + 1 && new_prefix[k] == x;
                    assert(old_prefix[k] == x);
                }
                if sorted@.contains(x) {
                    assert(old_prefix.contains(x));
                    let k = choose|k: int| 0 <= k < i && old_prefix[k] == x;
                    assert(new_prefix[k] == x);
                }
            }
        } else {
            sorted.insert(p, v);
            assert forall|a: int, b: int| 0 <= a < b < sorted@.len() implies sorted@[a]
                < sorted@[b] by {
                if a < p as int && b == p as int {
                } else if a == p as int {
                    assert(sorted@[b] == before[b - 1]);
                    if b - 1 > p as int {
                        assert(before[p as int] < before[b - 1]);
                    }
                } else if a < p as int && b < p as int {
                    assert(sorted@[a] == before[a] && sorted@[b] == before[b]);
                } else if a < p as int {
                    assert(sorted@[a] == before[a]);
                    assert(sorted@[b] == before[b - 1]);
                } else {
                    assert(sorted@[a] == before[a - 1]);
                    assert(sorted@[b] == before[b - 1]);
                }
            }
            assert forall|x: u32| sorted@.contains(x) <==> new_prefix.contains(x) by {
                if sorted@.contains(x) && x != v {
                    let k = choose|k: int| 0 <= k < sorted@.len() && sorted@[k] == x;
                    if k < p {
                        assert(before[k] == x);
                    } else {
                        assert(before[k - 1] == x);
                    }
                    assert(before.contains(x));
                    assert(old_prefix.contains(x));
                    let m = choose|m: int| 0 <= m < i && old_prefix[m] == x;
                    assert(new_prefix[m] == x);
                }
                if sorted@.contains(x) && x == v {
                    assert(new_prefix[i as int] == v);
                }
                if new_prefix.contains(x) {
                    if x == v {
                        assert(sorted@[p as int] == v);
                    } else {
                        let k = choose|k: int| 0 <= k < i + 1 && new_prefix[k] == x;
                        assert(old_prefix[k] == x);
                        assert(before.contains(x));
                        let m = choose|m: int| 0 <= m < before.len() && before[m] == x;
                        if m < p {
                            assert(sorted@[m] == x);
                        } else {
                            assert(sorted@[m + 1] == x);
                        }
                    }
                }
            }
        }
        i = i + 1;
    }
    assert(values@.take(values@.len() as int) =~= values@);
    sorted
}

} // verus!
