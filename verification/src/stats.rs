//! Integer statistics: the median and the most frequent element of a list.

use vstd::multiset::Multiset;
use vstd::prelude::*;

verus! {

/// Division by two truncated toward zero, as machine division rounds.
pub open spec fn div2_trunc(b: int) -> int {
    if b >= 0 {
        b / 2
    } else {
        -((-b) / 2)
    }
}

/// In ascending order.
pub open spec fn sorted_i32(s: Seq<i32>) -> bool {
    forall|i: int, j: int| 0 <= i < j < s.len() ==> s[i] <= s[j]
}

/// The median of a sorted list: its middle element for an odd length, else
/// the mean of the two middle elements, truncated toward zero.
pub open spec fn median_of(s: Seq<i32>) -> int {
    if s.len() % 2 == 1 {
        s[s.len() as int / 2] as int
    } else {
        div2_trunc(s[s.len() as int / 2 - 1] + s[s.len() as int / 2])
    }
}

/// Two sorted lists with the same multiset of elements are equal: the
/// sorted order of a multiset is unique, so a clause over any sorted
/// rearrangement pins its value.
pub proof fn lemma_sorted_unique(a: Seq<i32>, b: Seq<i32>)
    requires
        sorted_i32(a),
        sorted_i32(b),
        a.to_multiset() == b.to_multiset(),
    ensures
        a == b,
    decreases a.len(),
{
    broadcast use vstd::seq_lib::group_to_multiset_ensures;

    if a.len() == 0 {
        assert(b.to_multiset().len() == 0);
        assert(a =~= b);
    } else {
        assert(a.len() == a.to_multiset().len());
        assert(b.len() == b.to_multiset().len());
        assert(a[0] == b[0]) by {
            assert(a.to_multiset().count(a[0]) > 0);
            assert(b.to_multiset().count(b[0]) > 0);
            assert(a.contains(b[0]));
            assert(b.contains(a[0]));
            let ia = choose|ia: int| 0 <= ia < a.len() && a[ia] == b[0];
            let ib = choose|ib: int| 0 <= ib < b.len() && b[ib] == a[0];
            assert(a[0] <= a[ia] && b[0] <= b[ib]);
        }
        let a1 = a.drop_first();
        let b1 = b.drop_first();
        assert(a.remove(0) =~= a1);
        assert(b.remove(0) =~= b1);
        assert(a1.to_multiset() =~= b1.to_multiset()) by {
            assert(a.remove(0).to_multiset() =~= a.to_multiset().remove(a[0]));
            assert(b.remove(0).to_multiset() =~= b.to_multiset().remove(b[0]));
        }
        assert(sorted_i32(a1)) by {
            assert(forall|x: int| 0 <= x < a1.len() ==> a1[x] == a[x + 1]);
        }
        assert(sorted_i32(b1)) by {
            assert(forall|x: int| 0 <= x < b1.len() ==> b1[x] == b[x + 1]);
        }
        lemma_sorted_unique(a1, b1);
        assert(forall|x: int| 1 <= x < a.len() ==> a[x] == a1[x - 1] && b[x] == b1[x - 1]);
        assert(a =~= b);
    }
}

/// Half of the sum of two values, truncated toward zero; always fits.
fn half_sum(a: i32, b: i32) -> (r: i32)
    ensures
        r as int == div2_trunc(a + b),
{
    let s: i64 = (a as i64) + (b as i64);
    let half: i64 = if s >= 0 {
        ((s as u64) / 2) as i64
    } else {
        let m: u64 = (-s) as u64;
        -((m / 2) as i64)
    };
    half as i32
}

/// Returns a copy of `v` in ascending order; the multiset of elements is
/// preserved.
fn sort_ints(v: &Vec<i32>) -> (r: Vec<i32>)
    ensures
        sorted_i32(r@),
        r@.to_multiset() == v@.to_multiset(),
{
    let mut r: Vec<i32> = Vec::new();
    let mut idx: usize = 0;
    proof {
        broadcast use vstd::seq_lib::group_to_multiset_ensures;

        assert(v@.take(0) =~= Seq::<i32>::empty());
        assert(r@.to_multiset() =~= v@.take(0).to_multiset());
    }
    while idx < v.len()
        invariant
            idx <= v@.len(),
            sorted_i32(r@),
            r@.to_multiset() == v@.take(idx as int).to_multiset(),
        decreases v@.len() - idx,
    {
        let x = v[idx];
        let mut k: usize = 0;
        while k < r.len() && r[k] <= x
            invariant
                k <= r@.len(),
                forall|m: int| 0 <= m < k ==> r@[m] <= x,
            decreases r@.len() - k,
        {
            k = k + 1;
        }
        let ghost old_r = r@;
        r.insert(k, x);
        proof {
            broadcast use vstd::seq_lib::group_to_multiset_ensures;

            old_r.insert_ensures(k as int, x);
            crate::order::lemma_insert_to_multiset(old_r, k as int, x);
            assert forall|a: int, b: int| 0 <= a < b < r@.len() implies r@[a] <= r@[b] by {
                if b < k {
                    assert(r@[a] == old_r[a] && r@[b] == old_r[b]);
                } else if a > k {
                    assert(r@[a] == old_r[a - 1] && r@[b] == old_r[b - 1]);
                } else if a < k && b == k {
                    assert(r@[a] == old_r[a]);
                } else if a == k && b > k {
                    assert(r@[b] == old_r[b - 1]);
                    if b - 1 > k {
                        assert(old_r[k as int] <= old_r[b - 1]);
                    }
                } else if a < k && b > k {
                    assert(r@[a] == old_r[a] && r@[b] == old_r[b - 1]);
                }
            }
            assert(v@.take(idx as int + 1) =~= v@.take(idx as int).push(v@[idx as int]));
            assert(v@.take(idx as int).push(v@[idx as int]).to_multiset() =~= v@.take(
                idx as int,
            ).to_multiset().insert(v@[idx as int]));
        }
        idx = idx + 1;
    }
    proof {
        assert(v@.take(v@.len() as int) =~= v@);
    }
    r
}

/// How often `v` occurs in `list`.
fn count_val(list: &Vec<i32>, v: i32) -> (r: usize)
    ensures
        r == list@.to_multiset().count(v),
{
    let mut r: usize = 0;
    let mut i: usize = 0;
    proof {
        broadcast use vstd::seq_lib::group_to_multiset_ensures;

        assert(list@.take(0) =~= Seq::<i32>::empty());
        assert(Seq::<i32>::empty().to_multiset() =~= Multiset::empty());
    }
    while i < list.len()
        invariant
            i <= list@.len(),
            r <= i,
            r == list@.take(i as int).to_multiset().count(v),
        decreases list@.len() - i,
    {
        proof {
            broadcast use vstd::seq_lib::group_to_multiset_ensures;

            assert(list@.take(i as int + 1) =~= list@.take(i as int).push(list@[i as int]));
            assert(list@.take(i as int).push(list@[i as int]).to_multiset() =~= list@.take(
                i as int,
            ).to_multiset().insert(list@[i as int]));
        }
        if list[i] == v {
            r = r + 1;
        }
        i = i + 1;
    }
    proof {
        assert(list@.take(list@.len() as int) =~= list@);
    }
    r
}

/// The median of the list once sorted, and a most frequent element; `None`
/// for the empty list. The sorted order of a multiset is unique, so the
/// median clause pins the result.
pub fn median_and_mode(list: &Vec<i32>) -> (r: (Option<i32>, Option<i32>))
    ensures
        list@.len() == 0 ==> r == (None::<i32>, None::<i32>),
        list@.len() > 0 ==> (r.0 matches Some(med) && exists|s: Seq<i32>|
            #[trigger] s.to_multiset() == list@.to_multiset() && sorted_i32(s) && med as int
                == median_of(s)),
        list@.len() > 0 ==> (r.1 matches Some(m) && list@.contains(m) && forall|x: i32|
            list@.contains(x) ==> list@.to_multiset().count(x) <= list@.to_multiset().count(m)),
{
    broadcast use vstd::seq_lib::group_to_multiset_ensures;

    if list.len() == 0 {
        return (None, None);
    }
    let sorted = sort_ints(list);
    let n = sorted.len();
    proof {
        assert(sorted@.len() == sorted@.to_multiset().len());
        assert(list@.len() == list@.to_multiset().len());
    }
    let med: i32 = if n % 2 == 1 {
        sorted[n / 2]
    } else {
        half_sum(sorted[n / 2 - 1], sorted[n / 2])
    };
    let mut best: i32 = list[0];
    let mut best_count: usize = count_val(list, list[0]);
    let mut i: usize = 1;
    proof {
        assert(list@.contains(list@[0]));
    }
    while i < list.len()
        invariant
            1 <= i <= list@.len(),
            list@.contains(best),
            best_count == list@.to_multiset().count(best),
            forall|j: int|
                0 <= j < i ==> list@.to_multiset().count(#[trigger] list@[j]) <= best_count,
        decreases list@.len() - i,
    {
        let c = count_val(list, list[i]);
        if c > best_count {
            best = list[i];
            best_count = c;
            proof {
                assert(list@.contains(list@[i as int]));
            }
        }
        i = i + 1;
    }
    proof {
        broadcast use vstd::seq_lib::group_to_multiset_ensures;

        assert forall|x: i32| list@.contains(x) implies list@.to_multiset().count(x)
            <= list@.to_multiset().count(best) by {
            let j = choose|j: int| 0 <= j < list@.len() && list@[j] == x;
            assert(list@.to_multiset().count(list@[j]) <= best_count);
        }
        assert(sorted@.to_multiset() == list@.to_multiset() && sorted_i32(sorted@) && med as int
            == median_of(sorted@));
    }
    (Some(med), Some(best))
}

} // verus!
