//! The alphabetical (code-point lexicographic) order on strings, and a
//! verified sort for vectors of strings.

use vstd::prelude::*;

verus! {

/// Lexicographic order on character sequences by code point; this is the
/// order in which directory queries return their results.
pub open spec fn lex_le(a: Seq<char>, b: Seq<char>) -> bool
    decreases a.len(),
{
    if a.len() == 0 {
        true
    } else if b.len() == 0 {
        false
    } else if a[0] == b[0] {
        lex_le(a.drop_first(), b.drop_first())
    } else {
        (a[0] as int) < (b[0] as int)
    }
}

/// The order is reflexive.
pub proof fn lemma_lex_le_refl(a: Seq<char>)
    ensures
        lex_le(a, a),
    decreases a.len(),
{
    if a.len() > 0 {
        lemma_lex_le_refl(a.drop_first());
    }
}

/// Any two character sequences are comparable.
pub proof fn lemma_lex_le_total(a: Seq<char>, b: Seq<char>)
    ensures
        lex_le(a, b) || lex_le(b, a),
    decreases a.len(),
{
    if a.len() == 0 || b.len() == 0 {
    } else if a[0] == b[0] {
        lemma_lex_le_total(a.drop_first(), b.drop_first());
    }
}

/// Two sequences each at most the other are equal.
pub proof fn lemma_lex_le_antisymmetric(a: Seq<char>, b: Seq<char>)
    requires
        lex_le(a, b),
        lex_le(b, a),
    ensures
        a == b,
    decreases a.len(),
{
    if a.len() == 0 {
        assert(b.len() == 0);
        assert(a =~= b);
    } else {
        assert(a[0] == b[0]);
        lemma_lex_le_antisymmetric(a.drop_first(), b.drop_first());
        assert(a =~= b) by {
            assert(a.len() == b.len());
            assert(forall|i: int|
                1 <= i < a.len() ==> a[i] == a.drop_first()[i - 1] && b[i] == b.drop_first()[i
                    - 1]);
        }
    }
}

/// The order is transitive.
pub proof fn lemma_lex_le_transitive(a: Seq<char>, b: Seq<char>, c: Seq<char>)
    requires
        lex_le(a, b),
        lex_le(b, c),
    ensures
        lex_le(a, c),
    decreases a.len(),
{
    if a.len() == 0 || b.len() == 0 || c.len() == 0 {
    } else if a[0] == b[0] && b[0] == c[0] {
        lemma_lex_le_transitive(a.drop_first(), b.drop_first(), c.drop_first());
    }
}

/// Compares two strings in the lexicographic order.
pub fn str_le(a: &str, b: &str) -> (r: bool)
    ensures
        r == lex_le(a@, b@),
{
    let an = a.unicode_len();
    let bn = b.unicode_len();
    let mut i: usize = 0;
    proof {
        assert(a@.skip(0) =~= a@);
        assert(b@.skip(0) =~= b@);
    }
    loop
        invariant
            i <= an,
            i <= bn,
            an == a@.len(),
            bn == b@.len(),
            lex_le(a@, b@) == lex_le(a@.skip(i as int), b@.skip(i as int)),
        decreases an - i,
    {
        if i >= an {
            proof {
                assert(a@.skip(i as int).len() == 0);
            }
            return true;
        }
        if i >= bn {
            proof {
                assert(b@.skip(i as int).len() == 0);
                assert(a@.skip(i as int).len() > 0);
            }
            return false;
        }
        let ca = a.get_char(i);
        let cb = b.get_char(i);
        proof {
            assert(a@.skip(i as int)[0] == a@[i as int]);
            assert(b@.skip(i as int)[0] == b@[i as int]);
            assert(a@.skip(i as int).drop_first() =~= a@.skip(i as int + 1));
            assert(b@.skip(i as int).drop_first() =~= b@.skip(i as int + 1));
        }
        if ca != cb {
            return (ca as u32) < (cb as u32);
        }
        i = i + 1;
    }
}

/// Tests two strings for equality of their character sequences.
pub fn str_eq(a: &str, b: &str) -> (r: bool)
    ensures
        r == (a@ == b@),
{
    let an = a.unicode_len();
    let bn = b.unicode_len();
    if an != bn {
        return false;
    }
    let mut i: usize = 0;
    while i < an
        invariant
            i <= an,
            an == a@.len(),
            an == bn,
            bn == b@.len(),
            forall|j: int| 0 <= j < i ==> a@[j] == b@[j],
        decreases an - i,
    {
        if a.get_char(i) != b.get_char(i) {
            return false;
        }
        i = i + 1;
    }
    proof {
        assert(a@ =~= b@);
    }
    true
}

/// A sequence of character sequences in ascending lexicographic order.
pub open spec fn views_sorted(s: Seq<Seq<char>>) -> bool {
    forall|i: int, j: int| 0 <= i < j < s.len() ==> lex_le(s[i], s[j])
}

/// The position at which `s` belongs in the sorted vector `r`: everything
/// before it is at most `s`, and the element at it (if any) is not.
fn insert_pos(r: &Vec<String>, s: &str) -> (k: usize)
    ensures
        k <= r@.len(),
        forall|m: int| 0 <= m < k ==> lex_le(r.deep_view()[m], s@),
        k < r@.len() ==> !lex_le(r.deep_view()[k as int], s@),
{
    let mut k: usize = 0;
    loop
        invariant
            k <= r@.len(),
            forall|m: int| 0 <= m < k ==> lex_le(r.deep_view()[m], s@),
        decreases r@.len() - k,
    {
        if k >= r.len() {
            return k;
        }
        let keep = str_le(r[k].as_str(), s);
        proof {
            assert(r.deep_view()[k as int] == r@[k as int]@);
        }
        if !keep {
            return k;
        }
        k = k + 1;
    }
}

/// Inserting `x` at position `k` of a sequence sorted by the key `kf`
/// keeps it sorted, provided everything before `k` is at most `x` and the
/// element at `k` (if any) is at least `x`.
pub proof fn lemma_sorted_insert<A>(s: Seq<A>, x: A, k: int, kf: spec_fn(A) -> Seq<char>)
    requires
        0 <= k <= s.len(),
        forall|m: int| 0 <= m < k ==> lex_le(kf(s[m]), kf(x)),
        k < s.len() ==> lex_le(kf(x), kf(s[k])),
        forall|a: int, b: int| 0 <= a < b < s.len() ==> lex_le(kf(s[a]), kf(s[b])),
    ensures
        forall|a: int, b: int|
            0 <= a < b < s.insert(k, x).len() ==> lex_le(
                kf(s.insert(k, x)[a]),
                kf(s.insert(k, x)[b]),
            ),
{
    let t = s.insert(k, x);
    s.insert_ensures(k, x);
    assert forall|a: int, b: int| 0 <= a < b < t.len() implies lex_le(kf(t[a]), kf(t[b])) by {
        if b < k {
            assert(t[a] == s[a] && t[b] == s[b]);
        } else if a > k {
            assert(t[a] == s[a - 1] && t[b] == s[b - 1]);
        } else if a < k && b == k {
            assert(t[a] == s[a] && t[b] == x);
        } else if a == k && b > k {
            assert(t[a] == x && t[b] == s[b - 1]);
            if b - 1 > k {
                assert(lex_le(kf(s[k]), kf(s[b - 1])));
            } else {
                lemma_lex_le_refl(kf(s[k]));
            }
            lemma_lex_le_transitive(kf(x), kf(s[k]), kf(s[b - 1]));
        } else {
            assert(t[a] == s[a] && t[b] == s[b - 1]);
            if b - 1 > k {
                assert(lex_le(kf(s[k]), kf(s[b - 1])));
            } else {
                lemma_lex_le_refl(kf(s[k]));
            }
            lemma_lex_le_transitive(kf(x), kf(s[k]), kf(s[b - 1]));
            lemma_lex_le_transitive(kf(s[a]), kf(x), kf(s[b - 1]));
        }
    }
}

/// Inserting an element into a sequence inserts it into the multiset.
pub proof fn lemma_insert_to_multiset<A>(s: Seq<A>, k: int, x: A)
    requires
        0 <= k <= s.len(),
    ensures
        s.insert(k, x).to_multiset() == s.to_multiset().insert(x),
{
    broadcast use vstd::seq_lib::group_to_multiset_ensures;

    let t = s.insert(k, x);
    s.insert_ensures(k, x);
    t.remove_ensures(k);
    assert(t.remove(k) =~~= s);
    assert(t.remove(k).to_multiset() =~= t.to_multiset().remove(t[k]));
    assert(t.contains(x)) by {
        assert(t[k] == x);
    }
    assert(t.to_multiset().count(x) > 0);
    assert(t.to_multiset() =~= s.to_multiset().insert(x));
}

/// Returns a copy of `v` sorted in ascending alphabetical order; the
/// multiset of strings is preserved.
pub fn sort_strings(v: &Vec<String>) -> (r: Vec<String>)
    ensures
        views_sorted(r.deep_view()),
        r.deep_view().to_multiset() == v.deep_view().to_multiset(),
{
    let mut r: Vec<String> = Vec::new();
    let mut idx: usize = 0;
    proof {
        broadcast use vstd::seq_lib::group_to_multiset_ensures;

        assert(r.deep_view() =~~= Seq::<Seq<char>>::empty());
        assert(v.deep_view().take(0) =~~= Seq::<Seq<char>>::empty());
    }
    while idx < v.len()
        invariant
            idx <= v.len(),
            views_sorted(r.deep_view()),
            r.deep_view().to_multiset() == v.deep_view().take(idx as int).to_multiset(),
        decreases v.len() - idx,
    {
        let s = v[idx].clone();
        proof {
            assert(s@ == v.deep_view()[idx as int]);
        }
        let k = insert_pos(&r, s.as_str());
        proof {
            if k < r.len() {
                lemma_lex_le_total(r.deep_view()[k as int], s@);
            }
        }
        let ghost old_dv = r.deep_view();
        r.insert(k, s);
        proof {
            broadcast use vstd::seq_lib::group_to_multiset_ensures;

            assert(r.deep_view() =~~= old_dv.insert(k as int, s@));
            old_dv.insert_ensures(k as int, s@);
            lemma_insert_to_multiset(old_dv, k as int, s@);
            lemma_sorted_insert(old_dv, s@, k as int, |v: Seq<char>| v);
            assert(v.deep_view().take(idx as int + 1) =~~= v.deep_view().take(idx as int).push(
                s@,
            ));
            assert(v.deep_view().take(idx as int).push(s@).to_multiset() =~= v.deep_view().take(
                idx as int,
            ).to_multiset().insert(s@));
        }
        idx = idx + 1;
    }
    proof {
        assert(v.deep_view().take(v.len() as int) =~~= v.deep_view());
    }
    r
}

} // verus!
