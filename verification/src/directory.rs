//! The directory store: a mapping from department names to the employees
//! registered under them, with alphabetically ordered queries.

use vstd::multiset::Multiset;
use vstd::prelude::*;

use crate::order::lemma_lex_le_total;
use crate::order::lex_le;
use crate::order::sort_strings;
use crate::order::str_eq;
use crate::order::views_sorted;

verus! {

/// The model of the store: each department's name paired with its employees
/// in registration order, departments in creation order.
pub type DirView = Seq<(Seq<char>, Seq<Seq<char>>)>;

/// No department name occurs twice.
pub open spec fn wf_dir(dir: DirView) -> bool {
    forall|i: int, j: int| 0 <= i < j < dir.len() ==> dir[i].0 != dir[j].0
}

/// The employees of department `key`, or `None` if it has never been added
/// to.
pub open spec fn dir_lookup(dir: DirView, key: Seq<char>) -> Option<Seq<Seq<char>>>
    decreases dir.len(),
{
    if dir.len() == 0 {
        None
    } else if dir[0].0 == key {
        Some(dir[0].1)
    } else {
        dir_lookup(dir.drop_first(), key)
    }
}

/// The directory after registering `name` under `key`: the name is appended
/// to an existing department's list, or a new department is created at the
/// end.
pub open spec fn dir_add(dir: DirView, name: Seq<char>, key: Seq<char>) -> DirView
    decreases dir.len(),
{
    if dir.len() == 0 {
        seq![(key, seq![name])]
    } else if dir[0].0 == key {
        seq![(dir[0].0, dir[0].1.push(name))] + dir.drop_first()
    } else {
        seq![dir[0]] + dir_add(dir.drop_first(), name, key)
    }
}

/// When `i` is the first index holding `key`, adding under `key` only
/// appends to that entry's list.
proof fn lemma_dir_add_found(dir: DirView, n: Seq<char>, k: Seq<char>, i: int)
    requires
        0 <= i < dir.len(),
        dir[i].0 == k,
        forall|j: int| 0 <= j < i ==> dir[j].0 != k,
    ensures
        dir_add(dir, n, k) == dir.update(i, (dir[i].0, dir[i].1.push(n))),
    decreases i,
{
    if i == 0 {
        assert(dir_add(dir, n, k) =~= dir.update(0, (dir[0].0, dir[0].1.push(n))));
    } else {
        lemma_dir_add_found(dir.drop_first(), n, k, i - 1);
        assert(dir_add(dir, n, k) == seq![dir[0]] + dir_add(dir.drop_first(), n, k));
        assert(dir_add(dir, n, k) =~= dir.update(i, (dir[i].0, dir[i].1.push(n))));
    }
}

/// When `key` occurs nowhere, adding under `key` appends a fresh entry.
proof fn lemma_dir_add_missing(dir: DirView, n: Seq<char>, k: Seq<char>)
    requires
        forall|j: int| 0 <= j < dir.len() ==> dir[j].0 != k,
    ensures
        dir_add(dir, n, k) == dir.push((k, seq![n])),
    decreases dir.len(),
{
    if dir.len() == 0 {
        assert(dir_add(dir, n, k) =~= dir.push((k, seq![n])));
    } else {
        lemma_dir_add_missing(dir.drop_first(), n, k);
        assert(dir_add(dir, n, k) =~= dir.push((k, seq![n])));
    }
}

/// The directory store.
pub struct Company {
    departments: Vec<(String, Vec<String>)>,
}

impl View for Company {
    type V = DirView;

    closed spec fn view(&self) -> DirView {
        self.departments.deep_view()
    }
}

impl Company {
    /// An empty directory; it is well formed, and [`Company::add_employee`]
    /// keeps it so.
    pub fn new() -> (r: Company)
        ensures
            r@ == Seq::<(Seq<char>, Seq<Seq<char>>)>::empty(),
            wf_dir(r@),
    {
        let r = Company { departments: Vec::new() };
        proof {
            assert(r@ =~~= Seq::<(Seq<char>, Seq<Seq<char>>)>::empty());
        }
        r
    }

    /// Registers `name` under `department`, creating the department if it is
    /// new; duplicates are kept.
    pub fn add_employee(&mut self, name: &str, department: &str)
        ensures
            final(self)@ == dir_add(old(self)@, name@, department@),
            wf_dir(old(self)@) ==> wf_dir(final(self)@),
    {
        let ghost old_dv = self@;
        let n = self.departments.len();
        let mut i: usize = 0;
        while i < n
            invariant
                i <= n,
                n == self.departments@.len(),
                *self == *old(self),
                old_dv == self@,
                forall|j: int| 0 <= j < i ==> self@[j].0 != department@,
            decreases n - i,
        {
            let found = str_eq(self.departments[i].0.as_str(), department);
            proof {
                assert(self@[i as int].0 == self.departments@[i as int].0@);
            }
            if found {
                let mut pair = self.departments.remove(i);
                pair.1.push(string_copy(name));
                self.departments.insert(i, pair);
                proof {
                    assert(pair.1.deep_view() =~~= old_dv[i as int].1.push(name@));
                    assert(self@ =~~= old_dv.update(
                        i as int,
                        (old_dv[i as int].0, old_dv[i as int].1.push(name@)),
                    ));
                    lemma_dir_add_found(old_dv, name@, department@, i as int);
                    if wf_dir(old_dv) {
                        assert forall|a: int, b: int| 0 <= a < b < self@.len() implies self@[a].0
                            != self@[b].0 by {
                            assert(self@[a].0 == old_dv[a].0 && self@[b].0 == old_dv[b].0);
                        }
                    }
                }
                return ;
            }
            i = i + 1;
        }
        let mut emps: Vec<String> = Vec::new();
        emps.push(string_copy(name));
        self.departments.push((string_copy(department), emps));
        proof {
            assert(emps.deep_view() =~~= seq![name@]);
            assert(self@ =~~= old_dv.push((department@, seq![name@])));
            lemma_dir_add_missing(old_dv, name@, department@);
            if wf_dir(old_dv) {
                assert forall|a: int, b: int| 0 <= a < b < self@.len() implies self@[a].0
                    != self@[b].0 by {
                    if b < old_dv.len() {
                        assert(self@[a].0 == old_dv[a].0 && self@[b].0 == old_dv[b].0);
                    } else {
                        assert(self@[a].0 == old_dv[a].0 && self@[b].0 == department@);
                    }
                }
            }
        }
    }
}

/// Looking a key up finds the entry at its first occurrence.
proof fn lemma_lookup_index(dir: DirView, k: Seq<char>, i: int)
    requires
        0 <= i < dir.len(),
        dir[i].0 == k,
        forall|j: int| 0 <= j < i ==> dir[j].0 != k,
    ensures
        dir_lookup(dir, k) == Some(dir[i].1),
    decreases i,
{
    if i > 0 {
        lemma_lookup_index(dir.drop_first(), k, i - 1);
    }
}

/// Looking up a key that occurs nowhere finds nothing.
proof fn lemma_lookup_none(dir: DirView, k: Seq<char>)
    requires
        forall|j: int| 0 <= j < dir.len() ==> dir[j].0 != k,
    ensures
        dir_lookup(dir, k) is None,
    decreases dir.len(),
{
    if dir.len() > 0 {
        lemma_lookup_none(dir.drop_first(), k);
    }
}

/// A successful lookup names some entry of the directory.
proof fn lemma_lookup_some_index(dir: DirView, k: Seq<char>)
    requires
        dir_lookup(dir, k) is Some,
    ensures
        exists|j: int| 0 <= j < dir.len() && dir[j].0 == k,
    decreases dir.len(),
{
    if dir.len() > 0 && dir[0].0 != k {
        lemma_lookup_some_index(dir.drop_first(), k);
        let j = choose|j: int| 0 <= j < dir.drop_first().len() && dir.drop_first()[j].0 == k;
        assert(dir[j + 1].0 == k);
    }
}

/// One entry of a full listing: its department exists in the directory, and
/// its employee list is that department's list in ascending order.
pub open spec fn entry_ok(dir: DirView, e: (Seq<char>, Seq<Seq<char>>)) -> bool {
    dir_lookup(dir, e.0) matches Some(l) && views_sorted(e.1) && e.1.to_multiset()
        == l.to_multiset()
}

impl Company {
    /// The employees of `department` in ascending alphabetical order, or
    /// `None` exactly when the department has never been added to; the store
    /// itself is left untouched.
    pub fn get_employees(&self, department: &str) -> (r: Option<Vec<String>>)
        ensures
            match r {
                Some(l) => dir_lookup(self@, department@) matches Some(l0) && views_sorted(
                    l.deep_view(),
                ) && l.deep_view().to_multiset() == l0.to_multiset(),
                None => dir_lookup(self@, department@) is None,
            },
    {
        let n = self.departments.len();
        let mut i: usize = 0;
        while i < n
            invariant
                i <= n,
                n == self.departments@.len(),
                forall|j: int| 0 <= j < i ==> self@[j].0 != department@,
            decreases n - i,
        {
            let found = str_eq(self.departments[i].0.as_str(), department);
            proof {
                assert(self@[i as int].0 == self.departments@[i as int].0@);
            }
            if found {
                let sorted = sort_strings(&self.departments[i].1);
                proof {
                    lemma_lookup_index(self@, department@, i as int);
                    assert(self@[i as int].1 == self.departments@[i as int].1.deep_view());
                }
                return Some(sorted);
            }
            i = i + 1;
        }
        proof {
            lemma_lookup_none(self@, department@);
        }
        None
    }

    /// Every department paired with its employees in ascending alphabetical
    /// order, the departments themselves in ascending alphabetical order.
    /// Besides the four listing clauses, the listing holds exactly the
    /// store's `(department, name)` pairs.
    pub fn get_all_employees(&self) -> (r: Vec<(String, Vec<String>)>)
        requires
            wf_dir(self@),
        ensures
            ({
                let rv = r.deep_view();
                &&& forall|m: int| 0 <= m < rv.len() ==> entry_ok(self@, #[trigger] rv[m])
                &&& forall|a: int, b: int| 0 <= a < b < rv.len() ==> lex_le(rv[a].0, rv[b].0)
                &&& forall|a: int, b: int| 0 <= a < b < rv.len() ==> rv[a].0 != rv[b].0
                &&& forall|k: Seq<char>|
                    dir_lookup(self@, k) is Some ==> exists|m: int|
                        0 <= m < rv.len() && #[trigger] rv[m].0 == k
                &&& dir_pairs(rv) == dir_pairs(self@)
            }),
    {
        let entries = self.build_entries();
        let ghost ev = entries.deep_view();
        let out = sort_entries(entries);
        proof {
            lemma_assemble(self@, ev, out.deep_view());
            lemma_listing_pairs(self@, out.deep_view());
        }
        out
    }

    /// One listing entry per department, in creation order, each employee
    /// list sorted.
    fn build_entries(&self) -> (r: Vec<(String, Vec<String>)>)
        ensures
            r.deep_view().len() == self@.len(),
            forall|m: int|
                0 <= m < self@.len() ==> (#[trigger] r.deep_view()[m]).0 == self@[m].0
                    && views_sorted(r.deep_view()[m].1) && r.deep_view()[m].1.to_multiset()
                    == self@[m].1.to_multiset(),
    {
        let n = self.departments.len();
        let mut r: Vec<(String, Vec<String>)> = Vec::new();
        let mut i: usize = 0;
        while i < n
            invariant
                i <= n,
                n == self.departments@.len(),
                r.deep_view().len() == i,
                forall|m: int|
                    0 <= m < i ==> (#[trigger] r.deep_view()[m]).0 == self@[m].0 && views_sorted(
                        r.deep_view()[m].1,
                    ) && r.deep_view()[m].1.to_multiset() == self@[m].1.to_multiset(),
            decreases n - i,
        {
            let dept = self.departments[i].0.clone();
            let emps = sort_strings(&self.departments[i].1);
            proof {
                assert(dept@ == self@[i as int].0);
                assert(self.departments@[i as int].1.deep_view() == self@[i as int].1);
            }
            let ghost old_dv = r.deep_view();
            r.push((dept, emps));
            proof {
                assert(r.deep_view() =~~= old_dv.push((dept@, emps.deep_view())));
            }
            i = i + 1;
        }
        r
    }
}

/// Sorts listing entries by department name; the multiset of entries is
/// preserved.
fn sort_entries(mut v: Vec<(String, Vec<String>)>) -> (r: Vec<(String, Vec<String>)>)
    ensures
        r.deep_view().to_multiset() == v.deep_view().to_multiset(),
        forall|a: int, b: int|
            0 <= a < b < r.deep_view().len() ==> lex_le(r.deep_view()[a].0, r.deep_view()[b].0),
{
    let ghost orig = v.deep_view();
    let mut r: Vec<(String, Vec<String>)> = Vec::new();
    proof {
        broadcast use vstd::seq_lib::group_to_multiset_ensures;

        assert(r.deep_view() =~~= Seq::<(Seq<char>, Seq<Seq<char>>)>::empty());
        assert(r.deep_view().to_multiset().add(v.deep_view().to_multiset())
            =~= orig.to_multiset());
    }
    while v.len() > 0
        invariant
            r.deep_view().to_multiset().add(v.deep_view().to_multiset()) == orig.to_multiset(),
            forall|a: int, b: int|
                0 <= a < b < r.deep_view().len() ==> lex_le(
                    r.deep_view()[a].0,
                    r.deep_view()[b].0,
                ),
        decreases v.len(),
    {
        let ghost old_v = v.deep_view();
        let e = v.pop().unwrap();
        let ghost ev = (e.0@, e.1.deep_view());
        let k = entry_insert_pos(&r, e.0.as_str());
        let ghost old_dv = r.deep_view();
        proof {
            broadcast use vstd::seq_lib::group_to_multiset_ensures;

            assert(v.deep_view().push(ev) =~~= old_v);
            if k < old_dv.len() {
                lemma_lex_le_total(old_dv[k as int].0, e.0@);
            }
        }
        r.insert(k, e);
        proof {
            broadcast use vstd::seq_lib::group_to_multiset_ensures;

            assert(r.deep_view() =~~= old_dv.insert(k as int, ev));
            crate::order::lemma_insert_to_multiset(old_dv, k as int, ev);
            crate::order::lemma_sorted_insert(
                old_dv,
                ev,
                k as int,
                |x: (Seq<char>, Seq<Seq<char>>)| x.0,
            );
            assert(v.deep_view().push(ev).to_multiset() =~= v.deep_view().to_multiset().insert(
                ev,
            ));
            assert(r.deep_view().to_multiset().add(v.deep_view().to_multiset())
                =~= orig.to_multiset());
        }
    }
    proof {
        broadcast use vstd::seq_lib::group_to_multiset_ensures;

        assert(v.deep_view().to_multiset().len() == 0);
        assert(r.deep_view().to_multiset() =~= r.deep_view().to_multiset().add(
            v.deep_view().to_multiset(),
        ));
    }
    r
}

/// A duplicated element is counted at least twice.
proof fn lemma_dup_count<A>(s: Seq<A>, a: int, b: int)
    requires
        0 <= a < b < s.len(),
        s[a] == s[b],
    ensures
        s.to_multiset().count(s[a]) >= 2,
{
    broadcast use vstd::seq_lib::group_to_multiset_ensures;

    s.remove_ensures(a);
    assert(s.remove(a)[b - 1] == s[b]);
    assert(s.remove(a).contains(s[b]));
    assert(s.remove(a).to_multiset().count(s[a]) >= 1);
    assert(s.remove(a).to_multiset() =~= s.to_multiset().remove(s[a]));
}

/// An element counted at least twice occupies two distinct positions.
proof fn lemma_count2_dup<A>(s: Seq<A>, x: A)
    requires
        s.to_multiset().count(x) >= 2,
    ensures
        exists|a: int, b: int| 0 <= a < s.len() && 0 <= b < s.len() && a != b && s[a] == x && s[b] == x,
{
    broadcast use vstd::seq_lib::group_to_multiset_ensures;

    assert(s.contains(x));
    let a = choose|a: int| 0 <= a < s.len() && s[a] == x;
    s.remove_ensures(a);
    assert(s.remove(a).to_multiset() =~= s.to_multiset().remove(s[a]));
    assert(s.remove(a).to_multiset().count(x) >= 1);
    assert(s.remove(a).contains(x));
    let c = choose|c: int| 0 <= c < s.remove(a).len() && s.remove(a)[c] == x;
    if c < a {
        assert(s[c] == x && s[a] == x && c != a);
    } else {
        assert(s[c + 1] == x && s[a] == x && c + 1 != a);
    }
}

/// Two sorted sequences with the same multiset are equal.
proof fn lemma_sorted_multiset_unique(a: Seq<Seq<char>>, b: Seq<Seq<char>>)
    requires
        views_sorted(a),
        views_sorted(b),
        a.to_multiset() == b.to_multiset(),
    ensures
        a == b,
    decreases a.len(),
{
    broadcast use vstd::seq_lib::group_to_multiset_ensures;

    if a.len() == 0 {
        assert(b.to_multiset().len() == 0);
        assert(a =~= b);
    } else {
        assert(a.len() == a.to_multiset().len());
        assert(b.len() == b.to_multiset().len());
        assert(b.len() == a.len());
        assert(a[0] == b[0]) by {
            assert(a.to_multiset().count(a[0]) > 0);
            assert(b.to_multiset().count(b[0]) > 0);
            assert(a.contains(b[0]));
            assert(b.contains(a[0]));
            let ia = choose|ia: int| 0 <= ia < a.len() && a[ia] == b[0];
            let ib = choose|ib: int| 0 <= ib < b.len() && b[ib] == a[0];
            if ia > 0 {
                assert(lex_le(a[0], a[ia]));
            } else {
                crate::order::lemma_lex_le_refl(a[0]);
            }
            if ib > 0 {
                assert(lex_le(b[0], b[ib]));
            } else {
                crate::order::lemma_lex_le_refl(b[0]);
            }
            crate::order::lemma_lex_le_antisymmetric(a[0], b[0]);
        }
        let a1 = a.drop_first();
        let b1 = b.drop_first();
        assert(a.remove(0) =~= a1);
        assert(b.remove(0) =~= b1);
        assert(a1.to_multiset() =~= b1.to_multiset()) by {
            assert(a.remove(0).to_multiset() =~= a.to_multiset().remove(a[0]));
            assert(b.remove(0).to_multiset() =~= b.to_multiset().remove(b[0]));
        }
        assert(views_sorted(a1)) by {
            assert(forall|x: int| 0 <= x < a1.len() ==> a1[x] == a[x + 1]);
        }
        assert(views_sorted(b1)) by {
            assert(forall|x: int| 0 <= x < b1.len() ==> b1[x] == b[x + 1]);
        }
        lemma_sorted_multiset_unique(a1, b1);
        assert(forall|i: int| 1 <= i < a.len() ==> a[i] == a1[i - 1] && b[i] == b1[i - 1]);
        assert(a =~= b);
    }
}

/// A sorted permutation of per-department listing entries is the full
/// listing: every entry is true of the directory, departments never repeat,
/// and every department appears.
proof fn lemma_assemble(
    dir: DirView,
    entries: Seq<(Seq<char>, Seq<Seq<char>>)>,
    out: Seq<(Seq<char>, Seq<Seq<char>>)>,
)
    requires
        wf_dir(dir),
        entries.len() == dir.len(),
        forall|m: int|
            0 <= m < dir.len() ==> (#[trigger] entries[m]).0 == dir[m].0 && views_sorted(
                entries[m].1,
            ) && entries[m].1.to_multiset() == dir[m].1.to_multiset(),
        out.to_multiset() == entries.to_multiset(),
        forall|a: int, b: int| 0 <= a < b < out.len() ==> lex_le(out[a].0, out[b].0),
    ensures
        forall|m: int| 0 <= m < out.len() ==> entry_ok(dir, #[trigger] out[m]),
        forall|a: int, b: int| 0 <= a < b < out.len() ==> out[a].0 != out[b].0,
        forall|k: Seq<char>|
            dir_lookup(dir, k) is Some ==> exists|m: int| 0 <= m < out.len() && #[trigger] out[m].0 == k,
{
    broadcast use vstd::seq_lib::group_to_multiset_ensures;

    assert forall|m: int| 0 <= m < out.len() implies entry_ok(dir, #[trigger] out[m]) by {
        assert(out.to_multiset().count(out[m]) > 0);
        assert(entries.contains(out[m]));
        let j = choose|j: int| 0 <= j < entries.len() && entries[j] == out[m];
        lemma_lookup_index(dir, dir[j].0, j);
    }
    assert forall|a: int, b: int| 0 <= a < b < out.len() implies out[a].0 != out[b].0 by {
        if out[a].0 == out[b].0 {
            assert(entry_ok(dir, out[a]) && entry_ok(dir, out[b]));
            lemma_sorted_multiset_unique(out[a].1, out[b].1);
            assert(out[a] == out[b]) by {
                assert(out[a].0 == out[b].0 && out[a].1 == out[b].1);
            }
            lemma_dup_count(out, a, b);
            lemma_count2_dup(entries, out[a]);
            let (j1, j2) = choose|j1: int, j2: int|
                0 <= j1 < entries.len() && 0 <= j2 < entries.len() && j1 != j2 && entries[j1]
                    == out[a] && entries[j2] == out[a];
            assert(dir[j1].0 == dir[j2].0);
        }
    }
    assert forall|k: Seq<char>| dir_lookup(dir, k) is Some implies exists|m: int|
        0 <= m < out.len() && #[trigger] out[m].0 == k by {
        lemma_lookup_some_index(dir, k);
        let j = choose|j: int| 0 <= j < dir.len() && dir[j].0 == k;
        assert(entries.to_multiset().count(entries[j]) > 0);
        assert(out.contains(entries[j]));
        let m = choose|m: int| 0 <= m < out.len() && out[m] == entries[j];
        assert(out[m].0 == k);
    }
}

/// The position at which a department named `key` belongs in the listing.
fn entry_insert_pos(r: &Vec<(String, Vec<String>)>, key: &str) -> (k: usize)
    ensures
        k <= r@.len(),
        forall|m: int| 0 <= m < k ==> lex_le(r.deep_view()[m].0, key@),
        k < r@.len() ==> !lex_le(r.deep_view()[k as int].0, key@),
{
    let mut k: usize = 0;
    loop
        invariant
            k <= r@.len(),
            forall|m: int| 0 <= m < k ==> lex_le(r.deep_view()[m].0, key@),
        decreases r@.len() - k,
    {
        if k >= r.len() {
            return k;
        }
        let keep = crate::order::str_le(r[k].0.as_str(), key);
        proof {
            assert(r.deep_view()[k as int].0 == r@[k as int].0@);
        }
        if !keep {
            return k;
        }
        k = k + 1;
    }
}

/// Registering a name changes exactly its department's list, by appending.
pub proof fn lemma_add_lookup(dir: DirView, n: Seq<char>, k: Seq<char>)
    ensures
        dir_lookup(dir_add(dir, n, k), k) == Some(
            match dir_lookup(dir, k) {
                Some(l) => l.push(n),
                None => seq![n],
            },
        ),
    decreases dir.len(),
{
    if dir.len() == 0 {
    } else if dir[0].0 == k {
        assert(dir_add(dir, n, k)[0] == (dir[0].0, dir[0].1.push(n)));
    } else {
        lemma_add_lookup(dir.drop_first(), n, k);
        assert(dir_add(dir, n, k)[0] == dir[0]);
        assert(dir_add(dir, n, k).drop_first() =~~= dir_add(dir.drop_first(), n, k));
    }
}

/// Registering a name under one department leaves every other department's
/// list unchanged.
pub proof fn lemma_add_lookup_other(dir: DirView, n: Seq<char>, k: Seq<char>, k2: Seq<char>)
    requires
        k2 != k,
    ensures
        dir_lookup(dir_add(dir, n, k), k2) == dir_lookup(dir, k2),
    decreases dir.len(),
{
    let t = dir_add(dir, n, k);
    if dir.len() == 0 {
        assert(t[0].0 == k);
        assert(t.drop_first() =~~= Seq::<(Seq<char>, Seq<Seq<char>>)>::empty());
        assert(dir_lookup(t, k2) == dir_lookup(t.drop_first(), k2));
        assert(dir_lookup(t, k2) is None);
    } else if dir[0].0 == k {
        assert(t[0] == (dir[0].0, dir[0].1.push(n)));
        assert(t.drop_first() =~~= dir.drop_first());
        assert(dir_lookup(t, k2) == dir_lookup(dir.drop_first(), k2));
        assert(dir_lookup(dir, k2) == dir_lookup(dir.drop_first(), k2));
    } else {
        lemma_add_lookup_other(dir.drop_first(), n, k, k2);
        assert(t[0] == dir[0]);
        assert(t.drop_first() =~~= dir_add(dir.drop_first(), n, k));
        if dir[0].0 == k2 {
            assert(dir_lookup(t, k2) == Some(t[0].1));
            assert(dir_lookup(dir, k2) == Some(dir[0].1));
        } else {
            assert(dir_lookup(t, k2) == dir_lookup(t.drop_first(), k2));
            assert(dir_lookup(dir, k2) == dir_lookup(dir.drop_first(), k2));
        }
    }
}

/// After registering a name, its department lists it once more than before;
/// in particular registering it twice lists it twice.
pub proof fn lemma_add_registers(dir: DirView, n: Seq<char>, k: Seq<char>)
    ensures
        dir_lookup(dir_add(dir, n, k), k) matches Some(l) && l.to_multiset().count(n) == 1 + (
        match dir_lookup(dir, k) {
            Some(l0) => l0.to_multiset().count(n),
            None => 0,
        }),
{
    broadcast use vstd::seq_lib::group_to_multiset_ensures;

    lemma_add_lookup(dir, n, k);
    match dir_lookup(dir, k) {
        Some(l0) => {
            assert(l0.push(n).to_multiset() =~= l0.to_multiset().insert(n));
        },
        None => {
            assert(seq![n] =~= Seq::<Seq<char>>::empty().push(n));
            assert(seq![n].to_multiset() =~= Seq::<Seq<char>>::empty().to_multiset().insert(n));
        },
    }
}

/// The directory after a whole sequence of registrations, each a
/// `(department, name)` pair applied in order.
pub open spec fn apply_adds(dir: DirView, adds: Seq<(Seq<char>, Seq<char>)>) -> DirView
    decreases adds.len(),
{
    if adds.len() == 0 {
        dir
    } else {
        apply_adds(dir_add(dir, adds[0].1, adds[0].0), adds.drop_first())
    }
}

proof fn lemma_never_added_general(dir: DirView, adds: Seq<(Seq<char>, Seq<char>)>, k: Seq<char>)
    requires
        dir_lookup(dir, k) is None,
        forall|j: int| 0 <= j < adds.len() ==> (#[trigger] adds[j]).0 != k,
    ensures
        dir_lookup(apply_adds(dir, adds), k) is None,
    decreases adds.len(),
{
    if adds.len() > 0 {
        lemma_add_lookup_other(dir, adds[0].1, adds[0].0, k);
        lemma_never_added_general(dir_add(dir, adds[0].1, adds[0].0), adds.drop_first(), k);
    }
}

/// A department that no registration ever named is not found, however many
/// registrations the session made.
pub proof fn lemma_never_added_not_found(adds: Seq<(Seq<char>, Seq<char>)>, k: Seq<char>)
    requires
        forall|j: int| 0 <= j < adds.len() ==> (#[trigger] adds[j]).0 != k,
    ensures
        dir_lookup(apply_adds(Seq::empty(), adds), k) is None,
{
    lemma_never_added_general(Seq::empty(), adds, k);
}

/// The `(department, name)` pairs of one department's employee list, as a
/// multiset.
pub open spec fn pairs_of(k: Seq<char>, l: Seq<Seq<char>>) -> Multiset<(Seq<char>, Seq<char>)>
    decreases l.len(),
{
    if l.len() == 0 {
        Multiset::empty()
    } else {
        pairs_of(k, l.drop_last()).insert((k, l.last()))
    }
}

/// Every `(department, name)` pair held anywhere in the directory, as a
/// multiset.
pub open spec fn dir_pairs(dir: DirView) -> Multiset<(Seq<char>, Seq<char>)>
    decreases dir.len(),
{
    if dir.len() == 0 {
        Multiset::empty()
    } else {
        pairs_of(dir[0].0, dir[0].1).add(dir_pairs(dir.drop_first()))
    }
}

proof fn lemma_add_pairs(dir: DirView, n: Seq<char>, k: Seq<char>)
    ensures
        dir_pairs(dir_add(dir, n, k)) == dir_pairs(dir).insert((k, n)),
    decreases dir.len(),
{
    broadcast use vstd::multiset::group_multiset_axioms;

    let t = dir_add(dir, n, k);
    if dir.len() == 0 {
        assert(t[0] == (k, seq![n]));
        assert(t.drop_first() =~~= Seq::<(Seq<char>, Seq<Seq<char>>)>::empty());
        assert(seq![n].drop_last() =~~= Seq::<Seq<char>>::empty());
        assert(seq![n].last() == n);
        assert(pairs_of(k, Seq::<Seq<char>>::empty()) == Multiset::<(
            Seq<char>,
            Seq<char>,
        )>::empty());
        assert(pairs_of(k, seq![n]) =~= Multiset::empty().insert((k, n)));
        assert(dir_pairs(Seq::<(Seq<char>, Seq<Seq<char>>)>::empty()) == Multiset::<(
            Seq<char>,
            Seq<char>,
        )>::empty());
        assert(dir_pairs(t) =~= dir_pairs(dir).insert((k, n)));
    } else if dir[0].0 == k {
        assert(t[0] == (dir[0].0, dir[0].1.push(n)));
        assert(t.drop_first() =~~= dir.drop_first());
        assert(dir[0].1.push(n).drop_last() =~~= dir[0].1);
        assert(dir[0].1.push(n).last() == n);
        assert(pairs_of(k, dir[0].1.push(n)) == pairs_of(k, dir[0].1).insert((k, n)));
        assert(dir_pairs(t) =~= dir_pairs(dir).insert((k, n)));
    } else {
        lemma_add_pairs(dir.drop_first(), n, k);
        assert(t[0] == dir[0]);
        assert(t.drop_first() =~~= dir_add(dir.drop_first(), n, k));
        assert(dir_pairs(t) =~= dir_pairs(dir).insert((k, n)));
    }
}

proof fn lemma_round_trip_general(dir: DirView, adds: Seq<(Seq<char>, Seq<char>)>)
    ensures
        dir_pairs(apply_adds(dir, adds)) == dir_pairs(dir).add(adds.to_multiset()),
    decreases adds.len(),
{
    broadcast use vstd::seq_lib::group_to_multiset_ensures;

    if adds.len() == 0 {
        assert(dir_pairs(dir).add(adds.to_multiset()) =~= dir_pairs(dir));
    } else {
        let mid = dir_add(dir, adds[0].1, adds[0].0);
        lemma_add_pairs(dir, adds[0].1, adds[0].0);
        lemma_round_trip_general(mid, adds.drop_first());
        adds.to_multiset_ensures();
        assert(adds.remove(0) =~~= adds.drop_first());
        assert(adds.remove(0).to_multiset() =~= adds.to_multiset().remove(adds[0]));
        assert(adds.to_multiset().count(adds[0]) > 0) by {
            assert(adds.contains(adds[0]));
        }
        assert(dir_pairs(dir).insert((adds[0].0, adds[0].1)).add(adds.drop_first().to_multiset())
            =~= dir_pairs(dir).add(adds.to_multiset())) by {
            assert(adds[0] == (adds[0].0, adds[0].1));
        }
    }
}

/// Round trip: a session of registrations starting from an empty directory
/// stores exactly the multiset of `(department, name)` pairs registered.
pub proof fn lemma_round_trip(adds: Seq<(Seq<char>, Seq<char>)>)
    ensures
        dir_pairs(apply_adds(Seq::empty(), adds)) == adds.to_multiset(),
{
    broadcast use vstd::seq_lib::group_to_multiset_ensures;

    lemma_round_trip_general(Seq::empty(), adds);
    assert(dir_pairs(Seq::empty()).add(adds.to_multiset()) =~= adds.to_multiset());
}

/// Registering a name keeps department names distinct.
pub proof fn lemma_dir_add_wf(d: DirView, n: Seq<char>, k: Seq<char>)
    requires
        wf_dir(d),
    ensures
        wf_dir(dir_add(d, n, k)),
{
    let t = dir_add(d, n, k);
    if exists|i: int| 0 <= i < d.len() && d[i].0 == k {
        let i = choose|i: int| 0 <= i < d.len() && d[i].0 == k;
        assert(forall|j: int| 0 <= j < i ==> d[j].0 != k);
        lemma_dir_add_found(d, n, k, i);
        assert forall|a: int, b: int| 0 <= a < b < t.len() implies t[a].0 != t[b].0 by {
            assert(t[a].0 == d[a].0 && t[b].0 == d[b].0);
        }
    } else {
        assert(forall|j: int| 0 <= j < d.len() ==> d[j].0 != k);
        lemma_dir_add_missing(d, n, k);
        assert forall|a: int, b: int| 0 <= a < b < t.len() implies t[a].0 != t[b].0 by {
            if b < d.len() {
                assert(t[a].0 == d[a].0 && t[b].0 == d[b].0);
            } else {
                assert(t[a].0 == d[a].0 && t[b].0 == k);
            }
        }
    }
}

/// A whole session of registrations keeps department names distinct.
pub proof fn lemma_apply_adds_wf(d: DirView, adds: Seq<(Seq<char>, Seq<char>)>)
    requires
        wf_dir(d),
    ensures
        wf_dir(apply_adds(d, adds)),
    decreases adds.len(),
{
    if adds.len() > 0 {
        lemma_dir_add_wf(d, adds[0].1, adds[0].0);
        lemma_apply_adds_wf(dir_add(d, adds[0].1, adds[0].0), adds.drop_first());
    }
}

/// Round trip at the listing level: after any session of registrations
/// from an empty directory, a listing with the clauses of
/// [`Company::get_all_employees`] holds exactly the registered
/// `(department, name)` pairs.
pub proof fn lemma_session_listing(adds: Seq<(Seq<char>, Seq<char>)>, rv: DirView)
    requires
        ({
            let dir = apply_adds(Seq::empty(), adds);
            &&& forall|m: int| 0 <= m < rv.len() ==> entry_ok(dir, #[trigger] rv[m])
            &&& forall|a: int, b: int| 0 <= a < b < rv.len() ==> rv[a].0 != rv[b].0
            &&& forall|k: Seq<char>|
                dir_lookup(dir, k) is Some ==> exists|m: int|
                    0 <= m < rv.len() && #[trigger] rv[m].0 == k
        }),
    ensures
        dir_pairs(rv) == adds.to_multiset(),
{
    lemma_apply_adds_wf(Seq::empty(), adds);
    lemma_listing_pairs(apply_adds(Seq::empty(), adds), rv);
    lemma_round_trip(adds);
}

/// A pair is counted under its own key as often as its name occurs in the
/// list, and not at all under another key.
proof fn lemma_pairs_of_count(k: Seq<char>, l: Seq<Seq<char>>, p: (Seq<char>, Seq<char>))
    ensures
        pairs_of(k, l).count(p) == if p.0 == k {
            l.to_multiset().count(p.1)
        } else {
            0
        },
    decreases l.len(),
{
    broadcast use vstd::seq_lib::group_to_multiset_ensures;
    broadcast use vstd::multiset::group_multiset_axioms;

    if l.len() == 0 {
        if l.to_multiset().count(p.1) > 0 {
            assert(l.contains(p.1));
        }
    } else {
        lemma_pairs_of_count(k, l.drop_last(), p);
        assert(l.drop_last().push(l.last()) =~~= l);
        assert(l.drop_last().push(l.last()).to_multiset() =~= l.drop_last().to_multiset().insert(
            l.last(),
        ));
    }
}

/// With distinct department names, a pair's stored count is its name's
/// count in its own department's list.
proof fn lemma_dir_pairs_count(d: DirView, p: (Seq<char>, Seq<char>))
    requires
        wf_dir(d),
    ensures
        dir_pairs(d).count(p) == match dir_lookup(d, p.0) {
            Some(l) => l.to_multiset().count(p.1),
            None => 0,
        },
    decreases d.len(),
{
    broadcast use vstd::multiset::group_multiset_axioms;

    if d.len() == 0 {
    } else {
        assert(wf_dir(d.drop_first())) by {
            assert(forall|i: int, j: int|
                0 <= i < j < d.drop_first().len() ==> d.drop_first()[i] == d[i + 1]
                    && d.drop_first()[j] == d[j + 1]);
        }
        lemma_dir_pairs_count(d.drop_first(), p);
        lemma_pairs_of_count(d[0].0, d[0].1, p);
        if d[0].0 == p.0 {
            assert(forall|j: int|
                0 <= j < d.drop_first().len() ==> (#[trigger] d.drop_first()[j]).0 != p.0);
            lemma_lookup_none(d.drop_first(), p.0);
        }
    }
}

/// A listing with the four listing clauses holds exactly the directory's
/// `(department, name)` pairs.
pub proof fn lemma_listing_pairs(dir: DirView, rv: DirView)
    requires
        wf_dir(dir),
        forall|m: int| 0 <= m < rv.len() ==> entry_ok(dir, #[trigger] rv[m]),
        forall|a: int, b: int| 0 <= a < b < rv.len() ==> rv[a].0 != rv[b].0,
        forall|k: Seq<char>|
            dir_lookup(dir, k) is Some ==> exists|m: int|
                0 <= m < rv.len() && #[trigger] rv[m].0 == k,
    ensures
        dir_pairs(rv) == dir_pairs(dir),
{
    broadcast use vstd::seq_lib::group_to_multiset_ensures;
    broadcast use vstd::multiset::group_multiset_axioms;

    assert forall|p: (Seq<char>, Seq<char>)|
        #![trigger dir_pairs(rv).count(p)]
        dir_pairs(rv).count(p) == dir_pairs(dir).count(p) by {
        lemma_dir_pairs_count(rv, p);
        lemma_dir_pairs_count(dir, p);
        match dir_lookup(dir, p.0) {
            Some(l) => {
                let m = choose|m: int| 0 <= m < rv.len() && #[trigger] rv[m].0 == p.0;
                assert(forall|j: int| 0 <= j < m ==> rv[j].0 != rv[m].0);
                lemma_lookup_index(rv, p.0, m);
                assert(entry_ok(dir, rv[m]));
            },
            None => {
                assert forall|j: int| 0 <= j < rv.len() implies (#[trigger] rv[j]).0 != p.0 by {
                    assert(entry_ok(dir, rv[j]));
                }
                lemma_lookup_none(rv, p.0);
            },
        }
    }
    assert(dir_pairs(rv) =~= dir_pairs(dir));
}

/// An owned copy of a borrowed string.
fn string_copy(s: &str) -> (r: String)
    ensures
        r@ == s@,
{
    String::from_str(s)
}

} // verus!
