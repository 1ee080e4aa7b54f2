//! Order-preserving count tables. A table is an association list with unique
//! keys; bumping an existing key updates it in place, a new key is appended.
//! Tables merge by pointwise saturating addition, which is associative and
//! commutative, and can be sorted by descending count with a stable
//! tie-break.

use vstd::prelude::*;

use crate::util::{sat_add, add_capped};

verus! {

/// The mathematical form of a table: its entries in order, keys as character
/// sequences.
pub open spec fn kcs(s: Seq<(String, u64)>) -> Seq<(Seq<char>, u64)> {
    Seq::new(s.len(), |i: int| (s[i].0@, s[i].1))
}

/// Whether the entries carry pairwise distinct keys.
pub open spec fn distinct_keys(t: Seq<(Seq<char>, u64)>) -> bool {
    forall|i: int, j: int| 0 <= i < j < t.len() ==> t[i].0 != t[j].0
}

/// The count recorded for `k`, zero when `k` is absent.
pub open spec fn count_of(t: Seq<(Seq<char>, u64)>, k: Seq<char>) -> u64
    decreases t.len(),
{
    if t.len() == 0 {
        0
    } else if t.first().0 == k {
        t.first().1
    } else {
        count_of(t.drop_first(), k)
    }
}

/// Whether `k` has an entry.
pub open spec fn has_key(t: Seq<(Seq<char>, u64)>, k: Seq<char>) -> bool
    decreases t.len(),
{
    if t.len() == 0 {
        false
    } else {
        t.first().0 == k || has_key(t.drop_first(), k)
    }
}

/// Adding `amt` to `k`'s count: the first entry for `k` is raised in place
/// (saturating); an absent key is appended at the end with count `amt`.
pub open spec fn bump_seq(t: Seq<(Seq<char>, u64)>, k: Seq<char>, amt: u64) -> Seq<
    (Seq<char>, u64),
>
    decreases t.len(),
{
    if t.len() == 0 {
        seq![(k, amt)]
    } else if t.first().0 == k {
        seq![(k, sat_add(t.first().1, amt))] + t.drop_first()
    } else {
        seq![t.first()] + bump_seq(t.drop_first(), k, amt)
    }
}

/// Merging `b` into `a`: each entry of `b` is bumped into `a` in order.
pub open spec fn merge_seq(a: Seq<(Seq<char>, u64)>, b: Seq<(Seq<char>, u64)>) -> Seq<
    (Seq<char>, u64),
>
    decreases b.len(),
{
    if b.len() == 0 {
        a
    } else {
        merge_seq(bump_seq(a, b.first().0, b.first().1), b.drop_first())
    }
}

/// After a bump, `k`'s count is raised by `amt` (saturating) and every other
/// count is unchanged; `k` is now present.
pub proof fn lemma_bump_count(t: Seq<(Seq<char>, u64)>, k: Seq<char>, amt: u64, k2: Seq<char>)
    ensures
        count_of(bump_seq(t, k, amt), k2) == if k2 == k {
            sat_add(count_of(t, k2), amt)
        } else {
            count_of(t, k2)
        },
        has_key(bump_seq(t, k, amt), k2) == (has_key(t, k2) || k2 == k),
    decreases t.len(),
{
    if t.len() == 0 {
        let b = bump_seq(t, k, amt);
        assert(b.first() == (k, amt));
        assert(b.drop_first() =~= Seq::<(Seq<char>, u64)>::empty());
        assert(count_of(b.drop_first(), k2) == 0);
        assert(!has_key(b.drop_first(), k2));
        assert(count_of(b, k2) == if k2 == k { amt } else { 0u64 });
        assert(has_key(b, k2) == (k2 == k));
    } else if t.first().0 == k {
        let b = bump_seq(t, k, amt);
        assert(b.first() == (k, sat_add(t.first().1, amt)));
        assert(b.drop_first() =~= t.drop_first());
    } else {
        lemma_bump_count(t.drop_first(), k, amt, k2);
        let b = bump_seq(t, k, amt);
        assert(b.first() == t.first());
        assert(b.drop_first() =~= bump_seq(t.drop_first(), k, amt));
    }
}

/// A merge adds counts pointwise (saturating) and unites the key sets.
pub proof fn lemma_merge_count(
    a: Seq<(Seq<char>, u64)>,
    b: Seq<(Seq<char>, u64)>,
    k: Seq<char>,
)
    requires
        distinct_keys(b),
    ensures
        count_of(merge_seq(a, b), k) == sat_add(count_of(a, k), count_of(b, k)),
        has_key(merge_seq(a, b), k) == (has_key(a, k) || has_key(b, k)),
    decreases b.len(),
{
    if b.len() == 0 {
    } else {
        let a2 = bump_seq(a, b.first().0, b.first().1);
        let b2 = b.drop_first();
        assert(distinct_keys(b2)) by {
            assert(forall|i: int, j: int|
                0 <= i < j < b2.len() ==> b2[i] == b[i + 1] && b2[j] == b[j + 1]);
        }
        lemma_merge_count(a2, b2, k);
        lemma_bump_count(a, b.first().0, b.first().1, k);
        if k == b.first().0 {
            assert(!has_key(b2, k)) by {
                if has_key(b2, k) {
                    lemma_has_key_index(b2, k);
                }
            }
            lemma_absent_count(b2, k);
        }
    }
}

/// A present key occurs at some index.
pub proof fn lemma_has_key_index(t: Seq<(Seq<char>, u64)>, k: Seq<char>)
    requires
        has_key(t, k),
    ensures
        exists|i: int| 0 <= i < t.len() && t[i].0 == k,
    decreases t.len(),
{
    if t.first().0 == k {
        assert(t[0].0 == k);
    } else {
        lemma_has_key_index(t.drop_first(), k);
        let i = choose|i: int| 0 <= i < t.drop_first().len() && t.drop_first()[i].0 == k;
        assert(t[i + 1].0 == k);
    }
}

/// An index with key `k` makes the key present.
pub proof fn lemma_index_has_key(t: Seq<(Seq<char>, u64)>, i: int)
    requires
        0 <= i < t.len(),
    ensures
        has_key(t, t[i].0),
    decreases t.len(),
{
    if i > 0 {
        lemma_index_has_key(t.drop_first(), i - 1);
    }
}

/// An absent key counts zero.
pub proof fn lemma_absent_count(t: Seq<(Seq<char>, u64)>, k: Seq<char>)
    requires
        !has_key(t, k),
    ensures
        count_of(t, k) == 0,
    decreases t.len(),
{
    if t.len() > 0 {
        lemma_absent_count(t.drop_first(), k);
    }
}

/// A bump keeps the keys pairwise distinct.
pub proof fn lemma_bump_wf(t: Seq<(Seq<char>, u64)>, k: Seq<char>, amt: u64)
    requires
        distinct_keys(t),
    ensures
        distinct_keys(bump_seq(t, k, amt)),
    decreases t.len(),
{
    let b = bump_seq(t, k, amt);
    if t.len() == 0 {
        assert(b =~= seq![(k, amt)]);
    } else if t.first().0 == k {
        assert(b =~= seq![(k, sat_add(t.first().1, amt))] + t.drop_first());
        assert forall|i: int, j: int| 0 <= i < j < b.len() implies b[i].0 != b[j].0 by {
            assert(b[i].0 == t[i].0);
            assert(b[j].0 == t[j].0);
        }
    } else {
        let tf = t.drop_first();
        assert(distinct_keys(tf)) by {
            assert(forall|i: int, j: int|
                0 <= i < j < tf.len() ==> tf[i] == t[i + 1] && tf[j] == t[j + 1]);
        }
        lemma_bump_wf(tf, k, amt);
        let bf = bump_seq(tf, k, amt);
        assert(b =~= seq![t.first()] + bf);
        assert(!has_key(tf, t.first().0)) by {
            if has_key(tf, t.first().0) {
                lemma_has_key_index(tf, t.first().0);
                let i = choose|i: int| 0 <= i < tf.len() && tf[i].0 == t.first().0;
                assert(t[i + 1].0 == t[0].0);
            }
        }
        assert forall|i: int, j: int| 0 <= i < j < b.len() implies b[i].0 != b[j].0 by {
            if i == 0 {
                assert(b[j].0 == bf[j - 1].0);
                if b[0].0 == bf[j - 1].0 {
                    lemma_index_has_key(bf, j - 1);
                    lemma_bump_count(tf, k, amt, t.first().0);
                }
            } else {
                assert(b[i].0 == bf[i - 1].0);
                assert(b[j].0 == bf[j - 1].0);
            }
        }
    }
}

/// A merge keeps the keys of the left table pairwise distinct.
pub proof fn lemma_merge_wf(a: Seq<(Seq<char>, u64)>, b: Seq<(Seq<char>, u64)>)
    requires
        distinct_keys(a),
    ensures
        distinct_keys(merge_seq(a, b)),
    decreases b.len(),
{
    if b.len() > 0 {
        lemma_bump_wf(a, b.first().0, b.first().1);
        lemma_merge_wf(bump_seq(a, b.first().0, b.first().1), b.drop_first());
    }
}

/// Merging entries one at a time from the right agrees with `merge_seq`.
pub proof fn lemma_merge_push(
    a: Seq<(Seq<char>, u64)>,
    b: Seq<(Seq<char>, u64)>,
    e: (Seq<char>, u64),
)
    ensures
        merge_seq(a, b.push(e)) == bump_seq(merge_seq(a, b), e.0, e.1),
    decreases b.len(),
{
    if b.len() == 0 {
        assert(b.push(e).first() == e);
        assert(b.push(e).drop_first() =~= Seq::<(Seq<char>, u64)>::empty());
        assert(merge_seq(a, b.push(e)) == merge_seq(
            bump_seq(a, e.0, e.1),
            b.push(e).drop_first(),
        ));
        assert(merge_seq(bump_seq(a, e.0, e.1), Seq::<(Seq<char>, u64)>::empty()) == bump_seq(
            a,
            e.0,
            e.1,
        ));
        assert(merge_seq(a, b) == a);
    } else {
        assert(b.push(e).first() == b.first());
        assert(b.push(e).drop_first() =~= b.drop_first().push(e));
        let a2 = bump_seq(a, b.first().0, b.first().1);
        lemma_merge_push(a2, b.drop_first(), e);
        assert(merge_seq(a, b.push(e)) == merge_seq(a2, b.drop_first().push(e)));
        assert(merge_seq(a, b) == merge_seq(a2, b.drop_first()));
    }
}

/// A table: an insertion-ordered association list of counts with unique keys.
pub struct CountMap {
    pub entries: Vec<(String, u64)>,
}

impl CountMap {
    /// The entries in order, mathematically.
    pub open spec fn view_seq(&self) -> Seq<(Seq<char>, u64)> {
        kcs(self.entries@)
    }

    /// Well-formed: keys are pairwise distinct.
    pub open spec fn wf(&self) -> bool {
        distinct_keys(self.view_seq())
    }

    /// An empty table.
    pub fn new() -> (r: CountMap)
        ensures
            r.wf(),
            r.view_seq() == Seq::<(Seq<char>, u64)>::empty(),
    {
        let r = CountMap { entries: Vec::new() };
        proof {
            assert(r.view_seq() =~= Seq::<(Seq<char>, u64)>::empty());
        }
        r
    }

    /// Adds `amount` to the count for `key` (saturating), appending the key
    /// if it is new; entry order is otherwise unchanged.
    pub fn bump(&mut self, key: &String, amount: u64)
        requires
            old(self).wf(),
        ensures
            final(self).wf(),
            final(self).view_seq() == bump_seq(old(self).view_seq(), key@, amount),
    {
        let ghost t = self.view_seq();
        let n = self.entries.len();
        let mut i: usize = 0;
        while i < n
            invariant
                0 <= i <= n,
                n == self.entries.len(),
                t == self.view_seq(),
                t == old(self).view_seq(),
                distinct_keys(t),
                forall|j: int| 0 <= j < i ==> t[j].0 != key@,
            decreases n - i,
        {
            if self.entries[i].0 == *key {
                let c0 = self.entries[i].1;
                let nk = key.clone();
                self.entries.set(i, (nk, add_capped(c0, amount)));
                proof {
                    assert(self.view_seq() =~= t.update(
                        i as int,
                        (key@, sat_add(t[i as int].1, amount)),
                    ));
                    lemma_bump_at(t, key@, amount, i as int);
                    assert(distinct_keys(self.view_seq())) by {
                        assert(forall|j: int|
                            0 <= j < t.len() && j != i ==> self.view_seq()[j].0 == t[j].0);
                        assert(self.view_seq()[i as int].0 == t[i as int].0);
                    }
                }
                return ;
            }
            i = i + 1;
        }
        let nk = key.clone();
        self.entries.push((nk, amount));
        proof {
            assert(self.view_seq() =~= t.push((key@, amount)));
            lemma_bump_absent(t, key@, amount);
            assert(distinct_keys(self.view_seq())) by {
                assert(forall|j: int| 0 <= j < t.len() ==> self.view_seq()[j] == t[j]);
            }
        }
    }

    /// The count recorded for `key`, zero when absent.
    pub fn get(&self, key: &String) -> (r: u64)
        ensures
            r == count_of(self.view_seq(), key@),
    {
        let ghost t = self.view_seq();
        let n = self.entries.len();
        let mut i: usize = 0;
        proof {
            assert(t.skip(0) =~= t);
        }
        while i < n
            invariant
                0 <= i <= n,
                n == self.entries.len(),
                t == self.view_seq(),
                count_of(t, key@) == count_of(t.skip(i as int), key@),
            decreases n - i,
        {
            proof {
                assert(t.skip(i as int).first() == t[i as int]);
                assert(t.skip(i as int).drop_first() =~= t.skip(i + 1));
            }
            if self.entries[i].0 == *key {
                return self.entries[i].1;
            }
            i = i + 1;
        }
        proof {
            assert(t.skip(n as int) =~= Seq::<(Seq<char>, u64)>::empty());
        }
        0
    }

    /// The table holding the pointwise saturating sum of the two tables:
    /// `self`'s entries first (raised where `other` shares a key), then
    /// `other`'s new keys in their order.
    pub fn merged(&self, other: &CountMap) -> (r: CountMap)
        requires
            self.wf(),
            other.wf(),
        ensures
            r.wf(),
            r.view_seq() == merge_seq(self.view_seq(), other.view_seq()),
    {
        let mut out = CountMap { entries: Vec::new() };
        let n = self.entries.len();
        let mut i: usize = 0;
        proof {
            assert(out.view_seq() =~= self.view_seq().take(0));
        }
        while i < n
            invariant
                0 <= i <= n,
                n == self.entries.len(),
                out.view_seq() == self.view_seq().take(i as int),
                distinct_keys(self.view_seq()),
            decreases n - i,
        {
            let k = self.entries[i].0.clone();
            let c = self.entries[i].1;
            let ghost before = out.view_seq();
            out.entries.push((k, c));
            proof {
                assert(out.view_seq() =~= before.push(self.view_seq()[i as int]));
                assert(self.view_seq().take(i + 1) =~= self.view_seq().take(i as int).push(
                    self.view_seq()[i as int],
                ));
            }
            i = i + 1;
        }
        proof {
            assert(self.view_seq().take(n as int) =~= self.view_seq());
            assert(out.wf());
        }
        let ghost a = self.view_seq();
        let ghost b = other.view_seq();
        let m = other.entries.len();
        let mut j: usize = 0;
        while j < m
            invariant
                0 <= j <= m,
                m == other.entries.len(),
                b == other.view_seq(),
                out.wf(),
                out.view_seq() == merge_seq(a, b.take(j as int)),
            decreases m - j,
        {
            let bk = other.entries[j].0.clone();
            let bc = other.entries[j].1;
            out.bump(&bk, bc);
            proof {
                assert(b.take(j + 1) =~= b.take(j as int).push((b[j as int].0, b[j as int].1)));
                assert((b[j as int].0, b[j as int].1) == b[j as int]);
                lemma_merge_push(a, b.take(j as int), b[j as int]);
            }
            j = j + 1;
        }
        proof {
            assert(b.take(m as int) =~= b);
        }
        out
    }
}

/// Stable insertion into a descending-sorted run: `e` goes immediately
/// before the first entry whose count is strictly smaller than `e`'s.
pub open spec fn insert_desc(e: (Seq<char>, u64), t: Seq<(Seq<char>, u64)>) -> Seq<
    (Seq<char>, u64),
>
    decreases t.len(),
{
    if t.len() == 0 {
        seq![e]
    } else if e.1 > t.first().1 {
        seq![e] + t
    } else {
        seq![t.first()] + insert_desc(e, t.drop_first())
    }
}

/// Stable sort by descending count: entries with equal counts keep their
/// original relative order.
pub open spec fn sort_desc(t: Seq<(Seq<char>, u64)>) -> Seq<(Seq<char>, u64)>
    decreases t.len(),
{
    if t.len() == 0 {
        t
    } else {
        insert_desc(t.last(), sort_desc(t.drop_last()))
    }
}

proof fn lemma_insert_at(e: (Seq<char>, u64), t: Seq<(Seq<char>, u64)>, idx: int)
    requires
        0 <= idx <= t.len(),
        forall|j: int| 0 <= j < idx ==> t[j].1 >= e.1,
        idx < t.len() ==> t[idx].1 < e.1,
    ensures
        insert_desc(e, t) == t.insert(idx, e),
    decreases idx,
{
    if idx == 0 {
        if t.len() == 0 {
            assert(insert_desc(e, t) =~= t.insert(0, e));
        } else {
            assert(e.1 > t.first().1);
            assert(seq![e] + t =~= t.insert(0, e));
        }
    } else {
        assert(t[0].1 >= e.1);
        assert(!(e.1 > t.first().1));
        let tf = t.drop_first();
        assert(forall|j: int| 0 <= j < idx - 1 ==> tf[j] == t[j + 1]);
        assert(idx - 1 < tf.len() ==> tf[idx - 1] == t[idx]);
        lemma_insert_at(e, tf, idx - 1);
        assert(seq![t.first()] + tf.insert(idx - 1, e) =~= t.insert(idx, e));
    }
}

fn find_pos(v: &Vec<(String, u64)>, c: u64) -> (r: usize)
    ensures
        r <= v.len(),
        forall|j: int| 0 <= j < r ==> kcs(v@)[j].1 >= c,
        r < v.len() ==> kcs(v@)[r as int].1 < c,
{
    let n = v.len();
    let mut i: usize = 0;
    while i < n
        invariant
            0 <= i <= n,
            n == v.len(),
            forall|j: int| 0 <= j < i ==> kcs(v@)[j].1 >= c,
        decreases n - i,
    {
        if v[i].1 < c {
            return i;
        }
        i = i + 1;
    }
    n
}

/// Sorts count entries by descending count; equal counts keep their relative
/// order, exactly `sort_desc`.
pub fn sort_entries_desc(v: &Vec<(String, u64)>) -> (r: Vec<(String, u64)>)
    ensures
        kcs(r@) == sort_desc(kcs(v@)),
{
    let mut out: Vec<(String, u64)> = Vec::new();
    let n = v.len();
    let mut i: usize = 0;
    proof {
        assert(kcs(v@).take(0) =~= Seq::<(Seq<char>, u64)>::empty());
        assert(kcs(out@) =~= Seq::<(Seq<char>, u64)>::empty());
    }
    while i < n
        invariant
            0 <= i <= n,
            n == v.len(),
            kcs(out@) == sort_desc(kcs(v@).take(i as int)),
        decreases n - i,
    {
        let e0 = v[i].0.clone();
        let e1 = v[i].1;
        let idx = find_pos(&out, e1);
        let ghost before = kcs(out@);
        out.insert(idx, (e0, e1));
        proof {
            let e = kcs(v@)[i as int];
            assert((e0@, e1) == e);
            assert(kcs(out@) =~= before.insert(idx as int, e));
            lemma_insert_at(e, before, idx as int);
            assert(kcs(v@).take(i + 1).drop_last() =~= kcs(v@).take(i as int));
            assert(kcs(v@).take(i + 1).last() == e);
        }
        i = i + 1;
    }
    proof {
        assert(kcs(v@).take(n as int) =~= kcs(v@));
    }
    out
}

proof fn lemma_bump_at(t: Seq<(Seq<char>, u64)>, k: Seq<char>, amt: u64, i: int)
    requires
        0 <= i < t.len(),
        t[i].0 == k,
        forall|j: int| 0 <= j < i ==> t[j].0 != k,
    ensures
        bump_seq(t, k, amt) == t.update(i, (k, sat_add(t[i].1, amt))),
    decreases i,
{
    if i == 0 {
        assert(bump_seq(t, k, amt) =~= t.update(0, (k, sat_add(t[0].1, amt))));
    } else {
        assert(t.first().0 != k);
        lemma_bump_at(t.drop_first(), k, amt, i - 1);
        assert(seq![t.first()] + t.drop_first().update(i - 1, (k, sat_add(t[i].1, amt))) =~= t
            .update(i, (k, sat_add(t[i].1, amt))));
    }
}

proof fn lemma_bump_absent(t: Seq<(Seq<char>, u64)>, k: Seq<char>, amt: u64)
    requires
        forall|j: int| 0 <= j < t.len() ==> t[j].0 != k,
    ensures
        bump_seq(t, k, amt) == t.push((k, amt)),
    decreases t.len(),
{
    if t.len() == 0 {
        assert(bump_seq(t, k, amt) =~= t.push((k, amt)));
    } else {
        assert(forall|j: int|
            0 <= j < t.drop_first().len() ==> t.drop_first()[j] == t[j + 1]);
        lemma_bump_absent(t.drop_first(), k, amt);
        assert(seq![t.first()] + t.drop_first().push((k, amt)) =~= t.push((k, amt)));
    }
}

} // verus!
