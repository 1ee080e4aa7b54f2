//! The reply index: insertion-ordered storage of normalized messages keyed
//! by id, with memoized reply-chain lengths and reconstruction of the
//! longest chain. Lookup by id goes through `indexmap`'s insertion-ordered
//! map, trusted against its documentation.

use vstd::prelude::*;

use indexmap::IndexMap;

use crate::messages::{MsgV, NormalizedMessage};
use crate::util::sat_add;

verus! {

#[verifier::external_type_specification]
#[verifier::external_body]
#[verifier::reject_recursive_types(K)]
#[verifier::reject_recursive_types(V)]
#[verifier::reject_recursive_types(S)]
pub struct ExIndexMap<K, V, S>(IndexMap<K, V, S>);

/// What the id map holds: its key-value pairs in insertion order.
pub uninterp spec fn index_entries(m: IndexMap<u64, usize>) -> Seq<(u64, usize)>;

/// The value stored for `k`: the first entry carrying `k`, scanned in order.
pub open spec fn im_lookup(s: Seq<(u64, usize)>, k: u64) -> Option<usize>
    decreases s.len(),
{
    if s.len() == 0 {
        Option::None
    } else if s.first().0 == k {
        Option::Some(s.first().1)
    } else {
        im_lookup(s.drop_first(), k)
    }
}

/// Insertion as `indexmap` documents it: an existing key keeps its place and
/// its value is updated; a new key is appended last.
pub open spec fn im_insert_seq(s: Seq<(u64, usize)>, k: u64, v: usize) -> Seq<(u64, usize)>
    decreases s.len(),
{
    if s.len() == 0 {
        seq![(k, v)]
    } else if s.first().0 == k {
        seq![(k, v)] + s.drop_first()
    } else {
        seq![s.first()] + im_insert_seq(s.drop_first(), k, v)
    }
}

proof fn lemma_im_insert_lookup(s: Seq<(u64, usize)>, k: u64, v: usize, k2: u64)
    ensures
        im_lookup(im_insert_seq(s, k, v), k2) == if k2 == k {
            Option::Some(v)
        } else {
            im_lookup(s, k2)
        },
    decreases s.len(),
{
    let b = im_insert_seq(s, k, v);
    if s.len() == 0 {
        assert(b.first() == (k, v));
        assert(b.drop_first() =~= Seq::<(u64, usize)>::empty());
        assert(im_lookup(b.drop_first(), k2) is None);
        assert(im_lookup(b, k2) == if k2 == k {
            Option::Some(v)
        } else {
            Option::<usize>::None
        });
        assert(im_lookup(s, k2) is None);
    } else if s.first().0 == k {
        assert(b.first() == (k, v));
        assert(b.drop_first() =~= s.drop_first());
    } else {
        lemma_im_insert_lookup(s.drop_first(), k, v, k2);
        assert(b.first() == s.first());
        assert(b.drop_first() =~= im_insert_seq(s.drop_first(), k, v));
    }
}

/// Relies on `indexmap::IndexMap::new`: creates an empty map.
#[verifier::external_body]
fn im_new() -> (r: IndexMap<u64, usize>)
    ensures
        index_entries(r) == Seq::<(u64, usize)>::empty(),
{
    IndexMap::new()
}

/// Relies on `indexmap::IndexMap::insert`: an existing key keeps its place
/// in the order and its value is updated; a new key is appended last.
#[verifier::external_body]
fn im_insert(m: &mut IndexMap<u64, usize>, k: u64, v: usize)
    ensures
        index_entries(*final(m)) == im_insert_seq(index_entries(*old(m)), k, v),
{
    m.insert(k, v);
}

/// Relies on `indexmap::IndexMap::get`: returns the value stored for the
/// key, or nothing when the key is absent.
#[verifier::external_body]
fn im_get(m: &IndexMap<u64, usize>, k: &u64) -> (r: Option<usize>)
    ensures
        r == im_lookup(index_entries(*m), *k),
{
    m.get(k).copied()
}

/// One indexed message with its memoized reply-chain length.
pub struct IndexedEntry {
    pub id: u64,
    pub message: NormalizedMessage,
    pub chain: u64,
}

/// Mathematical form of one indexed entry.
pub ghost struct IdxEntryV {
    pub id: u64,
    pub msg: MsgV,
    pub chain: u64,
}

impl View for IndexedEntry {
    type V = IdxEntryV;

    open spec fn view(&self) -> IdxEntryV {
        IdxEntryV { id: self.id, msg: self.message@, chain: self.chain }
    }
}

/// The chain length recorded for the entry with the given id, if any.
pub open spec fn chain_lookup(s: Seq<IdxEntryV>, id: u64) -> Option<u64>
    decreases s.len(),
{
    if s.len() == 0 {
        Option::None
    } else if s.first().id == id {
        Option::Some(s.first().chain)
    } else {
        chain_lookup(s.drop_first(), id)
    }
}

/// The chain length of a newly inserted message: one more than its indexed
/// reply target's, or one when there is no target or the target is unseen.
pub open spec fn new_chain(s: Seq<IdxEntryV>, mv: MsgV) -> u64 {
    match mv.reply_to_message_id {
        Option::None => 1,
        Option::Some(p) => match chain_lookup(s, p) {
            Option::Some(c) => sat_add(c, 1),
            Option::None => 1,
        },
    }
}

/// Insertion into the index: the chain length is computed against the prior
/// state; an existing id is replaced in place, a new id appended.
pub open spec fn idx_insert_v(s: Seq<IdxEntryV>, id: u64, mv: MsgV) -> Seq<IdxEntryV> {
    let e = IdxEntryV { id, msg: mv, chain: new_chain(s, mv) };
    idx_place(s, e)
}

/// Placing an entry: the first entry with the same id is replaced in place;
/// otherwise the entry is appended last.
pub open spec fn idx_place(s: Seq<IdxEntryV>, e: IdxEntryV) -> Seq<IdxEntryV>
    decreases s.len(),
{
    if s.len() == 0 {
        seq![e]
    } else if s.first().id == e.id {
        seq![e] + s.drop_first()
    } else {
        seq![s.first()] + idx_place(s.drop_first(), e)
    }
}

proof fn lemma_idx_place_at(s: Seq<IdxEntryV>, e: IdxEntryV, i: int)
    requires
        0 <= i < s.len(),
        s[i].id == e.id,
        forall|j: int| 0 <= j < i ==> s[j].id != e.id,
    ensures
        idx_place(s, e) == s.update(i, e),
    decreases i,
{
    if i == 0 {
        assert(idx_place(s, e) =~= s.update(0, e));
    } else {
        assert(s.first().id != e.id);
        let sf = s.drop_first();
        assert(forall|j: int| 0 <= j < i - 1 ==> sf[j] == s[j + 1]);
        lemma_idx_place_at(sf, e, i - 1);
        assert(seq![s.first()] + sf.update(i - 1, e) =~= s.update(i, e));
    }
}

proof fn lemma_idx_place_absent(s: Seq<IdxEntryV>, e: IdxEntryV)
    requires
        forall|j: int| 0 <= j < s.len() ==> s[j].id != e.id,
    ensures
        idx_place(s, e) == s.push(e),
    decreases s.len(),
{
    if s.len() == 0 {
        assert(idx_place(s, e) =~= s.push(e));
    } else {
        assert(forall|j: int|
            0 <= j < s.drop_first().len() ==> s.drop_first()[j] == s[j + 1]);
        lemma_idx_place_absent(s.drop_first(), e);
        assert(seq![s.first()] + s.drop_first().push(e) =~= s.push(e));
    }
}

proof fn lemma_chain_lookup_at(s: Seq<IdxEntryV>, i: int)
    requires
        0 <= i < s.len(),
        forall|j: int| 0 <= j < i ==> s[j].id != s[i].id,
    ensures
        chain_lookup(s, s[i].id) == Option::Some(s[i].chain),
    decreases i,
{
    if i > 0 {
        let sf = s.drop_first();
        assert(forall|j: int| 0 <= j < i - 1 ==> sf[j] == s[j + 1]);
        lemma_chain_lookup_at(sf, i - 1);
    }
}

proof fn lemma_chain_lookup_absent(s: Seq<IdxEntryV>, id: u64)
    requires
        forall|j: int| 0 <= j < s.len() ==> s[j].id != id,
    ensures
        chain_lookup(s, id) is None,
    decreases s.len(),
{
    if s.len() > 0 {
        assert(forall|j: int|
            0 <= j < s.drop_first().len() ==> s.drop_first()[j] == s[j + 1]);
        lemma_chain_lookup_absent(s.drop_first(), id);
    }
}

/// Insertion-ordered storage of normalized messages keyed by id, with
/// memoized reply-chain lengths.
pub struct IndexedMessages {
    pub lookup: IndexMap<u64, usize>,
    pub entries: Vec<IndexedEntry>,
}

impl View for IndexedMessages {
    type V = Seq<IdxEntryV>;

    open spec fn view(&self) -> Seq<IdxEntryV> {
        Seq::new(self.entries@.len(), |i: int| self.entries@[i]@)
    }
}

impl IndexedMessages {
    /// Well-formed: ids are pairwise distinct and the id map records exactly
    /// each entry's position.
    pub open spec fn wf(&self) -> bool {
        &&& forall|i: int, j: int|
            0 <= i < j < self@.len() ==> self@[i].id != self@[j].id
        &&& forall|j: int|
            0 <= j < self@.len() ==> im_lookup(index_entries(self.lookup), #[trigger] self@[j].id)
                == Option::Some(j as usize)
        &&& forall|k: u64|
            #![trigger im_lookup(index_entries(self.lookup), k)]
            match im_lookup(index_entries(self.lookup), k) {
                Option::Some(i) => 0 <= i < self@.len() && self@[i as int].id == k,
                Option::None => forall|j: int| 0 <= j < self@.len() ==> self@[j].id != k,
            }
    }

    /// An empty index.
    pub fn new() -> (r: IndexedMessages)
        ensures
            r.wf(),
            r@ == Seq::<IdxEntryV>::empty(),
    {
        let r = IndexedMessages { lookup: im_new(), entries: Vec::new() };
        proof {
            assert(r@ =~= Seq::<IdxEntryV>::empty());
        }
        r
    }

    /// Stores the message under its id and memoizes its chain length: one
    /// more than its indexed reply target's, or one when there is no target
    /// or the target is not indexed. A duplicate id replaces its entry in
    /// place; ids are unique in well-formed input, so this matters only for
    /// malformed input.
    pub fn add_message(&mut self, id: u64, message: NormalizedMessage)
        requires
            old(self).wf(),
        ensures
            final(self).wf(),
            final(self)@ == idx_insert_v(old(self)@, id, message@),
    {
        let ghost s0 = self@;
        let ghost mv = message@;
        let chain = match message.reply_to_message_id {
            Option::None => 1u64,
            Option::Some(p) => match im_get(&self.lookup, &p) {
                Option::Some(pi) => {
                    proof {
                        assert(self@[pi as int].id == p);
                        assert(forall|j: int| 0 <= j < pi ==> self@[j].id != p);
                        lemma_chain_lookup_at(s0, pi as int);
                    }
                    let c = self.entries[pi].chain;
                    if c == u64::MAX {
                        c
                    } else {
                        c + 1
                    }
                },
                Option::None => {
                    proof {
                        lemma_chain_lookup_absent(s0, p);
                    }
                    1u64
                },
            },
        };
        proof {
            assert(chain == new_chain(s0, mv));
        }
        let ghost e = IdxEntryV { id, msg: mv, chain };
        match im_get(&self.lookup, &id) {
            Option::Some(i) => {
                self.entries.set(i, IndexedEntry { id, message, chain });
                proof {
                    assert(self@ =~= s0.update(i as int, e));
                    lemma_idx_place_at(s0, e, i as int);
                    assert(forall|j: int|
                        0 <= j < self@.len() && j != i ==> self@[j] == s0[j]);
                    assert(self@[i as int].id == s0[i as int].id);
                    assert(self.wf());
                }
            },
            Option::None => {
                let n = self.entries.len();
                self.entries.push(IndexedEntry { id, message, chain });
                im_insert(&mut self.lookup, id, n);
                proof {
                    assert(self@ =~= s0.push(e));
                    lemma_idx_place_absent(s0, e);
                    assert(forall|j: int| 0 <= j < s0.len() ==> self@[j] == s0[j]);
                    assert forall|k: u64|
                        #![trigger im_lookup(index_entries(self.lookup), k)]
                        match im_lookup(index_entries(self.lookup), k) {
                            Option::Some(i) => 0 <= i < self@.len() && self@[i as int].id == k,
                            Option::None => forall|j: int|
                                0 <= j < self@.len() ==> self@[j].id != k,
                        } by {
                        lemma_im_insert_lookup(index_entries(old(self).lookup), id, n, k);
                    }
                    assert forall|j: int|
                        0 <= j < self@.len() implies im_lookup(
                        index_entries(self.lookup),
                        self@[j].id,
                    ) == Option::Some(j as usize) by {
                        lemma_im_insert_lookup(
                            index_entries(old(self).lookup),
                            id,
                            n,
                            self@[j].id,
                        );
                    }
                    assert(self.wf());
                }
            },
        }
    }
}

proof fn lemma_chain_entry_at(s: Seq<IdxEntryV>, i: int)
    requires
        0 <= i < s.len(),
        forall|j: int| 0 <= j < i ==> s[j].id != s[i].id,
    ensures
        chain_lookup_entry(s, s[i].id) == Option::Some(s[i]),
    decreases i,
{
    if i > 0 {
        let sf = s.drop_first();
        assert(forall|j: int| 0 <= j < i - 1 ==> sf[j] == s[j + 1]);
        lemma_chain_entry_at(sf, i - 1);
    }
}

proof fn lemma_chain_entry_absent(s: Seq<IdxEntryV>, id: u64)
    requires
        forall|j: int| 0 <= j < s.len() ==> s[j].id != id,
    ensures
        chain_lookup_entry(s, id) is None,
    decreases s.len(),
{
    if s.len() > 0 {
        assert(forall|j: int|
            0 <= j < s.drop_first().len() ==> s.drop_first()[j] == s[j + 1]);
        lemma_chain_entry_absent(s.drop_first(), id);
    }
}

impl IndexedMessages {
    /// The longest reply chain in root-to-leaf order: the backward walk from
    /// the first entry with the maximal recorded chain length, reversed. The
    /// walk is capped at the size of the index, so a malformed reply cycle
    /// truncates the chain instead of looping.
    pub fn longest_chain(&self) -> (r: Vec<&NormalizedMessage>)
        requires
            self.wf(),
        ensures
            r@.len() == longest_chain_v(self@).len(),
            forall|t: int|
                0 <= t < r@.len() ==> r@[t]@ == longest_chain_v(self@)[t],
    {
        let ghost s = self@;
        let n = self.entries.len();
        if n == 0 {
            let r: Vec<&NormalizedMessage> = Vec::new();
            return r;
        }
        let mut best: usize = 0;
        let mut i: usize = 1;
        proof {
            assert(s.take(1).len() == 1);
            assert(first_max_idx(s.take(1)) == 0);
        }
        while i < n
            invariant
                1 <= i <= n,
                n == s.len(),
                s == self@,
                0 <= best < i,
                best as int == first_max_idx(s.take(i as int)),
            decreases n - i,
        {
            proof {
                assert(s.take(i + 1).drop_last() =~= s.take(i as int));
                assert(s.take(i + 1).last() == s[i as int]);
                assert(forall|j: int| 0 <= j < i ==> s.take(i + 1)[j] == s[j]);
            }
            if self.entries[i].chain > self.entries[best].chain {
                best = i;
            }
            i = i + 1;
        }
        proof {
            assert(s.take(n as int) =~= s);
        }
        let start = self.entries[best].id;
        let ghost total = walk_v(s, start, n as nat);
        let mut poss: Vec<usize> = Vec::new();
        let ghost mut done: Seq<MsgV> = Seq::empty();
        let mut cur: Option<u64> = Option::Some(start);
        let mut steps_left: usize = n;
        proof {
            assert(done + walk_v(s, start, n as nat) =~= total);
        }
        while steps_left > 0 && cur.is_some()
            invariant
                0 <= steps_left <= n,
                n == s.len(),
                s == self@,
                self.wf(),
                done.len() == poss@.len(),
                forall|k: int|
                    0 <= k < poss@.len() ==> 0 <= #[trigger] poss@[k] < s.len()
                        && s[poss@[k] as int].msg == done[k],
                done + (match cur {
                    Option::Some(c) => walk_v(s, c, steps_left as nat),
                    Option::None => Seq::<MsgV>::empty(),
                }) == total,
            decreases steps_left + (if cur is Some { 1int } else { 0 }),
        {
            let c = cur.unwrap();
            match im_get(&self.lookup, &c) {
                Option::None => {
                    proof {
                        lemma_chain_entry_absent(s, c);
                        assert(walk_v(s, c, steps_left as nat) =~= Seq::<MsgV>::empty());
                        assert(done + Seq::<MsgV>::empty() =~= done);
                    }
                    cur = Option::None;
                },
                Option::Some(idx) => {
                    proof {
                        assert(s[idx as int].id == c);
                        assert(forall|j: int| 0 <= j < idx ==> s[j].id != c);
                        lemma_chain_entry_at(s, idx as int);
                    }
                    let ghost prev_done = done;
                    let ghost rest = match s[idx as int].msg.reply_to_message_id {
                        Option::None => Seq::<MsgV>::empty(),
                        Option::Some(p) => walk_v(s, p, (steps_left - 1) as nat),
                    };
                    poss.push(idx);
                    proof {
                        done = done.push(s[idx as int].msg);
                        assert(walk_v(s, c, steps_left as nat) == seq![s[idx as int].msg] + rest);
                        assert(prev_done + (seq![s[idx as int].msg] + rest) =~= done + rest);
                    }
                    cur = self.entries[idx].message.reply_to_message_id;
                    steps_left = steps_left - 1;
                    proof {
                        assert(done + (match cur {
                            Option::Some(p) => walk_v(s, p, steps_left as nat),
                            Option::None => Seq::<MsgV>::empty(),
                        }) == total);
                    }
                },
            }
        }
        proof {
            if cur is Some {
                assert(walk_v(s, cur.unwrap(), 0) =~= Seq::<MsgV>::empty());
            }
            assert(done =~= total);
        }
        let k = poss.len();
        let mut r: Vec<&NormalizedMessage> = Vec::new();
        let mut j: usize = 0;
        while j < k
            invariant
                0 <= j <= k,
                k == poss@.len(),
                s == self@,
                n == s.len(),
                done.len() == k,
                done == total,
                forall|t: int|
                    0 <= t < k ==> 0 <= #[trigger] poss@[t] < s.len() && s[poss@[t] as int].msg
                        == done[t],
                r@.len() == j,
                forall|t: int| 0 <= t < j ==> r@[t]@ == done[k - 1 - t],
            decreases k - j,
        {
            let idx = poss[k - 1 - j];
            r.push(&self.entries[idx].message);
            j = j + 1;
        }
        proof {
            assert(longest_chain_v(s) == total.reverse());
            assert(forall|t: int|
                0 <= t < k ==> total.reverse()[t] == done[k - 1 - t]);
        }
        r
    }
}

/// The backward walk from the entry with the given id: the entry, then the
/// walk from its reply target, stopping at a missing target, at an absent
/// reply field, or when the fuel bound (the size of the index) runs out, so
/// that a malformed reply cycle truncates instead of looping.
pub open spec fn walk_v(s: Seq<IdxEntryV>, id: u64, fuel: nat) -> Seq<MsgV>
    decreases fuel,
{
    if fuel == 0 {
        Seq::empty()
    } else {
        match chain_lookup_entry(s, id) {
            Option::None => Seq::empty(),
            Option::Some(e) => seq![e.msg] + match e.msg.reply_to_message_id {
                Option::None => Seq::<MsgV>::empty(),
                Option::Some(p) => walk_v(s, p, (fuel - 1) as nat),
            },
        }
    }
}

/// An unknown reply target is a normal condition, not a failure: whenever an
/// indexed message's reply target was never inserted, the backward walk from
/// that message stops at the message itself, so it becomes the chain's root.
pub proof fn lemma_walk_stops_at_missing_target(
    s: Seq<IdxEntryV>,
    id: u64,
    e: IdxEntryV,
    p: u64,
    fuel: nat,
)
    requires
        fuel >= 1,
        chain_lookup_entry(s, id) == Option::Some(e),
        e.msg.reply_to_message_id == Option::Some(p),
        forall|j: int| 0 <= j < s.len() ==> s[j].id != p,
    ensures
        walk_v(s, id, fuel) == seq![e.msg],
{
    lemma_chain_entry_absent(s, p);
    assert(walk_v(s, p, (fuel - 1) as nat) =~= Seq::<MsgV>::empty());
    assert(seq![e.msg] + Seq::<MsgV>::empty() =~= seq![e.msg]);
}

/// The first entry with the given id, if any.
pub open spec fn chain_lookup_entry(s: Seq<IdxEntryV>, id: u64) -> Option<IdxEntryV>
    decreases s.len(),
{
    if s.len() == 0 {
        Option::None
    } else if s.first().id == id {
        Option::Some(s.first())
    } else {
        chain_lookup_entry(s.drop_first(), id)
    }
}

/// The index of the first entry with the maximal chain length.
pub open spec fn first_max_idx(s: Seq<IdxEntryV>) -> int
    decreases s.len(),
{
    if s.len() <= 1 {
        0
    } else {
        let r = first_max_idx(s.drop_last());
        if s.last().chain > s[r].chain {
            s.len() - 1
        } else {
            r
        }
    }
}

/// The longest reply chain, root first: the backward walk from the first
/// entry with the maximal chain length, reversed.
pub open spec fn longest_chain_v(s: Seq<IdxEntryV>) -> Seq<MsgV> {
    if s.len() == 0 {
        Seq::empty()
    } else {
        walk_v(s, s[first_max_idx(s)].id, s.len()).reverse()
    }
}

} // verus!
