//! Per-participant statistics: message and character counters, first/last
//! timestamps, word-frequency and reaction tables, and the associative,
//! commutative combine operation that merges statistics losslessly.

use vstd::prelude::*;

use crate::counts::{
    bump_seq, count_of, distinct_keys, has_key, kcs, lemma_merge_count, lemma_merge_wf, merge_seq,
    sort_desc, sort_entries_desc, CountMap,
};
use crate::content::TextEntity;
use crate::messages::{
    norm_of, seq_views, EntityV, MsgV, NormalizedMessage, RawMessage, Reaction, ReactionV,
};
use crate::util::{
    add_capped, max64, merge_max, merge_min, opt_max, opt_min, sat_add, tokenize, tokens,
};

verus! {

/// The Unicode-lowercased form of a character sequence, as
/// `str::to_lowercase` computes it from the characters alone.
pub uninterp spec fn lower_of(s: Seq<char>) -> Seq<char>;

/// Relies on `str::to_lowercase`: the result is a function of the characters
/// alone, and an empty string stays empty.
#[verifier::external_body]
fn lowercase(s: &str) -> (r: String)
    ensures
        r@ == lower_of(s@),
        s@.len() == 0 ==> r@.len() == 0,
{
    s.to_lowercase()
}

/// A configured set of words excluded from word-frequency accumulation.
pub struct StopWordSet {
    pub words: Vec<String>,
}

impl View for StopWordSet {
    type V = Set<Seq<char>>;

    open spec fn view(&self) -> Set<Seq<char>> {
        Set::new(|k: Seq<char>| exists|i: int| 0 <= i < self.words@.len() && self.words@[i]@ == k)
    }
}

impl StopWordSet {
    /// A stop-word set holding exactly the given words.
    pub fn new(words: Vec<String>) -> (r: StopWordSet)
        ensures
            r@ == Set::new(
                |k: Seq<char>| exists|i: int| 0 <= i < words@.len() && words@[i]@ == k,
            ),
    {
        StopWordSet { words }
    }

    /// The empty stop-word set: no word is excluded.
    pub fn empty() -> (r: StopWordSet)
        ensures
            r@ == Set::<Seq<char>>::empty(),
    {
        let r = StopWordSet { words: Vec::new() };
        proof {
            assert(r@ =~= Set::<Seq<char>>::empty());
        }
        r
    }

    /// Whether `w` is a stop word.
    pub fn contains(&self, w: &String) -> (r: bool)
        ensures
            r == self@.contains(w@),
    {
        let n = self.words.len();
        let mut i: usize = 0;
        while i < n
            invariant
                0 <= i <= n,
                n == self.words@.len(),
                forall|j: int| 0 <= j < i ==> self.words@[j]@ != w@,
            decreases n - i,
        {
            if self.words[i] == *w {
                return true;
            }
            i = i + 1;
        }
        false
    }
}

/// The tokens of `s` that are not stop words, in order.
pub open spec fn filter_stop(ts: Seq<Seq<char>>, stop: Set<Seq<char>>) -> Seq<Seq<char>>
    decreases ts.len(),
{
    if ts.len() == 0 {
        Seq::empty()
    } else if stop.contains(ts.first()) {
        filter_stop(ts.drop_first(), stop)
    } else {
        seq![ts.first()] + filter_stop(ts.drop_first(), stop)
    }
}

proof fn lemma_filter_stop_push(ts: Seq<Seq<char>>, stop: Set<Seq<char>>, w: Seq<char>)
    ensures
        filter_stop(ts.push(w), stop) == if stop.contains(w) {
            filter_stop(ts, stop)
        } else {
            filter_stop(ts, stop).push(w)
        },
    decreases ts.len(),
{
    if ts.len() == 0 {
        assert(ts.push(w).first() == w);
        assert(ts.push(w).drop_first() =~= Seq::<Seq<char>>::empty());
        if !stop.contains(w) {
            assert(seq![w] + filter_stop(Seq::empty(), stop) =~= filter_stop(
                ts,
                stop,
            ).push(w));
        }
    } else {
        assert(ts.push(w).first() == ts.first());
        assert(ts.push(w).drop_first() =~= ts.drop_first().push(w));
        lemma_filter_stop_push(ts.drop_first(), stop, w);
        if !stop.contains(ts.first()) && !stop.contains(w) {
            assert(seq![ts.first()] + filter_stop(ts.drop_first(), stop).push(w) =~= (seq![
                ts.first(),
            ] + filter_stop(ts.drop_first(), stop)).push(w));
        }
    }
}

/// Each word bumps its count by one, in order.
pub open spec fn add_words_v(t: Seq<(Seq<char>, u64)>, ws: Seq<Seq<char>>) -> Seq<
    (Seq<char>, u64),
>
    decreases ws.len(),
{
    if ws.len() == 0 {
        t
    } else {
        add_words_v(bump_seq(t, ws.first(), 1), ws.drop_first())
    }
}

proof fn lemma_add_words_push(t: Seq<(Seq<char>, u64)>, ws: Seq<Seq<char>>, w: Seq<char>)
    ensures
        add_words_v(t, ws.push(w)) == bump_seq(add_words_v(t, ws), w, 1),
    decreases ws.len(),
{
    if ws.len() == 0 {
        assert(ws.push(w).first() == w);
        assert(ws.push(w).drop_first() =~= Seq::<Seq<char>>::empty());
        assert(add_words_v(t, ws.push(w)) == add_words_v(
            bump_seq(t, w, 1),
            ws.push(w).drop_first(),
        ));
        assert(add_words_v(bump_seq(t, w, 1), Seq::<Seq<char>>::empty()) == bump_seq(t, w, 1));
        assert(add_words_v(t, ws) == t);
    } else {
        assert(ws.push(w).first() == ws.first());
        assert(ws.push(w).drop_first() =~= ws.drop_first().push(w));
        let t2 = bump_seq(t, ws.first(), 1);
        lemma_add_words_push(t2, ws.drop_first(), w);
        assert(add_words_v(t, ws.push(w)) == add_words_v(t2, ws.drop_first().push(w)));
        assert(add_words_v(t, ws) == add_words_v(t2, ws.drop_first()));
    }
}

/// The key a reaction is tallied under: the emoji glyph, or the custom
/// emoji's asset id.
pub open spec fn reaction_key(r: ReactionV) -> Seq<char> {
    match r {
        ReactionV::Emoji { emoji, .. } => emoji,
        ReactionV::CustomEmoji { document_id, .. } => document_id,
    }
}

/// The count a reaction carries.
pub open spec fn reaction_count(r: ReactionV) -> u64 {
    match r {
        ReactionV::Emoji { count, .. } => count,
        ReactionV::CustomEmoji { count, .. } => count,
    }
}

/// Each reaction bumps its key by its count, in order.
pub open spec fn add_reactions_v(t: Seq<(Seq<char>, u64)>, rs: Seq<ReactionV>) -> Seq<
    (Seq<char>, u64),
>
    decreases rs.len(),
{
    if rs.len() == 0 {
        t
    } else {
        add_reactions_v(bump_seq(t, reaction_key(rs.first()), reaction_count(rs.first())), rs.drop_first())
    }
}

proof fn lemma_add_reactions_push(t: Seq<(Seq<char>, u64)>, rs: Seq<ReactionV>, r: ReactionV)
    ensures
        add_reactions_v(t, rs.push(r)) == bump_seq(
            add_reactions_v(t, rs),
            reaction_key(r),
            reaction_count(r),
        ),
    decreases rs.len(),
{
    if rs.len() == 0 {
        assert(rs.push(r).first() == r);
        assert(rs.push(r).drop_first() =~= Seq::<ReactionV>::empty());
        assert(add_reactions_v(t, rs.push(r)) == add_reactions_v(
            bump_seq(t, reaction_key(r), reaction_count(r)),
            rs.push(r).drop_first(),
        ));
        assert(add_reactions_v(
            bump_seq(t, reaction_key(r), reaction_count(r)),
            Seq::<ReactionV>::empty(),
        ) == bump_seq(t, reaction_key(r), reaction_count(r)));
        assert(add_reactions_v(t, rs) == t);
    } else {
        assert(rs.push(r).first() == rs.first());
        assert(rs.push(r).drop_first() =~= rs.drop_first().push(r));
        let t2 = bump_seq(t, reaction_key(rs.first()), reaction_count(rs.first()));
        lemma_add_reactions_push(t2, rs.drop_first(), r);
        assert(add_reactions_v(t, rs.push(r)) == add_reactions_v(t2, rs.drop_first().push(r)));
        assert(add_reactions_v(t, rs) == add_reactions_v(t2, rs.drop_first()));
    }
}

/// Mathematical form of one participant's statistics.
pub ghost struct UserStatsV {
    pub count: u64,
    pub total_chars: u64,
    pub max_chars: u64,
    pub first_message: Option<u64>,
    pub last_message: Option<u64>,
    pub words: Seq<(Seq<char>, u64)>,
    pub received_reactions: Seq<(Seq<char>, u64)>,
}

/// Statistics for one participant.
pub struct UserStats {
    /// Number of messages sent.
    pub count: u64,
    /// Summed character length of all flattened message texts (saturating).
    pub total_chars: u64,
    /// The largest single-message character length.
    pub max_chars: u64,
    /// Earliest message timestamp seen, over present timestamps only.
    pub first_message: Option<u64>,
    /// Latest message timestamp seen, over present timestamps only.
    pub last_message: Option<u64>,
    /// Word-frequency table of the lowercased, whitespace-split text,
    /// excluding stop words.
    pub words: CountMap,
    /// Reaction tallies keyed by emoji glyph or custom-emoji asset id.
    pub received_reactions: CountMap,
}

impl View for UserStats {
    type V = UserStatsV;

    open spec fn view(&self) -> UserStatsV {
        UserStatsV {
            count: self.count,
            total_chars: self.total_chars,
            max_chars: self.max_chars,
            first_message: self.first_message,
            last_message: self.last_message,
            words: self.words.view_seq(),
            received_reactions: self.received_reactions.view_seq(),
        }
    }
}

/// Well-formed statistics: both tables carry pairwise distinct keys.
pub open spec fn stats_wf_v(u: UserStatsV) -> bool {
    distinct_keys(u.words) && distinct_keys(u.received_reactions)
}

/// The zero-valued statistics, the identity of `combined_v`.
pub open spec fn zero_stats_v() -> UserStatsV {
    UserStatsV {
        count: 0,
        total_chars: 0,
        max_chars: 0,
        first_message: Option::None,
        last_message: Option::None,
        words: Seq::empty(),
        received_reactions: Seq::empty(),
    }
}

/// The character length of a text, capped at `u64::MAX`.
pub open spec fn len_cap(s: Seq<char>) -> u64 {
    if s.len() > u64::MAX {
        u64::MAX
    } else {
        s.len() as u64
    }
}

/// Recording one message: counters raised (saturating), the maximum and the
/// first/last timestamps merged, and each non-stop word of the lowercased,
/// whitespace-split text bumped by one.
pub open spec fn add_message_v(
    u: UserStatsV,
    text: Seq<char>,
    stop: Set<Seq<char>>,
    ts: Option<u64>,
) -> UserStatsV {
    UserStatsV {
        count: sat_add(u.count, 1),
        total_chars: sat_add(u.total_chars, len_cap(text)),
        max_chars: max64(u.max_chars, len_cap(text)),
        first_message: opt_min(u.first_message, ts),
        last_message: opt_max(u.last_message, ts),
        words: add_words_v(u.words, filter_stop(tokens(lower_of(text)), stop)),
        received_reactions: u.received_reactions,
    }
}

/// Recording reactions: each bumps its key by its count.
pub open spec fn add_rx_v(u: UserStatsV, rs: Seq<ReactionV>) -> UserStatsV {
    UserStatsV { received_reactions: add_reactions_v(u.received_reactions, rs), ..u }
}

/// The combination of two statistics: summed counts and totals (saturating),
/// the larger maximum, min/max-merged timestamps, and per-key-summed tables.
pub open spec fn combined_v(a: UserStatsV, b: UserStatsV) -> UserStatsV {
    UserStatsV {
        count: sat_add(a.count, b.count),
        total_chars: sat_add(a.total_chars, b.total_chars),
        max_chars: max64(a.max_chars, b.max_chars),
        first_message: opt_min(a.first_message, b.first_message),
        last_message: opt_max(a.last_message, b.last_message),
        words: merge_seq(a.words, b.words),
        received_reactions: merge_seq(a.received_reactions, b.received_reactions),
    }
}

/// Two count tables carry the same counts and the same keys.
pub open spec fn tables_equiv(x: Seq<(Seq<char>, u64)>, y: Seq<(Seq<char>, u64)>) -> bool {
    forall|k: Seq<char>| #![trigger count_of(x, k)] #![trigger count_of(y, k)]
        count_of(x, k) == count_of(y, k) && has_key(x, k) == has_key(y, k)
}

/// Two statistics agree: equal scalars and timestamps, and tables with the
/// same counts and keys.
pub open spec fn stats_equiv(a: UserStatsV, b: UserStatsV) -> bool {
    &&& a.count == b.count
    &&& a.total_chars == b.total_chars
    &&& a.max_chars == b.max_chars
    &&& a.first_message == b.first_message
    &&& a.last_message == b.last_message
    &&& tables_equiv(a.words, b.words)
    &&& tables_equiv(a.received_reactions, b.received_reactions)
}

/// Combination is commutative: merging in either order yields the same
/// counts, totals, maxima, timestamps, and tables.
pub proof fn lemma_combine_comm(a: UserStats, b: UserStats)
    requires
        a.wf(),
        b.wf(),
    ensures
        stats_equiv(combined_v(a@, b@), combined_v(b@, a@)),
{
    lemma_tables_comm(a@.words, b@.words);
    lemma_tables_comm(a@.received_reactions, b@.received_reactions);
}

proof fn lemma_tables_comm(x: Seq<(Seq<char>, u64)>, y: Seq<(Seq<char>, u64)>)
    requires
        distinct_keys(x),
        distinct_keys(y),
    ensures
        tables_equiv(merge_seq(x, y), merge_seq(y, x)),
{
    assert forall|k: Seq<char>|
        count_of(merge_seq(x, y), k) == count_of(merge_seq(y, x), k) && has_key(
            merge_seq(x, y),
            k,
        ) == has_key(merge_seq(y, x), k) by {
        lemma_merge_count(x, y, k);
        lemma_merge_count(y, x, k);
    }
}

/// Combination is associative: grouping does not affect the result's counts,
/// totals, maxima, timestamps, or tables.
pub proof fn lemma_combine_assoc(a: UserStats, b: UserStats, c: UserStats)
    requires
        a.wf(),
        b.wf(),
        c.wf(),
    ensures
        stats_equiv(
            combined_v(a@, combined_v(b@, c@)),
            combined_v(combined_v(a@, b@), c@),
        ),
{
    lemma_tables_assoc(a@.words, b@.words, c@.words);
    lemma_tables_assoc(a@.received_reactions, b@.received_reactions, c@.received_reactions);
}

proof fn lemma_tables_assoc(
    x: Seq<(Seq<char>, u64)>,
    y: Seq<(Seq<char>, u64)>,
    z: Seq<(Seq<char>, u64)>,
)
    requires
        distinct_keys(x),
        distinct_keys(y),
        distinct_keys(z),
    ensures
        tables_equiv(merge_seq(x, merge_seq(y, z)), merge_seq(merge_seq(x, y), z)),
{
    lemma_merge_wf(y, z);
    assert forall|k: Seq<char>|
        count_of(merge_seq(x, merge_seq(y, z)), k) == count_of(
            merge_seq(merge_seq(x, y), z),
            k,
        ) && has_key(merge_seq(x, merge_seq(y, z)), k) == has_key(
            merge_seq(merge_seq(x, y), z),
            k,
        ) by {
        lemma_merge_count(x, merge_seq(y, z), k);
        lemma_merge_count(y, z, k);
        lemma_merge_count(merge_seq(x, y), z, k);
        lemma_merge_count(x, y, k);
    }
}

/// The zero-valued statistics are the identity of combination, on the right
/// exactly and on the left up to table order.
pub proof fn lemma_combine_identity(a: UserStats)
    requires
        a.wf(),
    ensures
        combined_v(a@, zero_stats_v()) == a@,
        stats_equiv(combined_v(zero_stats_v(), a@), a@),
{
    lemma_tables_comm(a@.words, Seq::empty());
    lemma_tables_comm(a@.received_reactions, Seq::empty());
    assert(merge_seq(a@.words, Seq::empty()) == a@.words);
    assert(merge_seq(a@.received_reactions, Seq::empty()) == a@.received_reactions);
    assert(combined_v(a@, zero_stats_v()) == a@);
    assert forall|k: Seq<char>|
        count_of(merge_seq(Seq::empty(), a@.words), k) == count_of(a@.words, k) && has_key(
            merge_seq(Seq::empty(), a@.words),
            k,
        ) == has_key(a@.words, k) by {
        lemma_merge_count(Seq::empty(), a@.words, k);
    }
    assert forall|k: Seq<char>|
        count_of(merge_seq(Seq::empty(), a@.received_reactions), k) == count_of(
            a@.received_reactions,
            k,
        ) && has_key(merge_seq(Seq::empty(), a@.received_reactions), k) == has_key(
            a@.received_reactions,
            k,
        ) by {
        lemma_merge_count(Seq::empty(), a@.received_reactions, k);
    }
}

impl UserStats {
    /// Well-formed: both tables carry pairwise distinct keys.
    pub open spec fn wf(&self) -> bool {
        stats_wf_v(self@)
    }

    /// Zero-valued statistics.
    pub fn new() -> (r: UserStats)
        ensures
            r.wf(),
            r@ == zero_stats_v(),
    {
        let r = UserStats {
            count: 0,
            total_chars: 0,
            max_chars: 0,
            first_message: Option::None,
            last_message: Option::None,
            words: CountMap::new(),
            received_reactions: CountMap::new(),
        };
        r
    }

    /// Records one message: raises the counters, merges the timestamp, and
    /// bumps each non-stop word of the lowercased, whitespace-split text.
    pub fn add_message(&mut self, message: &String, filter: &StopWordSet, timestamp: Option<u64>)
        requires
            old(self).wf(),
        ensures
            final(self).wf(),
            final(self)@ == add_message_v(old(self)@, message@, filter@, timestamp),
    {
        let len64 = message.as_str().unicode_len() as u64;
        proof {
            assert(len64 == len_cap(message@));
        }
        self.count = add_capped(self.count, 1);
        self.total_chars = add_capped(self.total_chars, len64);
        if len64 > self.max_chars {
            self.max_chars = len64;
        }
        self.first_message = merge_min(self.first_message, timestamp);
        self.last_message = merge_max(self.last_message, timestamp);

        let lowered = lowercase(message.as_str());
        let toks = tokenize(lowered.as_str());
        let ghost all = tokens(lower_of(message@));
        let ghost w0 = self.words.view_seq();
        let n = toks.len();
        let mut i: usize = 0;
        proof {
            assert(all.take(0) =~= Seq::<Seq<char>>::empty());
        }
        let ghost target = add_message_v(old(self)@, message@, filter@, timestamp);
        while i < n
            invariant
                0 <= i <= n,
                n == toks@.len(),
                toks.deep_view() == all,
                all == tokens(lower_of(message@)),
                w0 == old(self).words.view_seq(),
                self.words.wf(),
                self.words.view_seq() == add_words_v(w0, filter_stop(all.take(i as int), filter@)),
                self.count == target.count,
                self.total_chars == target.total_chars,
                self.max_chars == target.max_chars,
                self.first_message == target.first_message,
                self.last_message == target.last_message,
                self.received_reactions == old(self).received_reactions,
                target == add_message_v(old(self)@, message@, filter@, timestamp),
            decreases n - i,
        {
            let ghost prev = filter_stop(all.take(i as int), filter@);
            proof {
                assert(all.take(i + 1) =~= all.take(i as int).push(all[i as int]));
                assert(toks.deep_view()[i as int] == toks@[i as int]@);
                lemma_filter_stop_push(all.take(i as int), filter@, all[i as int]);
            }
            if !filter.contains(&toks[i]) {
                self.words.bump(&toks[i], 1);
                proof {
                    lemma_add_words_push(w0, prev, all[i as int]);
                }
            }
            i = i + 1;
        }
        proof {
            assert(all.take(n as int) =~= all);
        }
    }

    /// Records reactions received: each bumps its key (the emoji glyph or the
    /// custom-emoji asset id) by its count.
    pub fn add_reactions(&mut self, reactions: &Vec<Reaction>)
        requires
            old(self).wf(),
        ensures
            final(self).wf(),
            final(self)@ == add_rx_v(old(self)@, seq_views(reactions@)),
    {
        let ghost rs = seq_views(reactions@);
        let ghost t0 = self.received_reactions.view_seq();
        let n = reactions.len();
        let mut i: usize = 0;
        proof {
            assert(rs.take(0) =~= Seq::<ReactionV>::empty());
        }
        while i < n
            invariant
                0 <= i <= n,
                n == reactions@.len(),
                rs == seq_views(reactions@),
                self.received_reactions.wf(),
                self.received_reactions.view_seq() == add_reactions_v(t0, rs.take(i as int)),
                self.count == old(self).count,
                self.total_chars == old(self).total_chars,
                self.max_chars == old(self).max_chars,
                self.first_message == old(self).first_message,
                self.last_message == old(self).last_message,
                self.words == old(self).words,
            decreases n - i,
        {
            proof {
                assert(rs.take(i + 1) =~= rs.take(i as int).push(rs[i as int]));
                lemma_add_reactions_push(t0, rs.take(i as int), rs[i as int]);
            }
            match &reactions[i] {
                Reaction::Emoji { count, emoji, .. } => {
                    self.received_reactions.bump(emoji, *count);
                    proof {
                        assert(reaction_key(rs[i as int]) == emoji@);
                        assert(reaction_count(rs[i as int]) == *count);
                    }
                },
                Reaction::CustomEmoji { count, document_id, .. } => {
                    self.received_reactions.bump(document_id, *count);
                    proof {
                        assert(reaction_key(rs[i as int]) == document_id@);
                        assert(reaction_count(rs[i as int]) == *count);
                    }
                },
            }
            i = i + 1;
        }
        proof {
            assert(rs.take(n as int) =~= rs);
        }
    }

    /// The average character length: the integer quotient of total characters
    /// by message count, and exactly zero when the count is zero.
    pub fn avg_chars(&self) -> (r: u64)
        ensures
            r == avg_chars_v(self@),
    {
        if self.count == 0 {
            0
        } else {
            self.total_chars / self.count
        }
    }

    /// The `max` most frequent words, by descending count with ties in table
    /// order.
    pub fn top_words(&self, max: usize) -> (r: Vec<(String, u64)>)
        ensures
            kcs(r@) == if max <= sort_desc(self@.words).len() {
                sort_desc(self@.words).subrange(0, max as int)
            } else {
                sort_desc(self@.words)
            },
    {
        let mut sorted = sort_entries_desc(&self.words.entries);
        let ghost full = kcs(sorted@);
        sorted.truncate(max);
        proof {
            if max <= full.len() {
                assert(kcs(sorted@) =~= full.subrange(0, max as int));
            }
        }
        sorted
    }

    /// The combination of two participants' statistics; see `combined_v`.
    /// Associative and commutative up to table order (`lemma_combine_comm`,
    /// `lemma_combine_assoc`).
    pub fn combine(&self, other: &UserStats) -> (r: UserStats)
        requires
            self.wf(),
            other.wf(),
        ensures
            r.wf(),
            r@ == combined_v(self@, other@),
    {
        UserStats {
            count: add_capped(self.count, other.count),
            total_chars: add_capped(self.total_chars, other.total_chars),
            max_chars: if self.max_chars >= other.max_chars {
                self.max_chars
            } else {
                other.max_chars
            },
            first_message: merge_min(self.first_message, other.first_message),
            last_message: merge_max(self.last_message, other.last_message),
            words: self.words.merged(&other.words),
            received_reactions: self.received_reactions.merged(&other.received_reactions),
        }
    }
}

/// The integer average length: `total_chars / count`, and zero for an empty
/// participant.
pub open spec fn avg_chars_v(u: UserStatsV) -> u64 {
    if u.count == 0 {
        0
    } else {
        u.total_chars / u.count
    }
}

/// Display settings for the rendered report.
pub struct StatsSettings {
    /// How many most frequent words to display.
    pub max_words: usize,
    /// Whether to show the text-entity histogram.
    pub show_entities: bool,
    /// How many top participants to display.
    pub max_participants: usize,
}

/// Mathematical form of the chat-wide statistics.
pub ghost struct ChatStatsV {
    pub messages: u64,
    pub service_messages: u64,
    pub edited: u64,
    pub participants: Seq<(Seq<char>, UserStatsV)>,
    pub text_entity_types: Seq<(Seq<char>, u64)>,
}

/// Chat-wide statistics: message counters, per-participant statistics in
/// order of first appearance, and the text-entity histogram.
pub struct ChatStats {
    /// Number of regular messages analyzed.
    pub messages: u64,
    /// Number of service records analyzed.
    pub service_messages: u64,
    /// Number of regular messages carrying an edit timestamp.
    pub edited: u64,
    /// Per-participant statistics keyed by sender name, in order of first
    /// appearance.
    pub participants: Vec<(String, UserStats)>,
    /// Occurrence counts of text-entity kinds, over regular and service
    /// records alike.
    pub text_entity_types: CountMap,
    /// Display settings for the rendered report.
    pub settings: StatsSettings,
}

impl View for ChatStats {
    type V = ChatStatsV;

    open spec fn view(&self) -> ChatStatsV {
        ChatStatsV {
            messages: self.messages,
            service_messages: self.service_messages,
            edited: self.edited,
            participants: Seq::new(
                self.participants@.len(),
                |i: int| (self.participants@[i].0@, self.participants@[i].1@),
            ),
            text_entity_types: self.text_entity_types.view_seq(),
        }
    }
}

/// Well-formed chat statistics: participant names pairwise distinct, every
/// participant's tables well-formed, and the entity table well-formed.
pub open spec fn chat_wf_v(c: ChatStatsV) -> bool {
    &&& forall|i: int, j: int|
        0 <= i < j < c.participants.len() ==> c.participants[i].0 != c.participants[j].0
    &&& forall|i: int|
        0 <= i < c.participants.len() ==> #[trigger] stats_wf_v(c.participants[i].1)
    &&& distinct_keys(c.text_entity_types)
}

/// Each entity bumps its kind's histogram count by one, in order.
pub open spec fn add_entities_v(t: Seq<(Seq<char>, u64)>, es: Seq<EntityV>) -> Seq<
    (Seq<char>, u64),
>
    decreases es.len(),
{
    if es.len() == 0 {
        t
    } else {
        add_entities_v(bump_seq(t, es.first().entity_type, 1), es.drop_first())
    }
}

proof fn lemma_add_entities_push(t: Seq<(Seq<char>, u64)>, es: Seq<EntityV>, e: EntityV)
    ensures
        add_entities_v(t, es.push(e)) == bump_seq(add_entities_v(t, es), e.entity_type, 1),
    decreases es.len(),
{
    if es.len() == 0 {
        assert(es.push(e).first() == e);
        assert(es.push(e).drop_first() =~= Seq::<EntityV>::empty());
        assert(add_entities_v(t, es.push(e)) == add_entities_v(
            bump_seq(t, e.entity_type, 1),
            es.push(e).drop_first(),
        ));
        assert(add_entities_v(bump_seq(t, e.entity_type, 1), Seq::<EntityV>::empty()) == bump_seq(
            t,
            e.entity_type,
            1,
        ));
        assert(add_entities_v(t, es) == t);
    } else {
        assert(es.push(e).first() == es.first());
        assert(es.push(e).drop_first() =~= es.drop_first().push(e));
        let t2 = bump_seq(t, es.first().entity_type, 1);
        lemma_add_entities_push(t2, es.drop_first(), e);
        assert(add_entities_v(t, es.push(e)) == add_entities_v(t2, es.drop_first().push(e)));
        assert(add_entities_v(t, es) == add_entities_v(t2, es.drop_first()));
    }
}

/// Recording one normalized message against one participant's statistics:
/// the message itself, then its reactions.
pub open spec fn apply_message_v(u: UserStatsV, mv: MsgV, stop: Set<Seq<char>>) -> UserStatsV {
    add_rx_v(add_message_v(u, mv.text, stop, mv.date), mv.reactions)
}

/// Updating the sender's entry in the participant table: an existing entry is
/// updated in place; a new sender is appended with zero-based statistics.
pub open spec fn upsert_v(
    ps: Seq<(Seq<char>, UserStatsV)>,
    mv: MsgV,
    stop: Set<Seq<char>>,
) -> Seq<(Seq<char>, UserStatsV)>
    decreases ps.len(),
{
    if ps.len() == 0 {
        seq![(mv.from, apply_message_v(zero_stats_v(), mv, stop))]
    } else if ps.first().0 == mv.from {
        seq![(mv.from, apply_message_v(ps.first().1, mv, stop))] + ps.drop_first()
    } else {
        seq![ps.first()] + upsert_v(ps.drop_first(), mv, stop)
    }
}

/// One analysis step. A service record raises the service counter and tallies
/// its entities. A regular record raises the message counter, updates its
/// sender's statistics with the flattened text, timestamp, and reactions,
/// raises the edited counter when an edit timestamp is present, and tallies
/// its entities.
pub open spec fn analyze_step_v(s: ChatStatsV, m: RawMessage, stop: Set<Seq<char>>) -> ChatStatsV {
    match norm_of(m) {
        Option::None => match m {
            RawMessage::Service { text_entities, .. } => ChatStatsV {
                service_messages: sat_add(s.service_messages, 1),
                text_entity_types: add_entities_v(s.text_entity_types, seq_views(text_entities@)),
                ..s
            },
            _ => s,
        },
        Option::Some(p) => ChatStatsV {
            messages: sat_add(s.messages, 1),
            edited: if p.1.edited is Some {
                sat_add(s.edited, 1)
            } else {
                s.edited
            },
            participants: upsert_v(s.participants, p.1, stop),
            text_entity_types: add_entities_v(s.text_entity_types, p.1.text_entities),
            ..s
        },
    }
}

/// Folding `analyze_step_v` over a record sequence from the left.
pub open spec fn analyze_v(s: ChatStatsV, msgs: Seq<RawMessage>, stop: Set<Seq<char>>) -> ChatStatsV
    decreases msgs.len(),
{
    if msgs.len() == 0 {
        s
    } else {
        analyze_v(analyze_step_v(s, msgs.first(), stop), msgs.drop_first(), stop)
    }
}

proof fn lemma_analyze_push(s: ChatStatsV, msgs: Seq<RawMessage>, m: RawMessage, stop: Set<Seq<char>>)
    ensures
        analyze_v(s, msgs.push(m), stop) == analyze_step_v(analyze_v(s, msgs, stop), m, stop),
    decreases msgs.len(),
{
    if msgs.len() == 0 {
        assert(msgs.push(m).first() == m);
        assert(msgs.push(m).drop_first() =~= Seq::<RawMessage>::empty());
        assert(analyze_v(s, msgs.push(m), stop) == analyze_v(
            analyze_step_v(s, m, stop),
            msgs.push(m).drop_first(),
            stop,
        ));
        assert(analyze_v(analyze_step_v(s, m, stop), Seq::<RawMessage>::empty(), stop)
            == analyze_step_v(s, m, stop));
        assert(analyze_v(s, msgs, stop) == s);
    } else {
        assert(msgs.push(m).first() == msgs.first());
        assert(msgs.push(m).drop_first() =~= msgs.drop_first().push(m));
        let s2 = analyze_step_v(s, msgs.first(), stop);
        lemma_analyze_push(s2, msgs.drop_first(), m, stop);
        assert(analyze_v(s, msgs.push(m), stop) == analyze_v(s2, msgs.drop_first().push(m), stop));
        assert(analyze_v(s, msgs, stop) == analyze_v(s2, msgs.drop_first(), stop));
    }
}

/// A service record contributes only to the service counter and the entity
/// histogram: it normalizes to nothing, and an analysis step over it leaves
/// the regular-message counter, the edited counter, and every participant's
/// statistics unchanged.
pub proof fn lemma_service_excluded(s: ChatStatsV, m: RawMessage, stop: Set<Seq<char>>)
    requires
        m is Service,
    ensures
        norm_of(m) is None,
        analyze_step_v(s, m, stop).messages == s.messages,
        analyze_step_v(s, m, stop).edited == s.edited,
        analyze_step_v(s, m, stop).participants == s.participants,
        analyze_step_v(s, m, stop).service_messages == sat_add(s.service_messages, 1),
{
}

proof fn lemma_upsert_at(
    ps: Seq<(Seq<char>, UserStatsV)>,
    mv: MsgV,
    stop: Set<Seq<char>>,
    i: int,
)
    requires
        0 <= i < ps.len(),
        ps[i].0 == mv.from,
        forall|j: int| 0 <= j < i ==> ps[j].0 != mv.from,
    ensures
        upsert_v(ps, mv, stop) == ps.update(i, (mv.from, apply_message_v(ps[i].1, mv, stop))),
    decreases i,
{
    if i == 0 {
        assert(upsert_v(ps, mv, stop) =~= ps.update(
            0,
            (mv.from, apply_message_v(ps[0].1, mv, stop)),
        ));
    } else {
        assert(ps.first().0 != mv.from);
        let pf = ps.drop_first();
        assert(forall|j: int| 0 <= j < i - 1 ==> pf[j] == ps[j + 1]);
        lemma_upsert_at(pf, mv, stop, i - 1);
        assert(seq![ps.first()] + pf.update(i - 1, (mv.from, apply_message_v(ps[i].1, mv, stop)))
            =~= ps.update(i, (mv.from, apply_message_v(ps[i].1, mv, stop))));
    }
}

proof fn lemma_upsert_absent(ps: Seq<(Seq<char>, UserStatsV)>, mv: MsgV, stop: Set<Seq<char>>)
    requires
        forall|j: int| 0 <= j < ps.len() ==> ps[j].0 != mv.from,
    ensures
        upsert_v(ps, mv, stop) == ps.push((mv.from, apply_message_v(zero_stats_v(), mv, stop))),
    decreases ps.len(),
{
    if ps.len() == 0 {
        assert(upsert_v(ps, mv, stop) =~= ps.push(
            (mv.from, apply_message_v(zero_stats_v(), mv, stop)),
        ));
    } else {
        assert(forall|j: int|
            0 <= j < ps.drop_first().len() ==> ps.drop_first()[j] == ps[j + 1]);
        lemma_upsert_absent(ps.drop_first(), mv, stop);
        assert(seq![ps.first()] + ps.drop_first().push(
            (mv.from, apply_message_v(zero_stats_v(), mv, stop)),
        ) =~= ps.push((mv.from, apply_message_v(zero_stats_v(), mv, stop))));
    }
}

impl ChatStats {
    /// Well-formed: see `chat_wf_v`.
    pub open spec fn wf(&self) -> bool {
        chat_wf_v(self@)
    }

    /// Empty statistics under the given settings.
    pub fn new(settings: StatsSettings) -> (r: ChatStats)
        ensures
            r.wf(),
            r@.messages == 0,
            r@.service_messages == 0,
            r@.edited == 0,
            r@.participants == Seq::<(Seq<char>, UserStatsV)>::empty(),
            r@.text_entity_types == Seq::<(Seq<char>, u64)>::empty(),
            r.settings == settings,
    {
        let r = ChatStats {
            messages: 0,
            service_messages: 0,
            edited: 0,
            participants: Vec::new(),
            text_entity_types: CountMap::new(),
            settings,
        };
        proof {
            assert(r@.participants =~= Seq::<(Seq<char>, UserStatsV)>::empty());
        }
        r
    }

    /// Tallies each entity's kind into the histogram.
    pub fn count_entities(&mut self, entities: &Vec<TextEntity>)
        requires
            old(self).wf(),
        ensures
            final(self).wf(),
            final(self)@ == (ChatStatsV {
                text_entity_types: add_entities_v(
                    old(self)@.text_entity_types,
                    seq_views(entities@),
                ),
                ..old(self)@
            }),
            final(self).settings == old(self).settings,
    {
        let ghost es = seq_views(entities@);
        let ghost t0 = self.text_entity_types.view_seq();
        let n = entities.len();
        let mut i: usize = 0;
        proof {
            assert(es.take(0) =~= Seq::<EntityV>::empty());
        }
        while i < n
            invariant
                0 <= i <= n,
                n == entities@.len(),
                es == seq_views(entities@),
                t0 == old(self)@.text_entity_types,
                self.text_entity_types.wf(),
                self.text_entity_types.view_seq() == add_entities_v(t0, es.take(i as int)),
                self.messages == old(self).messages,
                self.service_messages == old(self).service_messages,
                self.edited == old(self).edited,
                self.participants == old(self).participants,
                self.settings == old(self).settings,
            decreases n - i,
        {
            proof {
                assert(es.take(i + 1) =~= es.take(i as int).push(es[i as int]));
                lemma_add_entities_push(t0, es.take(i as int), es[i as int]);
                assert(es[i as int].entity_type == entities@[i as int].entity_type@);
            }
            self.text_entity_types.bump(&entities[i].entity_type, 1);
            i = i + 1;
        }
        proof {
            assert(es.take(n as int) =~= es);
        }
    }

    /// Analyzes a record sequence in order, accumulating onto the current
    /// statistics; see `analyze_step_v`. Total over any record sequence:
    /// malformed optional fields degrade to absent values.
    pub fn analyze(&mut self, messages: Vec<RawMessage>, stop: &StopWordSet)
        requires
            old(self).wf(),
        ensures
            final(self).wf(),
            final(self)@ == analyze_v(old(self)@, messages@, stop@),
            final(self).settings == old(self).settings,
    {
        let ghost orig = messages@;
        let mut rest = messages;
        let mut i: usize = 0;
        let n = rest.len();
        proof {
            assert(orig.take(0) =~= Seq::<RawMessage>::empty());
            assert(orig.skip(0) =~= orig);
        }
        while i < n
            invariant
                0 <= i <= n,
                n == orig.len(),
                rest@ == orig.skip(i as int),
                self.wf(),
                self@ == analyze_v(old(self)@, orig.take(i as int), stop@),
                self.settings == old(self).settings,
            decreases n - i,
        {
            let ghost before = self@;
            let m = rest.remove(0);
            proof {
                assert(m == orig[i as int]);
                assert(rest@ =~= orig.skip(i + 1));
                assert(orig.take(i + 1) =~= orig.take(i as int).push(orig[i as int]));
                lemma_analyze_push(old(self)@, orig.take(i as int), orig[i as int], stop@);
            }
            self.step(m, stop);
            i = i + 1;
        }
        proof {
            assert(orig.take(n as int) =~= orig);
        }
    }

    /// Applies one record to the statistics, exactly `analyze_step_v`.
    fn step(&mut self, m: RawMessage, stop: &StopWordSet)
        requires
            old(self).wf(),
        ensures
            final(self).wf(),
            final(self)@ == analyze_step_v(old(self)@, m, stop@),
            final(self).settings == old(self).settings,
    {
        match &m {
            RawMessage::Service { text_entities, .. } => {
                self.service_messages = add_capped(self.service_messages, 1);
                proof {
                    assert(self@.participants == old(self)@.participants);
                    assert(self@.text_entity_types == old(self)@.text_entity_types);
                    assert(self.wf());
                }
                self.count_entities(text_entities);
                return ;
            },
            RawMessage::Message { .. } => {},
        }
        let normalized = m.message();
        match normalized {
            Option::None => {
                proof {
                    assert(false);
                }
            },
            Option::Some(p) => {
                let (_id, nm) = p;
                let ghost mv = nm@;
                self.messages = add_capped(self.messages, 1);
                if nm.edited.is_some() {
                    self.edited = add_capped(self.edited, 1);
                }
                proof {
                    assert(self@.participants == old(self)@.participants);
                    assert(self@.text_entity_types == old(self)@.text_entity_types);
                    assert(self.wf());
                }
                self.count_entities(&nm.text_entities);
                self.record_participant(nm, stop);
            },
        }
    }

    /// Updates the sender's statistics with one normalized message, exactly
    /// `upsert_v` on the participant table.
    fn record_participant(&mut self, nm: NormalizedMessage, stop: &StopWordSet)
        requires
            old(self).wf(),
        ensures
            final(self).wf(),
            final(self)@ == (ChatStatsV {
                participants: upsert_v(old(self)@.participants, nm@, stop@),
                ..old(self)@
            }),
            final(self).settings == old(self).settings,
    {
        let ghost ps = self@.participants;
        let ghost mv = nm@;
        let n = self.participants.len();
        let mut i: usize = 0;
        while i < n
            invariant
                0 <= i <= n,
                n == self.participants.len(),
                self == old(self),
                ps == self@.participants,
                mv == nm@,
                self.wf(),
                forall|j: int| 0 <= j < i ==> ps[j].0 != mv.from,
            decreases n - i,
        {
            if self.participants[i].0 == nm.from {
                let mut slot: (String, UserStats) = (String::new(), UserStats::new());
                self.participants.set_and_swap(i, &mut slot);
                let ghost u0 = slot.1@;
                proof {
                    assert(u0 == ps[i as int].1);
                    assert(stats_wf_v(u0));
                }
                slot.1.add_message(&nm.text, stop, nm.date);
                slot.1.add_reactions(&nm.reactions);
                proof {
                    assert(slot.1@ == apply_message_v(u0, mv, stop@));
                }
                self.participants.set_and_swap(i, &mut slot);
                proof {
                    lemma_upsert_at(ps, mv, stop@, i as int);
                    assert(self@.participants =~= upsert_v(ps, mv, stop@));
                    assert(self@ == (ChatStatsV {
                        participants: upsert_v(old(self)@.participants, nm@, stop@),
                        ..old(self)@
                    }));
                    assert(forall|j: int|
                        0 <= j < self@.participants.len() && j != i ==> self@.participants[j]
                            == ps[j]);
                    assert(chat_wf_v(self@));
                }
                return ;
            }
            i = i + 1;
        }
        let NormalizedMessage { date, from, text, reactions, .. } = nm;
        let mut u = UserStats::new();
        u.add_message(&text, stop, date);
        u.add_reactions(&reactions);
        proof {
            assert(u@ == apply_message_v(zero_stats_v(), mv, stop@));
        }
        self.participants.push((from, u));
        proof {
            lemma_upsert_absent(ps, mv, stop@);
            assert(self@.participants =~= upsert_v(ps, mv, stop@));
            assert(self@ == (ChatStatsV {
                participants: upsert_v(old(self)@.participants, nm@, stop@),
                ..old(self)@
            }));
            assert(forall|j: int|
                0 <= j < ps.len() ==> self@.participants[j] == ps[j]);
            assert(chat_wf_v(self@));
        }
    }

    /// The combine-reduction of all participants' statistics, from the
    /// zero-valued identity in table order.
    pub fn combined(&self) -> (r: UserStats)
        requires
            self.wf(),
        ensures
            r.wf(),
            r@ == combined_all_v(self@.participants),
    {
        let mut acc = UserStats::new();
        let n = self.participants.len();
        let mut i: usize = 0;
        proof {
            assert(self@.participants.take(0) =~= Seq::<(Seq<char>, UserStatsV)>::empty());
        }
        while i < n
            invariant
                0 <= i <= n,
                n == self.participants.len(),
                self.wf(),
                acc.wf(),
                acc@ == combined_all_v(self@.participants.take(i as int)),
            decreases n - i,
        {
            proof {
                assert(self@.participants.take(i + 1).drop_last() =~= self@.participants.take(
                    i as int,
                ));
                assert(self@.participants.take(i + 1).last() == self@.participants[i as int]);
                assert(stats_wf_v(self@.participants[i as int].1));
            }
            acc = acc.combine(&self.participants[i].1);
            i = i + 1;
        }
        proof {
            assert(self@.participants.take(n as int) =~= self@.participants);
        }
        acc
    }
}

/// The left-to-right combine-reduction over a participant table, starting
/// from the zero-valued statistics.
pub open spec fn combined_all_v(ps: Seq<(Seq<char>, UserStatsV)>) -> UserStatsV
    decreases ps.len(),
{
    if ps.len() == 0 {
        zero_stats_v()
    } else {
        combined_v(combined_all_v(ps.drop_last()), ps.last().1)
    }
}

} // verus!
