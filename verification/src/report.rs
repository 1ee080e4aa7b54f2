//! The report renderer: a formatted textual summary of chat-wide statistics
//! with a combined block, ranked participants, and an entity histogram.

use vstd::prelude::*;

use crate::counts::{kcs, sort_desc, sort_entries_desc, CountMap};
use crate::stats::{
    avg_chars_v, combined_all_v, ChatStats, ChatStatsV, StatsSettings, UserStats, UserStatsV,
};
use crate::util::{add_capped, dec_str, push_char, sat_add, u64_to_string};

verus! {

/// The total of all counts in a table, saturating.
pub open spec fn sum_counts(t: Seq<(Seq<char>, u64)>) -> u64
    decreases t.len(),
{
    if t.len() == 0 {
        0
    } else {
        sat_add(sum_counts(t.drop_last()), t.last().1)
    }
}

/// Sums the counts of a table, exactly `sum_counts`.
pub fn table_total(t: &CountMap) -> (r: u64)
    ensures
        r == sum_counts(t.view_seq()),
{
    let ghost tv = t.view_seq();
    let n = t.entries.len();
    let mut acc: u64 = 0;
    let mut i: usize = 0;
    proof {
        assert(sum_counts(tv.take(0)) == 0) by {
            assert(tv.take(0) =~= Seq::<(Seq<char>, u64)>::empty());
        }
    }
    while i < n
        invariant
            0 <= i <= n,
            n == t.entries.len(),
            tv == t.view_seq(),
            acc == sum_counts(tv.take(i as int)),
        decreases n - i,
    {
        proof {
            assert(tv.take(i + 1).drop_last() =~= tv.take(i as int));
            assert(tv.take(i + 1).last() == tv[i as int]);
        }
        acc = add_capped(acc, t.entries[i].1);
        i = i + 1;
    }
    proof {
        assert(tv.take(n as int) =~= tv);
    }
    acc
}

/// One reaction entry as shown: the key, a multiplication sign, the count.
pub open spec fn rx_item_t(e: (Seq<char>, u64)) -> Seq<char> {
    e.0 + "\u{d7}"@ + dec_str(e.1 as nat)
}

/// Reaction entries joined by a comma and a space.
pub open spec fn rx_join_t(s: Seq<(Seq<char>, u64)>) -> Seq<char>
    decreases s.len(),
{
    if s.len() == 0 {
        Seq::empty()
    } else if s.len() == 1 {
        rx_item_t(s.first())
    } else {
        rx_join_t(s.drop_last()) + ", "@ + rx_item_t(s.last())
    }
}

/// One word entry as shown: the word, then its count in parentheses.
pub open spec fn word_item_t(e: (Seq<char>, u64)) -> Seq<char> {
    e.0 + " ("@ + dec_str(e.1 as nat) + ")"@
}

/// Word entries joined by a comma and a space.
pub open spec fn word_join_t(s: Seq<(Seq<char>, u64)>) -> Seq<char>
    decreases s.len(),
{
    if s.len() == 0 {
        Seq::empty()
    } else if s.len() == 1 {
        word_item_t(s.first())
    } else {
        word_join_t(s.drop_last()) + ", "@ + word_item_t(s.last())
    }
}

/// The first `m` entries of a sorted run, or all of them when fewer.
pub open spec fn take_n(s: Seq<(Seq<char>, u64)>, m: usize) -> Seq<(Seq<char>, u64)> {
    if m <= s.len() {
        s.subrange(0, m as int)
    } else {
        s
    }
}

/// An absent or present formatted date agrees with the timestamp it renders.
pub open spec fn dates_match(d: Option<Seq<char>>, ts: Option<u64>) -> bool {
    d is Some <==> ts is Some
}

/// The view of an optional string.
pub open spec fn opt_view(o: Option<String>) -> Option<Seq<char>> {
    match o {
        Option::Some(s) => Option::Some(s@),
        Option::None => Option::None,
    }
}

/// The per-user block: message count, integer average length, longest
/// message, first/last date lines when present, reactions sorted by
/// descending count, and the most frequent words; empty sub-lists collapse,
/// and an empty participant shows only a placeholder line.
pub open spec fn user_block_t(
    u: UserStatsV,
    first_s: Option<Seq<char>>,
    last_s: Option<Seq<char>>,
    max_words: usize,
) -> Seq<char> {
    if u.count == 0 {
        "- No messages"@
    } else {
        "- Messages       : "@ + dec_str(u.count as nat) + "\n"@ + "- Avg. length    : "@
            + dec_str(avg_chars_v(u) as nat) + " chars\n"@ + "- Longest message: "@ + dec_str(
            u.max_chars as nat,
        ) + " chars\n"@ + (match first_s {
            Option::Some(d) => "- First message  : "@ + d + "\n"@,
            Option::None => Seq::<char>::empty(),
        }) + (match last_s {
            Option::Some(d) => "- Last message   : "@ + d + "\n"@,
            Option::None => Seq::<char>::empty(),
        }) + (if u.received_reactions.len() == 0 {
            Seq::<char>::empty()
        } else {
            "- Reactions      : "@ + rx_join_t(sort_desc(u.received_reactions)) + "\n"@
        }) + (if take_n(sort_desc(u.words), max_words).len() == 0 {
            Seq::<char>::empty()
        } else {
            "- Top words      : "@ + word_join_t(take_n(sort_desc(u.words), max_words)) + "\n"@
        })
    }
}

fn append_rx_join(out: &mut String, sorted: &Vec<(String, u64)>)
    ensures
        final(out)@ == old(out)@ + rx_join_t(kcs(sorted@)),
{
    let ghost sv = kcs(sorted@);
    let ghost start = out@;
    let n = sorted.len();
    let mut i: usize = 0;
    proof {
        assert(rx_join_t(sv.take(0)) =~= Seq::<char>::empty());
        assert(out@ =~= start + rx_join_t(sv.take(0)));
    }
    while i < n
        invariant
            0 <= i <= n,
            n == sorted@.len(),
            sv == kcs(sorted@),
            start == old(out)@,
            out@ == start + rx_join_t(sv.take(i as int)),
        decreases n - i,
    {
        let ghost before = out@;
        if i > 0 {
            out.append(", ");
        }
        out.append(sorted[i].0.as_str());
        out.append("\u{d7}");
        out.append(u64_to_string(sorted[i].1).as_str());
        proof {
            assert(sv.take(i + 1).drop_last() =~= sv.take(i as int));
            assert(sv.take(i + 1).last() == sv[i as int]);
            if i == 0 {
                assert(sv.take(1).first() == sv[0]);
                assert(out@ =~= start + rx_item_t(sv[0]));
            } else {
                assert(out@ =~= before + ", "@ + rx_item_t(sv[i as int]));
            }
        }
        i = i + 1;
    }
    proof {
        assert(sv.take(n as int) =~= sv);
    }
}

fn append_word_join(out: &mut String, sorted: &Vec<(String, u64)>)
    ensures
        final(out)@ == old(out)@ + word_join_t(kcs(sorted@)),
{
    let ghost sv = kcs(sorted@);
    let ghost start = out@;
    let n = sorted.len();
    let mut i: usize = 0;
    proof {
        assert(word_join_t(sv.take(0)) =~= Seq::<char>::empty());
        assert(out@ =~= start + word_join_t(sv.take(0)));
    }
    while i < n
        invariant
            0 <= i <= n,
            n == sorted@.len(),
            sv == kcs(sorted@),
            start == old(out)@,
            out@ == start + word_join_t(sv.take(i as int)),
        decreases n - i,
    {
        let ghost before = out@;
        if i > 0 {
            out.append(", ");
        }
        out.append(sorted[i].0.as_str());
        out.append(" (");
        out.append(u64_to_string(sorted[i].1).as_str());
        out.append(")");
        proof {
            assert(sv.take(i + 1).drop_last() =~= sv.take(i as int));
            assert(sv.take(i + 1).last() == sv[i as int]);
            if i == 0 {
                assert(sv.take(1).first() == sv[0]);
                assert(out@ =~= start + word_item_t(sv[0]));
            } else {
                assert(out@ =~= before + ", "@ + word_item_t(sv[i as int]));
            }
        }
        i = i + 1;
    }
    proof {
        assert(sv.take(n as int) =~= sv);
    }
}

/// Renders the per-user block from statistics and pre-formatted date lines,
/// exactly `user_block_t`.
#[verifier::rlimit(100)]
pub fn user_block(
    u: &UserStats,
    first_s: Option<String>,
    last_s: Option<String>,
    max_words: usize,
) -> (r: String)
    ensures
        r@ == user_block_t(u@, opt_view(first_s), opt_view(last_s), max_words),
{
    let mut out = String::new();
    if u.count == 0 {
        out.append("- No messages");
        return out;
    }
    out.append("- Messages       : ");
    out.append(u64_to_string(u.count).as_str());
    out.append("\n");
    out.append("- Avg. length    : ");
    out.append(u64_to_string(u.avg_chars()).as_str());
    out.append(" chars\n");
    out.append("- Longest message: ");
    out.append(u64_to_string(u.max_chars).as_str());
    out.append(" chars\n");
    match &first_s {
        Option::Some(d) => {
            out.append("- First message  : ");
            out.append(d.as_str());
            out.append("\n");
        },
        Option::None => {},
    }
    match &last_s {
        Option::Some(d) => {
            out.append("- Last message   : ");
            out.append(d.as_str());
            out.append("\n");
        },
        Option::None => {},
    }
    let ghost mid = out@;
    let sorted_rx = sort_entries_desc(&u.received_reactions.entries);
    if sorted_rx.len() > 0 {
        out.append("- Reactions      : ");
        append_rx_join(&mut out, &sorted_rx);
        out.append("\n");
        proof {
            assert(u@.received_reactions.len() > 0);
            assert(out@ =~= mid + ("- Reactions      : "@ + rx_join_t(
                sort_desc(u@.received_reactions),
            ) + "\n"@));
        }
    } else {
        proof {
            assert(u@.received_reactions.len() == 0) by {
                assert(kcs(sorted_rx@).len() == sort_desc(u@.received_reactions).len());
            }
        }
    }
    let ghost mid2 = out@;
    let mut sorted_w = sort_entries_desc(&u.words.entries);
    let ghost full_w = kcs(sorted_w@);
    sorted_w.truncate(max_words);
    proof {
        if max_words <= full_w.len() {
            assert(kcs(sorted_w@) =~= full_w.subrange(0, max_words as int));
        }
        assert(kcs(sorted_w@) == take_n(sort_desc(u@.words), max_words));
    }
    if sorted_w.len() > 0 {
        out.append("- Top words      : ");
        append_word_join(&mut out, &sorted_w);
        out.append("\n");
        proof {
            assert(take_n(sort_desc(u@.words), max_words).len() > 0);
            assert(out@ =~= mid2 + ("- Top words      : "@ + word_join_t(
                take_n(sort_desc(u@.words), max_words),
            ) + "\n"@));
        }
    } else {
        proof {
            assert(take_n(sort_desc(u@.words), max_words).len() == 0);
        }
    }
    proof {
        assert(out@ =~= user_block_t(u@, opt_view(first_s), opt_view(last_s), max_words));
    }
    out
}

/// Relies on `chrono`: renders unix-epoch seconds as a local calendar
/// date-time, `%Y-%m-%d %H:%M:%S`. The result depends on the machine's time
/// zone, so nothing is claimed of it; an out-of-range timestamp renders
/// empty.
#[verifier::external_body]
fn format_local_datetime(secs: u64) -> String {
    if secs > i64::MAX as u64 {
        return String::new();
    }
    match chrono::DateTime::from_timestamp(secs as i64, 0) {
        Some(dt) => dt.with_timezone(&chrono::Local).format("%Y-%m-%d %H:%M:%S").to_string(),
        None => String::new(),
    }
}

/// The integer percentage `100 * part / whole`, zero when the whole is zero.
pub open spec fn percent_of(part: u64, whole: u64) -> int {
    if whole == 0 {
        0
    } else {
        100 * (part as int) / (whole as int)
    }
}

fn percent(part: u64, whole: u64) -> (r: u64)
    requires
        part <= whole,
    ensures
        r == percent_of(part, whole),
{
    if whole == 0 {
        0
    } else {
        let p = (100u128 * (part as u128)) / (whole as u128);
        proof {
            assert(p <= 100) by (nonlinear_arith)
                requires
                    part <= whole,
                    whole > 0,
                    p == (100 * (part as int)) / (whole as int),
            {}
        }
        p as u64
    }
}

/// A name padded on the right with spaces to the given width.
pub open spec fn pad_right(s: Seq<char>, w: int) -> Seq<char> {
    if s.len() >= w {
        s
    } else {
        s + Seq::new((w - s.len()) as nat, |i: int| ' ')
    }
}

/// A number padded on the left with spaces to the given width.
pub open spec fn pad_left(s: Seq<char>, w: int) -> Seq<char> {
    if s.len() >= w {
        s
    } else {
        Seq::new((w - s.len()) as nat, |i: int| ' ') + s
    }
}

fn append_padded_name(out: &mut String, name: &String, w: usize)
    ensures
        final(out)@ == old(out)@ + pad_right(name@, w as int),
{
    let ghost start = out@;
    out.append(name.as_str());
    let len = name.as_str().unicode_len();
    let mut i: usize = len;
    while i < w
        invariant
            len <= i || i == len,
            i <= w || len >= w,
            len == name@.len(),
            len <= i,
            i <= (if len >= w { len } else { w }),
            start == old(out)@,
            out@ == start + name@ + Seq::new((i - len) as nat, |j: int| ' '),
        decreases w - i,
    {
        let ghost prev = out@;
        push_char(out, ' ');
        proof {
            assert(out@ =~= start + name@ + Seq::new((i + 1 - len) as nat, |j: int| ' '));
        }
        i = i + 1;
    }
    proof {
        if len >= w {
            assert(out@ =~= start + pad_right(name@, w as int));
        } else {
            assert(i == w);
            assert(out@ =~= start + pad_right(name@, w as int));
        }
    }
}

fn append_padded_count(out: &mut String, count: u64, w: usize)
    ensures
        final(out)@ == old(out)@ + pad_left(dec_str(count as nat), w as int),
{
    let ghost start = out@;
    let digits = u64_to_string(count);
    let len = digits.as_str().unicode_len();
    let mut i: usize = len;
    while i < w
        invariant
            len == dec_str(count as nat).len(),
            len <= i,
            i <= (if len >= w { len } else { w }),
            start == old(out)@,
            out@ == start + Seq::new((i - len) as nat, |j: int| ' '),
        decreases w - i,
    {
        let ghost prev = out@;
        push_char(out, ' ');
        proof {
            assert(out@ =~= start + Seq::new((i + 1 - len) as nat, |j: int| ' '));
        }
        i = i + 1;
    }
    out.append(digits.as_str());
    proof {
        if len >= w {
            assert(out@ =~= start + pad_left(dec_str(count as nat), w as int));
        } else {
            assert(out@ =~= start + pad_left(dec_str(count as nat), w as int));
        }
    }
}

/// One histogram line: the padded entity kind and its right-aligned count.
pub open spec fn entity_line_t(e: (Seq<char>, u64)) -> Seq<char> {
    "- "@ + pad_right(e.0, 15) + ": "@ + pad_left(dec_str(e.1 as nat), 4) + "\n"@
}

/// All histogram lines in order.
pub open spec fn entity_lines_t(s: Seq<(Seq<char>, u64)>) -> Seq<char>
    decreases s.len(),
{
    if s.len() == 0 {
        Seq::empty()
    } else {
        entity_lines_t(s.drop_last()) + entity_line_t(s.last())
    }
}

/// The names and message counts of the participant table, in table order.
pub open spec fn name_counts(ps: Seq<(Seq<char>, UserStatsV)>) -> Seq<(Seq<char>, u64)> {
    Seq::new(ps.len(), |i: int| (ps[i].0, ps[i].1.count))
}

/// The statistics recorded under a name, scanned in table order; zero-valued
/// when the name is absent.
pub open spec fn stats_of(ps: Seq<(Seq<char>, UserStatsV)>, name: Seq<char>) -> UserStatsV
    decreases ps.len(),
{
    if ps.len() == 0 {
        crate::stats::zero_stats_v()
    } else if ps.first().0 == name {
        ps.first().1
    } else {
        stats_of(ps.drop_first(), name)
    }
}

proof fn lemma_stats_of_at(ps: Seq<(Seq<char>, UserStatsV)>, i: int)
    requires
        0 <= i < ps.len(),
        forall|j: int| 0 <= j < i ==> ps[j].0 != ps[i].0,
    ensures
        stats_of(ps, ps[i].0) == ps[i].1,
    decreases i,
{
    if i > 0 {
        let pf = ps.drop_first();
        assert(forall|j: int| 0 <= j < i - 1 ==> pf[j] == ps[j + 1]);
        lemma_stats_of_at(pf, i - 1);
    }
}

/// Every participant's character total is bounded by the combined total.
pub proof fn lemma_total_le(ps: Seq<(Seq<char>, UserStatsV)>, i: int)
    requires
        0 <= i < ps.len(),
    ensures
        ps[i].1.total_chars <= combined_all_v(ps).total_chars,
    decreases ps.len(),
{
    if i == ps.len() - 1 {
        assert(ps.last() == ps[i]);
    } else {
        assert(ps.drop_last()[i] == ps[i]);
        lemma_total_le(ps.drop_last(), i);
    }
}

/// The formatted first/last date lines chosen for each rendered block: the
/// combined block first, then one pair per shown participant.
pub type DateLines = Seq<(Option<Seq<char>>, Option<Seq<char>>)>;

/// The report header: total, regular, service, and edited message counts,
/// and the total reaction count over the combined reaction table.
pub open spec fn header_t(c: ChatStatsV) -> Seq<char> {
    "Chat Statistics Summary\n=========================\n"@ + "Total messages   : "@ + dec_str(
        sat_add(c.messages, c.service_messages) as nat,
    ) + "\n"@ + "Regular messages : "@ + dec_str(c.messages as nat) + "\n"@
        + "Service messages : "@ + dec_str(c.service_messages as nat) + "\n"@
        + "Edited messages  : "@ + dec_str(c.edited as nat) + "\n"@ + "Total reactions  : "@
        + dec_str(sum_counts(combined_all_v(c.participants).received_reactions) as nat) + "\n"@
}

/// The combined block: the combine-reduction of all participants, rendered
/// as a per-user block; absent when no messages were counted.
pub open spec fn combined_section_t(
    c: ChatStatsV,
    max_words: usize,
    d0: (Option<Seq<char>>, Option<Seq<char>>),
) -> Seq<char> {
    let comb = combined_all_v(c.participants);
    if comb.count > 0 {
        "\nCombined Participant Stats:\n"@ + user_block_t(comb, d0.0, d0.1, max_words)
    } else {
        Seq::empty()
    }
}

/// How many participants the top-participants section shows.
pub open spec fn shown_of(c: ChatStatsV, max_participants: usize) -> int {
    if max_participants <= c.participants.len() {
        max_participants as int
    } else {
        c.participants.len() as int
    }
}

/// The block of the participant ranked `k`: rank, name, percentage share of
/// the combined character total, and the per-user block.
pub open spec fn part_block_t(c: ChatStatsV, max_words: usize, k: int, ds: DateLines) -> Seq<
    char,
> {
    let sorted = sort_desc(name_counts(c.participants));
    let name = sorted[k].0;
    let u = stats_of(c.participants, name);
    "\n"@ + dec_str((k + 1) as nat) + ". "@ + name + "  (Character share: "@ + dec_str(
        percent_of(u.total_chars, combined_all_v(c.participants).total_chars) as nat,
    ) + "%)\n"@ + user_block_t(u, ds[k + 1].0, ds[k + 1].1, max_words)
}

/// The first `k` ranked participant blocks, in order.
pub open spec fn part_blocks_t(c: ChatStatsV, max_words: usize, ds: DateLines, k: int) -> Seq<
    char,
>
    decreases k,
{
    if k <= 0 {
        Seq::empty()
    } else {
        part_blocks_t(c, max_words, ds, k - 1) + part_block_t(c, max_words, k - 1, ds)
    }
}

/// The top-participants section: participants sorted by descending message
/// count (ties in table order), truncated, with a trailer counting the
/// omitted ones; absent when there are no participants.
pub open spec fn participants_section_t(
    c: ChatStatsV,
    max_words: usize,
    max_participants: usize,
    ds: DateLines,
) -> Seq<char> {
    if c.participants.len() == 0 {
        Seq::empty()
    } else {
        "\nTop Participants ("@ + dec_str(c.participants.len() as nat) + "):\n"@ + part_blocks_t(
            c,
            max_words,
            ds,
            shown_of(c, max_participants),
        ) + (if c.participants.len() > max_participants {
            "... and "@ + dec_str((c.participants.len() - max_participants) as nat) + " more\n"@
        } else {
            Seq::<char>::empty()
        })
    }
}

/// The entity histogram section: kinds sorted by descending count as a
/// fixed-width list; absent when disabled or empty.
pub open spec fn entity_section_t(c: ChatStatsV, show: bool) -> Seq<char> {
    if show && c.text_entity_types.len() > 0 {
        "\nText Entity Types ("@ + dec_str(c.text_entity_types.len() as nat) + "):\n"@
            + entity_lines_t(sort_desc(c.text_entity_types))
    } else {
        Seq::empty()
    }
}

/// The whole report: header, combined block, ranked participants, entity
/// histogram.
pub open spec fn report_t(c: ChatStatsV, st: StatsSettings, ds: DateLines) -> Seq<char> {
    header_t(c) + combined_section_t(c, st.max_words, ds[0]) + participants_section_t(
        c,
        st.max_words,
        st.max_participants,
        ds,
    ) + entity_section_t(c, st.show_entities)
}

/// The chosen date lines fit the statistics: one pair for the combined block
/// and one per shown participant, each present exactly when the
/// corresponding timestamp is.
pub open spec fn report_dates_ok(ds: DateLines, c: ChatStatsV, max_participants: usize) -> bool {
    let comb = combined_all_v(c.participants);
    let sorted = sort_desc(name_counts(c.participants));
    &&& ds.len() == 1 + shown_of(c, max_participants)
    &&& dates_match(ds[0].0, comb.first_message)
    &&& dates_match(ds[0].1, comb.last_message)
    &&& forall|k: int|
        0 <= k < shown_of(c, max_participants) ==> dates_match(
            #[trigger] ds[k + 1].0,
            stats_of(c.participants, sorted[k].0).first_message,
        ) && dates_match(ds[k + 1].1, stats_of(c.participants, sorted[k].0).last_message)
}

fn append_entity_lines(out: &mut String, sorted: &Vec<(String, u64)>)
    ensures
        final(out)@ == old(out)@ + entity_lines_t(kcs(sorted@)),
{
    let ghost sv = kcs(sorted@);
    let ghost start = out@;
    let n = sorted.len();
    let mut i: usize = 0;
    proof {
        assert(entity_lines_t(sv.take(0)) =~= Seq::<char>::empty());
        assert(out@ =~= start + entity_lines_t(sv.take(0)));
    }
    while i < n
        invariant
            0 <= i <= n,
            n == sorted@.len(),
            sv == kcs(sorted@),
            start == old(out)@,
            out@ == start + entity_lines_t(sv.take(i as int)),
        decreases n - i,
    {
        let ghost before = out@;
        out.append("- ");
        append_padded_name(out, &sorted[i].0, 15);
        out.append(": ");
        append_padded_count(out, sorted[i].1, 4);
        out.append("\n");
        proof {
            assert(sv.take(i + 1).drop_last() =~= sv.take(i as int));
            assert(sv.take(i + 1).last() == sv[i as int]);
            assert(out@ =~= before + entity_line_t(sv[i as int]));
        }
        i = i + 1;
    }
    proof {
        assert(sv.take(n as int) =~= sv);
    }
}

impl ChatStats {
    /// Renders one participant's block, formatting the first and last
    /// timestamps as local calendar date-times.
    pub fn display_user_stats(&self, stats: &UserStats) -> (r: String)
        ensures
            exists|f: Option<Seq<char>>, l: Option<Seq<char>>|
                dates_match(f, stats@.first_message) && dates_match(l, stats@.last_message)
                    && r@ == user_block_t(stats@, f, l, self.settings.max_words),
    {
        let fs = match stats.first_message {
            Option::Some(t) => Option::Some(format_local_datetime(t)),
            Option::None => Option::None,
        };
        let ls = match stats.last_message {
            Option::Some(t) => Option::Some(format_local_datetime(t)),
            Option::None => Option::None,
        };
        let ghost fv = opt_view(fs);
        let ghost lv = opt_view(ls);
        let r = user_block(stats, fs, ls, self.settings.max_words);
        proof {
            assert(dates_match(fv, stats@.first_message) && dates_match(lv, stats@.last_message)
                && r@ == user_block_t(stats@, fv, lv, self.settings.max_words));
        }
        r
    }

    fn stats_for<'a>(&'a self, name: &String) -> (r: &'a UserStats)
        requires
            self.wf(),
            exists|i: int|
                0 <= i < self@.participants.len() && #[trigger] self@.participants[i].0 == name@,
        ensures
            r@ == stats_of(self@.participants, name@),
    {
        let ghost ps = self@.participants;
        let n = self.participants.len();
        let mut i: usize = 0;
        while i < n
            invariant
                0 <= i <= n,
                n == self.participants.len(),
                ps == self@.participants,
                self.wf(),
                exists|j: int| 0 <= j < ps.len() && #[trigger] ps[j].0 == name@,
                forall|j: int| 0 <= j < i ==> ps[j].0 != name@,
            decreases n - i,
        {
            if self.participants[i].0 == *name {
                proof {
                    lemma_stats_of_at(ps, i as int);
                }
                return &self.participants[i].1;
            }
            i = i + 1;
        }
        proof {
            assert(false);
        }
        unreached()
    }

    /// The names and message counts of all participants, in table order.
    fn name_count_pairs(&self) -> (r: Vec<(String, u64)>)
        ensures
            kcs(r@) == name_counts(self@.participants),
    {
        let n = self.participants.len();
        let mut out: Vec<(String, u64)> = Vec::new();
        let mut i: usize = 0;
        while i < n
            invariant
                0 <= i <= n,
                n == self.participants.len(),
                kcs(out@) =~= name_counts(self@.participants).take(i as int),
            decreases n - i,
        {
            let name = self.participants[i].0.clone();
            let count = self.participants[i].1.count;
            let ghost before = kcs(out@);
            out.push((name, count));
            proof {
                assert(kcs(out@) =~= before.push((self.participants@[i as int].0@, count)));
                assert(name_counts(self@.participants).take(i + 1) =~= name_counts(
                    self@.participants,
                ).take(i as int).push(name_counts(self@.participants)[i as int]));
                assert(name_counts(self@.participants)[i as int] == (
                    self.participants@[i as int].0@,
                    count,
                ));
            }
            i = i + 1;
        }
        proof {
            assert(name_counts(self@.participants).take(n as int) =~= name_counts(
                self@.participants,
            ));
            assert(kcs(out@) =~= name_counts(self@.participants));
        }
        out
    }

    fn render_header(&self, comb: &UserStats) -> (r: String)
        requires
            comb@ == combined_all_v(self@.participants),
        ensures
            r@ == header_t(self@),
    {
        let rx_total = table_total(&comb.received_reactions);
        let mut out = String::new();
        out.append("Chat Statistics Summary\n=========================\n");
        out.append("Total messages   : ");
        out.append(u64_to_string(add_capped(self.messages, self.service_messages)).as_str());
        out.append("\n");
        out.append("Regular messages : ");
        out.append(u64_to_string(self.messages).as_str());
        out.append("\n");
        out.append("Service messages : ");
        out.append(u64_to_string(self.service_messages).as_str());
        out.append("\n");
        out.append("Edited messages  : ");
        out.append(u64_to_string(self.edited).as_str());
        out.append("\n");
        out.append("Total reactions  : ");
        out.append(u64_to_string(rx_total).as_str());
        out.append("\n");
        proof {
            assert(out@ =~= header_t(self@));
        }
        out
    }

    fn collect_dates(&self, sorted: &Vec<(String, u64)>, shown: usize) -> (r: Vec<
        (Option<String>, Option<String>),
    >)
        requires
            self.wf(),
            kcs(sorted@) == sort_desc(name_counts(self@.participants)),
            kcs(sorted@).len() == self@.participants.len(),
            shown <= self@.participants.len(),
        ensures
            r@.len() == shown,
            forall|j: int|
                0 <= j < shown ==> dates_match(
                    opt_view(#[trigger] r@[j].0),
                    stats_of(self@.participants, kcs(sorted@)[j].0).first_message,
                ) && dates_match(
                    opt_view(r@[j].1),
                    stats_of(self@.participants, kcs(sorted@)[j].0).last_message,
                ),
    {
        let ghost c = self@;
        let ghost sn = kcs(sorted@);
        let mut dates: Vec<(Option<String>, Option<String>)> = Vec::new();
        let mut k: usize = 0;
        while k < shown
            invariant
                0 <= k <= shown,
                shown <= self@.participants.len(),
                c == self@,
                self.wf(),
                sn == sort_desc(name_counts(c.participants)),
                sn == kcs(sorted@),
                sn.len() == c.participants.len(),
                dates@.len() == k,
                forall|j: int|
                    0 <= j < k ==> dates_match(
                        opt_view(#[trigger] dates@[j].0),
                        stats_of(c.participants, sn[j].0).first_message,
                    ) && dates_match(
                        opt_view(dates@[j].1),
                        stats_of(c.participants, sn[j].0).last_message,
                    ),
            decreases shown - k,
        {
            proof {
                lemma_sort_has_names(name_counts(c.participants), k as int);
                assert(sn[k as int].0 == sorted@[k as int].0@);
                let i = choose|i: int|
                    0 <= i < name_counts(c.participants).len() && name_counts(c.participants)[i].0
                        == sort_desc(name_counts(c.participants))[k as int].0;
                assert(c.participants[i].0 == sorted@[k as int].0@);
            }
            let u = self.stats_for(&sorted[k].0);
            let fs = match u.first_message {
                Option::Some(t) => Option::Some(format_local_datetime(t)),
                Option::None => Option::None,
            };
            let ls = match u.last_message {
                Option::Some(t) => Option::Some(format_local_datetime(t)),
                Option::None => Option::None,
            };
            dates.push((fs, ls));
            k = k + 1;
        }
        dates
    }

    #[verifier::rlimit(100)]
    fn render_participants(
        &self,
        comb: &UserStats,
        sorted: &Vec<(String, u64)>,
        dates: &Vec<(Option<String>, Option<String>)>,
        Ghost(ds): Ghost<DateLines>,
    ) -> (r: String)
        requires
            self.wf(),
            comb@ == combined_all_v(self@.participants),
            kcs(sorted@) == sort_desc(name_counts(self@.participants)),
            kcs(sorted@).len() == self@.participants.len(),
            dates@.len() == shown_of(self@, self.settings.max_participants),
            ds.len() == 1 + dates@.len(),
            forall|j: int|
                0 <= j < dates@.len() ==> ds[j + 1] == (
                    opt_view(#[trigger] dates@[j].0),
                    opt_view(dates@[j].1),
                ),
        ensures
            r@ == participants_section_t(
                self@,
                self.settings.max_words,
                self.settings.max_participants,
                ds,
            ),
    {
        let ghost c = self@;
        let ghost sn = kcs(sorted@);
        let np = self.participants.len();
        let shown = dates.len();
        let mut out = String::new();
        if np == 0 {
            proof {
                assert(out@ =~= participants_section_t(
                    c,
                    self.settings.max_words,
                    self.settings.max_participants,
                    ds,
                ));
            }
            return out;
        }
        out.append("\nTop Participants (");
        out.append(u64_to_string(np as u64).as_str());
        out.append("):\n");
        let ghost sect_start = out@;
        proof {
            assert(sect_start =~= "\nTop Participants ("@ + dec_str(np as nat) + "):\n"@);
            assert(part_blocks_t(c, self.settings.max_words, ds, 0) =~= Seq::<char>::empty());
            assert(out@ =~= sect_start + part_blocks_t(c, self.settings.max_words, ds, 0));
        }
        let mut k: usize = 0;
        while k < shown
            invariant
                0 <= k <= shown,
                shown as int == shown_of(c, self.settings.max_participants),
                shown <= np,
                np == self.participants.len(),
                c == self@,
                self.wf(),
                sn == sort_desc(name_counts(c.participants)),
                sn == kcs(sorted@),
                sn.len() == np,
                comb@ == combined_all_v(c.participants),
                dates@.len() == shown,
                ds.len() == 1 + shown,
                sect_start == "\nTop Participants ("@ + dec_str(np as nat) + "):\n"@,
                forall|j: int|
                    0 <= j < shown ==> ds[j + 1] == (opt_view(#[trigger] dates@[j].0), opt_view(
                        dates@[j].1,
                    )),
                out@ == sect_start + part_blocks_t(c, self.settings.max_words, ds, k as int),
            decreases shown - k,
        {
            let ghost before = out@;
            proof {
                lemma_sort_has_names(name_counts(c.participants), k as int);
                assert(sn[k as int].0 == sorted@[k as int].0@);
                let i = choose|i: int|
                    0 <= i < name_counts(c.participants).len() && name_counts(
                        c.participants,
                    )[i].0 == sort_desc(name_counts(c.participants))[k as int].0;
                assert(c.participants[i].0 == sorted@[k as int].0@);
            }
            let u = self.stats_for(&sorted[k].0);
            proof {
                let i = choose|i: int|
                    0 <= i < c.participants.len() && #[trigger] c.participants[i].0
                        == sorted@[k as int].0@;
                assert(stats_of(c.participants, sn[k as int].0) == c.participants[i].1) by {
                    lemma_first_match(c.participants, i, sn[k as int].0);
                }
                lemma_total_le(c.participants, i);
            }
            out.append("\n");
            out.append(u64_to_string((k as u64) + 1).as_str());
            out.append(". ");
            out.append(sorted[k].0.as_str());
            out.append("  (Character share: ");
            out.append(u64_to_string(percent(u.total_chars, comb.total_chars)).as_str());
            out.append("%)\n");
            let fs = match &dates[k].0 {
                Option::Some(s) => Option::Some(s.clone()),
                Option::None => Option::None,
            };
            let ls = match &dates[k].1 {
                Option::Some(s) => Option::Some(s.clone()),
                Option::None => Option::None,
            };
            out.append(user_block(u, fs, ls, self.settings.max_words).as_str());
            proof {
                assert(out@ =~= before + part_block_t(c, self.settings.max_words, k as int, ds));
            }
            k = k + 1;
        }
        if np > self.settings.max_participants {
            out.append("... and ");
            out.append(u64_to_string((np - self.settings.max_participants) as u64).as_str());
            out.append(" more\n");
        }
        proof {
            assert(out@ =~= participants_section_t(
                c,
                self.settings.max_words,
                self.settings.max_participants,
                ds,
            ));
        }
        out
    }

    fn render_entities(&self) -> (r: String)
        ensures
            r@ == entity_section_t(self@, self.settings.show_entities),
    {
        let ghost c = self@;
        let mut out = String::new();
        if self.settings.show_entities && self.text_entity_types.entries.len() > 0 {
            out.append("\nText Entity Types (");
            out.append(u64_to_string(self.text_entity_types.entries.len() as u64).as_str());
            out.append("):\n");
            let sorted_e = sort_entries_desc(&self.text_entity_types.entries);
            append_entity_lines(&mut out, &sorted_e);
            proof {
                assert(c.text_entity_types.len() == self.text_entity_types.entries@.len());
                assert(out@ =~= entity_section_t(c, self.settings.show_entities));
            }
        } else {
            proof {
                assert(c.text_entity_types.len() == self.text_entity_types.entries@.len());
                assert(out@ =~= entity_section_t(c, self.settings.show_entities));
            }
        }
        out
    }

    /// Renders the full textual report; see `report_t` for the layout. The
    /// date lines come from the machine's local time zone, so they are
    /// existentially quantified; everything else is pinned exactly.
    #[verifier::rlimit(100)]
    pub fn render(&self) -> (r: String)
        requires
            self.wf(),
        ensures
            exists|ds: DateLines|
                report_dates_ok(ds, self@, self.settings.max_participants) && r@ == report_t(
                    self@,
                    self.settings,
                    ds,
                ),
    {
        let ghost c = self@;
        let comb = self.combined();
        let mut out = self.render_header(&comb);
        let mut d0: (Option<String>, Option<String>) = (Option::None, Option::None);
        match comb.first_message {
            Option::Some(t) => {
                d0.0 = Option::Some(format_local_datetime(t));
            },
            Option::None => {},
        }
        match comb.last_message {
            Option::Some(t) => {
                d0.1 = Option::Some(format_local_datetime(t));
            },
            Option::None => {},
        }
        if comb.count > 0 {
            out.append("\nCombined Participant Stats:\n");
            let fs = match &d0.0 {
                Option::Some(s) => Option::Some(s.clone()),
                Option::None => Option::None,
            };
            let ls = match &d0.1 {
                Option::Some(s) => Option::Some(s.clone()),
                Option::None => Option::None,
            };
            out.append(user_block(&comb, fs, ls, self.settings.max_words).as_str());
        }
        let ghost dv0 = (opt_view(d0.0), opt_view(d0.1));
        let ghost after_combined = out@;
        proof {
            assert(after_combined =~= header_t(c) + combined_section_t(
                c,
                self.settings.max_words,
                dv0,
            ));
            assert(dates_match(dv0.0, combined_all_v(c.participants).first_message));
            assert(dates_match(dv0.1, combined_all_v(c.participants).last_message));
        }
        let pairs = self.name_count_pairs();
        let sorted = sort_entries_desc(&pairs);
        let ghost sn = kcs(sorted@);
        let np = self.participants.len();
        proof {
            assert(sn == sort_desc(name_counts(c.participants)));
            assert(sn.len() == np) by {
                lemma_sort_len(name_counts(c.participants));
            }
        }
        let shown = if self.settings.max_participants <= np {
            self.settings.max_participants
        } else {
            np
        };
        let dates = self.collect_dates(&sorted, shown);
        let ghost ds: DateLines = seq![dv0] + Seq::new(
            shown as nat,
            |j: int| (opt_view(dates@[j].0), opt_view(dates@[j].1)),
        );
        proof {
            assert(ds.len() == 1 + shown);
            assert(ds[0] == dv0);
            assert(forall|j: int| 0 <= j < shown ==> ds[j + 1] == (opt_view(dates@[j].0), opt_view(
                dates@[j].1,
            )));
            assert(report_dates_ok(ds, c, self.settings.max_participants));
        }
        out.append(self.render_participants(&comb, &sorted, &dates, Ghost(ds)).as_str());
        out.append(self.render_entities().as_str());
        proof {
            assert(out@ =~= report_t(c, self.settings, ds));
        }
        out
    }
}

proof fn lemma_sort_len(s: Seq<(Seq<char>, u64)>)
    ensures
        sort_desc(s).len() == s.len(),
    decreases s.len(),
{
    if s.len() > 0 {
        lemma_sort_len(s.drop_last());
        lemma_insert_len(s.last(), sort_desc(s.drop_last()));
    }
}

proof fn lemma_insert_len(e: (Seq<char>, u64), t: Seq<(Seq<char>, u64)>)
    ensures
        crate::counts::insert_desc(e, t).len() == t.len() + 1,
    decreases t.len(),
{
    if t.len() > 0 && !(e.1 > t.first().1) {
        lemma_insert_len(e, t.drop_first());
    }
}

/// Every name in the sorted run occurs in the participant table.
proof fn lemma_sort_has_names(s: Seq<(Seq<char>, u64)>, k: int)
    requires
        0 <= k < sort_desc(s).len(),
    ensures
        exists|i: int| 0 <= i < s.len() && s[i].0 == sort_desc(s)[k].0,
    decreases s.len(),
{
    if s.len() == 0 {
    } else {
        lemma_insert_mem(s.last(), sort_desc(s.drop_last()), k);
        if sort_desc(s)[k] == s.last() {
            assert(s[s.len() - 1].0 == sort_desc(s)[k].0);
        } else {
            let j = choose|j: int|
                0 <= j < sort_desc(s.drop_last()).len() && sort_desc(s.drop_last())[j] == sort_desc(
                    s,
                )[k];
            lemma_sort_has_names(s.drop_last(), j);
            let i = choose|i: int|
                0 <= i < s.drop_last().len() && s.drop_last()[i].0 == sort_desc(s.drop_last())[j].0;
            assert(s[i].0 == sort_desc(s)[k].0);
        }
    }
}

proof fn lemma_insert_mem(e: (Seq<char>, u64), t: Seq<(Seq<char>, u64)>, k: int)
    requires
        0 <= k < crate::counts::insert_desc(e, t).len(),
    ensures
        crate::counts::insert_desc(e, t)[k] == e || exists|j: int|
            0 <= j < t.len() && t[j] == crate::counts::insert_desc(e, t)[k],
    decreases t.len(),
{
    let r = crate::counts::insert_desc(e, t);
    if t.len() == 0 {
    } else if e.1 > t.first().1 {
        if k > 0 {
            assert(t[k - 1] == r[k]);
        }
    } else {
        if k > 0 {
            lemma_insert_mem(e, t.drop_first(), k - 1);
            if crate::counts::insert_desc(e, t.drop_first())[k - 1] != e {
                let j = choose|j: int|
                    0 <= j < t.drop_first().len() && t.drop_first()[j] == crate::counts::insert_desc(
                        e,
                        t.drop_first(),
                    )[k - 1];
                assert(t[j + 1] == r[k]);
            }
        } else {
            assert(t[0] == r[0]);
        }
    }
}

/// The first entry carrying a name that some entry carries is what lookup
/// finds; with distinct names, any match is the match.
proof fn lemma_first_match(ps: Seq<(Seq<char>, UserStatsV)>, i: int, name: Seq<char>)
    requires
        0 <= i < ps.len(),
        ps[i].0 == name,
        forall|a: int, b: int| 0 <= a < b < ps.len() ==> ps[a].0 != ps[b].0,
    ensures
        stats_of(ps, name) == ps[i].1,
    decreases i,
{
    assert(forall|j: int| 0 <= j < i ==> ps[j].0 != name);
    lemma_stats_of_at(ps, i);
}

} // verus!
