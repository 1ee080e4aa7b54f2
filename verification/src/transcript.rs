//! The transcript reconstructor: one line per regular message in original
//! order, with edit, reply, and reaction annotations, replies resolved
//! against the messages already emitted.

use vstd::prelude::*;

use crate::content::flat_text;
use crate::messages::{seq_views, RawMessage, Reaction, ReactionV, RecentReaction, RecentV};
use crate::util::{dec_str, push_char, u64_to_string};
use vstd::hash_map::HashMapWithView;

verus! {

broadcast use vstd::std_specs::hash::group_hash_axioms;

/// One character of a normalized wall-clock date: the `T` separator becomes
/// a space, all else is kept.
pub open spec fn date_repl(c: char) -> char {
    if c == 'T' {
        ' '
    } else {
        c
    }
}

/// `s` with every `T` separator replaced by a space, character for
/// character.
pub open spec fn swap_t(s: Seq<char>) -> Seq<char>
    decreases s.len(),
{
    if s.len() == 0 {
        Seq::empty()
    } else {
        swap_t(s.drop_last()).push(date_repl(s.last()))
    }
}

/// A wall-clock date normalized for display: the `T` separator becomes a
/// space and one trailing `Z` is stripped; all other characters are kept in
/// order.
pub open spec fn clean_date_v(s: Seq<char>) -> Seq<char> {
    swap_t(
        if s.len() > 0 && s.last() == 'Z' {
            s.drop_last()
        } else {
            s
        },
    )
}

/// Normalizes a wall-clock date for display, exactly `clean_date_v`.
pub fn clean_date(s: &str) -> (r: String)
    ensures
        r@ == clean_date_v(s@),
{
    let n = s.unicode_len();
    let limit = if n > 0 && s.get_char(n - 1) == 'Z' {
        n - 1
    } else {
        n
    };
    let ghost base = if s@.len() > 0 && s@.last() == 'Z' {
        s@.drop_last()
    } else {
        s@
    };
    proof {
        assert(base =~= s@.take(limit as int));
    }
    let mut out = String::new();
    let mut i: usize = 0;
    proof {
        assert(swap_t(base.take(0)) =~= Seq::<char>::empty());
    }
    while i < limit
        invariant
            0 <= i <= limit,
            limit <= n,
            n == s@.len(),
            base == s@.take(limit as int),
            clean_date_v(s@) == swap_t(base),
            out@ == swap_t(base.take(i as int)),
        decreases limit - i,
    {
        let c = s.get_char(i);
        let ghost prev = out@;
        if c == 'T' {
            push_char(&mut out, ' ');
        } else {
            push_char(&mut out, c);
        }
        proof {
            assert(base.take(i + 1).drop_last() =~= base.take(i as int));
            assert(base.take(i + 1).last() == base[i as int]);
            assert(base[i as int] == s@[i as int]);
            assert(out@ =~= prev.push(date_repl(s@[i as int])));
        }
        i = i + 1;
    }
    proof {
        assert(base.take(limit as int) =~= base);
    }
    out
}

/// A display text with newlines replaced by spaces.
pub open spec fn one_line_v(s: Seq<char>) -> Seq<char>
    decreases s.len(),
{
    if s.len() == 0 {
        Seq::empty()
    } else {
        one_line_v(s.drop_last()) + seq![
            if s.last() == '\n' {
                ' '
            } else {
                s.last()
            },
        ]
    }
}

/// Replaces every newline with a space, exactly `one_line_v`.
pub fn one_line(s: &str) -> (r: String)
    ensures
        r@ == one_line_v(s@),
{
    let n = s.unicode_len();
    let mut out = String::new();
    let mut i: usize = 0;
    proof {
        assert(one_line_v(s@.take(0)) =~= Seq::<char>::empty());
    }
    while i < n
        invariant
            0 <= i <= n,
            n == s@.len(),
            out@ == one_line_v(s@.take(i as int)),
        decreases n - i,
    {
        let c = s.get_char(i);
        let ghost prev = out@;
        if c == '\n' {
            push_char(&mut out, ' ');
        } else {
            push_char(&mut out, c);
        }
        proof {
            assert(s@.take(i + 1).drop_last() =~= s@.take(i as int));
            assert(s@.take(i + 1).last() == s@[i as int]);
            assert(out@ =~= prev + seq![
                if s@[i as int] == '\n' {
                    ' '
                } else {
                    s@[i as int]
                },
            ]);
        }
        i = i + 1;
    }
    proof {
        assert(s@.take(n as int) =~= s@);
    }
    out
}

/// The icon a reaction is shown under: the emoji glyph, or
/// `custom_emoji:` followed by the asset id.
pub open spec fn icon_v(r: ReactionV) -> Seq<char> {
    match r {
        ReactionV::Emoji { emoji, .. } => emoji,
        ReactionV::CustomEmoji { document_id, .. } => "custom_emoji:"@ + document_id,
    }
}

fn reaction_icon(r: &Reaction) -> (s: String)
    ensures
        s@ == icon_v(r@),
{
    match r {
        Reaction::Emoji { emoji, .. } => emoji.clone(),
        Reaction::CustomEmoji { document_id, .. } => {
            let mut s = "custom_emoji:".to_owned();
            s.append(document_id.as_str());
            s
        },
    }
}

/// The reactor names of a reaction's sample, each prefixed with `@` and
/// concatenated in order with no separator between entries, as the source
/// format has it.
pub open spec fn reactors_v(rs: Seq<RecentV>) -> Seq<char>
    decreases rs.len(),
{
    if rs.len() == 0 {
        Seq::empty()
    } else {
        reactors_v(rs.drop_last()) + seq!['@'] + rs.last().from
    }
}

fn reactor_names(rs: &Vec<RecentReaction>) -> (s: String)
    ensures
        s@ == reactors_v(seq_views(rs@)),
{
    let ghost rv = seq_views(rs@);
    let mut out = String::new();
    let n = rs.len();
    let mut i: usize = 0;
    proof {
        assert(reactors_v(rv.take(0)) =~= Seq::<char>::empty());
    }
    while i < n
        invariant
            0 <= i <= n,
            n == rs@.len(),
            rv == seq_views(rs@),
            out@ == reactors_v(rv.take(i as int)),
        decreases n - i,
    {
        let ghost prev = out@;
        push_char(&mut out, '@');
        out.append(rs[i].from.as_str());
        proof {
            assert(rv.take(i + 1).drop_last() =~= rv.take(i as int));
            assert(rv.take(i + 1).last() == rv[i as int]);
            assert(rv[i as int].from == rs@[i as int].from@);
            assert(out@ =~= prev + seq!['@'] + rv[i as int].from);
        }
        i = i + 1;
    }
    proof {
        assert(rv.take(n as int) =~= rv);
    }
    out
}

/// The annotation line for one reaction.
pub open spec fn rx_line_v(r: ReactionV) -> Seq<char> {
    "  \u{21b3} [reaction: "@ + icon_v(r) + " by "@ + reactors_v(match r {
        ReactionV::Emoji { recent, .. } => recent,
        ReactionV::CustomEmoji { recent, .. } => recent,
    }) + "]\n"@
}

/// The annotation lines of all reactions, in order.
pub open spec fn rx_lines_v(rs: Seq<ReactionV>) -> Seq<char>
    decreases rs.len(),
{
    if rs.len() == 0 {
        Seq::empty()
    } else {
        rx_lines_v(rs.drop_last()) + rx_line_v(rs.last())
    }
}

/// What the transcript remembers of an emitted message: its sender and its
/// one-line display text.
pub type SeenMap = Map<u64, (Seq<char>, Seq<char>)>;

/// The block of transcript text one record contributes, given the messages
/// already emitted. A service record contributes nothing. A regular record
/// contributes its message line; an edit annotation when an edit date is
/// present; a reply annotation when a reply target is present, quoting the
/// target when it has been emitted (the message itself included) and marking
/// it unknown otherwise; and one annotation line per reaction.
pub open spec fn block_v(m: RawMessage, seen: SeenMap) -> Seq<char> {
    match m {
        RawMessage::Service { .. } => Seq::empty(),
        RawMessage::Message { id, date, from, reply_to_message_id, text, edited, reactions, .. } => {
            let t = one_line_v(flat_text(text));
            let seen2 = seen.insert(id, (from@, t));
            let head = "["@ + clean_date_v(date@) + "] @"@ + from@ + ": "@ + t + "\n"@;
            let eline = match edited {
                Option::Some(e) => "  \u{21b3} [edited] "@ + clean_date_v(e@) + "\n"@,
                Option::None => Seq::<char>::empty(),
            };
            let rline = match reply_to_message_id {
                Option::Some(rid) => if seen2.contains_key(rid) {
                    "  \u{21b3} [reply to msg#"@ + dec_str(rid as nat) + "] @"@ + seen2[rid].0
                        + ": "@ + seen2[rid].1 + "\n"@
                } else {
                    "  \u{21b3} [reply to unknown msg#"@ + dec_str(rid as nat) + "]\n"@
                },
                Option::None => Seq::<char>::empty(),
            };
            head + eline + rline + rx_lines_v(seq_views(reactions@))
        },
    }
}

/// What one record adds to the running map: a regular record records its
/// sender and one-line text under its id; a service record adds nothing.
pub open spec fn seen_after(m: RawMessage, seen: SeenMap) -> SeenMap {
    match m {
        RawMessage::Service { .. } => seen,
        RawMessage::Message { id, from, text, .. } => seen.insert(
            id,
            (from@, one_line_v(flat_text(text))),
        ),
    }
}

/// The transcript text and running map after processing a record sequence in
/// order.
pub open spec fn trans_fold(msgs: Seq<RawMessage>) -> (Seq<char>, SeenMap)
    decreases msgs.len(),
{
    if msgs.len() == 0 {
        (Seq::empty(), Map::empty())
    } else {
        let p = trans_fold(msgs.drop_last());
        (p.0 + block_v(msgs.last(), p.1), seen_after(msgs.last(), p.1))
    }
}

/// How many records a transcript pass processes: all of them, or the given
/// cap when it is smaller.
pub open spec fn retained(len: nat, max: Option<usize>) -> int {
    match max {
        Option::None => len as int,
        Option::Some(m) => if m <= len {
            m as int
        } else {
            len as int
        },
    }
}

/// The full transcript of the first `retained` records.
pub open spec fn transcript_v(msgs: Seq<RawMessage>, max: Option<usize>) -> Seq<char> {
    trans_fold(msgs.take(retained(msgs.len(), max))).0
}

/// A conversation: its metadata and its ordered raw records.
pub struct Chat {
    /// The display name of the conversation.
    pub name: String,
    /// The conversation's kind tag.
    pub chat_type: String,
    /// The conversation's numeric id.
    pub id: i64,
    /// The ordered raw records.
    pub messages: Vec<RawMessage>,
}

fn emit_reactions(out: &mut String, reactions: &Vec<Reaction>)
    ensures
        final(out)@ == old(out)@ + rx_lines_v(seq_views(reactions@)),
{
    let ghost rv = seq_views(reactions@);
    let ghost rx_start = out@;
    let m = reactions.len();
    let mut j: usize = 0;
    proof {
        assert(rx_lines_v(rv.take(0)) =~= Seq::<char>::empty());
        assert(out@ =~= rx_start + rx_lines_v(rv.take(0)));
    }
    while j < m
        invariant
            0 <= j <= m,
            m == reactions@.len(),
            rv == seq_views(reactions@),
            rx_start == old(out)@,
            out@ == rx_start + rx_lines_v(rv.take(j as int)),
        decreases m - j,
    {
        let ghost before = out@;
        out.append("  \u{21b3} [reaction: ");
        out.append(reaction_icon(&reactions[j]).as_str());
        out.append(" by ");
        match &reactions[j] {
            Reaction::Emoji { recent, .. } => {
                out.append(reactor_names(recent).as_str());
            },
            Reaction::CustomEmoji { recent, .. } => {
                out.append(reactor_names(recent).as_str());
            },
        }
        out.append("]\n");
        proof {
            assert(rv.take(j + 1).drop_last() =~= rv.take(j as int));
            assert(rv.take(j + 1).last() == rv[j as int]);
            assert(out@ =~= before + rx_line_v(rv[j as int]));
        }
        j = j + 1;
    }
    proof {
        assert(rv.take(m as int) =~= rv);
    }
}

/// The correspondence between the running ghost map and the executable map:
/// same keys, and each recorded pair agrees up to views.
pub open spec fn seen_models(g: SeenMap, h: Map<u64, (String, String)>) -> bool {
    &&& g.dom() == h.dom()
    &&& forall|k: u64| #[trigger] g.contains_key(k) ==> g[k] == (h[k].0@, h[k].1@)
}

#[verifier::rlimit(100)]
fn emit_block(
    out: &mut String,
    seen: &mut HashMapWithView<u64, (String, String)>,
    m: &RawMessage,
    Ghost(gseen): Ghost<SeenMap>,
) -> (g2: Ghost<SeenMap>)
    requires
        seen_models(gseen, old(seen)@),
    ensures
        final(out)@ == old(out)@ + block_v(*m, gseen),
        g2@ == seen_after(*m, gseen),
        seen_models(g2@, final(seen)@),
{
    let ghost prev_out = out@;
    match m {
        RawMessage::Service { .. } => {
            proof {
                assert(out@ =~= prev_out + block_v(*m, gseen));
            }
            Ghost(gseen)
        },
        RawMessage::Message {
            id,
            date,
            from,
            reply_to_message_id,
            text,
            edited,
            reactions,
            ..
        } => {
            let flattened = text.flatten();
            let t = one_line(flattened.as_str());
            seen.insert(*id, (from.clone(), t.clone()));
            let ghost g2 = gseen.insert(*id, (from@, t@));
            proof {
                assert(g2.dom() =~= seen@.dom());
                assert(seen_models(g2, seen@));
            }
            out.append("[");
            out.append(clean_date(date.as_str()).as_str());
            out.append("] @");
            out.append(from.as_str());
            out.append(": ");
            out.append(t.as_str());
            out.append("\n");
            let ghost head = "["@ + clean_date_v(date@) + "] @"@ + from@ + ": "@ + t@ + "\n"@;
            proof {
                assert(out@ =~= prev_out + head);
            }
            match edited {
                Option::Some(e) => {
                    out.append("  \u{21b3} [edited] ");
                    out.append(clean_date(e.as_str()).as_str());
                    out.append("\n");
                },
                Option::None => {},
            }
            let ghost with_edit = out@;
            proof {
                let eline = match edited {
                    Option::Some(e) => "  \u{21b3} [edited] "@ + clean_date_v(e@) + "\n"@,
                    Option::None => Seq::<char>::empty(),
                };
                assert(with_edit =~= prev_out + head + eline);
            }
            match reply_to_message_id {
                Option::Some(rid) => {
                    match seen.get(rid) {
                        Option::Some(pair) => {
                            out.append("  \u{21b3} [reply to msg#");
                            out.append(u64_to_string(*rid).as_str());
                            out.append("] @");
                            out.append(pair.0.as_str());
                            out.append(": ");
                            out.append(pair.1.as_str());
                            out.append("\n");
                            proof {
                                assert(g2.contains_key(*rid));
                                assert(out@ =~= with_edit + ("  \u{21b3} [reply to msg#"@
                                    + dec_str(*rid as nat) + "] @"@ + g2[*rid].0 + ": "@
                                    + g2[*rid].1 + "\n"@));
                            }
                        },
                        Option::None => {
                            out.append("  \u{21b3} [reply to unknown msg#");
                            out.append(u64_to_string(*rid).as_str());
                            out.append("]\n");
                            proof {
                                assert(!g2.contains_key(*rid));
                                assert(out@ =~= with_edit + ("  \u{21b3} [reply to unknown msg#"@
                                    + dec_str(*rid as nat) + "]\n"@));
                            }
                        },
                    }
                },
                Option::None => {},
            }
            let ghost with_reply = out@;
            proof {
                let eline = match edited {
                    Option::Some(e) => "  \u{21b3} [edited] "@ + clean_date_v(e@) + "\n"@,
                    Option::None => Seq::<char>::empty(),
                };
                let rline = match reply_to_message_id {
                    Option::Some(rid) => if g2.contains_key(*rid) {
                        "  \u{21b3} [reply to msg#"@ + dec_str(*rid as nat) + "] @"@ + g2[*rid].0
                            + ": "@ + g2[*rid].1 + "\n"@
                    } else {
                        "  \u{21b3} [reply to unknown msg#"@ + dec_str(*rid as nat) + "]\n"@
                    },
                    Option::None => Seq::<char>::empty(),
                };
                assert(with_reply =~= prev_out + head + eline + rline);
            }
            emit_reactions(out, reactions);
            proof {
                assert(out@ =~= prev_out + block_v(*m, gseen));
            }
            Ghost(g2)
        },
    }
}

impl Chat {
    /// Renders the flattened transcript of at most `max` records (all of
    /// them by default), skipping service records, in original order; see
    /// `transcript_v` for the exact line shapes.
    pub fn write_export(&self, max: Option<usize>) -> (r: String)
        ensures
            r@ == transcript_v(self.messages@, max),
    {
        let len = self.messages.len();
        let n = match max {
            Option::Some(m) => if m <= len {
                m
            } else {
                len
            },
            Option::None => len,
        };
        proof {
            assert(n as int == retained(self.messages@.len(), max));
        }
        let mut out = String::new();
        let mut seen: HashMapWithView<u64, (String, String)> = HashMapWithView::new();
        let mut gseen: Ghost<SeenMap> = Ghost(Map::empty());
        let mut i: usize = 0;
        proof {
            assert(self.messages@.take(0) =~= Seq::<RawMessage>::empty());
            assert(gseen@.dom() =~= seen@.dom());
        }
        while i < n
            invariant
                0 <= i <= n,
                n <= self.messages@.len(),
                (out@, gseen@) == trans_fold(self.messages@.take(i as int)),
                seen_models(gseen@, seen@),
            decreases n - i,
        {
            proof {
                assert(self.messages@.take(i + 1).drop_last() =~= self.messages@.take(i as int));
                assert(self.messages@.take(i + 1).last() == self.messages@[i as int]);
            }
            gseen = emit_block(&mut out, &mut seen, &self.messages[i], gseen);
            i = i + 1;
        }
        out
    }
}

} // verus!
