//! The raw message model (regular and service records), reactions, and the
//! normalizer that turns a raw record into one uniform representation.

use vstd::prelude::*;

use crate::content::{flat_text, Text, TextEntity};
use crate::util::{dec_val, digits_of, parse_u64, u64_parse_ok};

verus! {

/// One entry of a reaction's possibly-truncated reactor sample.
pub struct RecentReaction {
    pub from: String,
    pub from_id: String,
    pub date: String,
}

/// A reaction attached to a message: a plain emoji or a custom emoji asset.
pub enum Reaction {
    Emoji { count: u64, emoji: String, recent: Vec<RecentReaction> },
    CustomEmoji { count: u64, document_id: String, recent: Vec<RecentReaction> },
}

/// A raw record of the conversation stream: a regular message or a service
/// event.
pub enum RawMessage {
    Message {
        id: u64,
        date: String,
        date_unixtime: String,
        from: String,
        from_id: String,
        reply_to_message_id: Option<u64>,
        text: Text,
        text_entities: Vec<TextEntity>,
        edited: Option<String>,
        edited_unixtime: Option<String>,
        reactions: Vec<Reaction>,
    },
    Service {
        id: u64,
        date: String,
        date_unixtime: String,
        actor: String,
        actor_id: String,
        action: String,
        duration_seconds: Option<u32>,
        discard_reason: Option<String>,
        text: Text,
        text_entities: Vec<TextEntity>,
    },
}

/// A regular message after normalization: parsed timestamps, flattened text,
/// and defaults filled in. Service records are never normalized.
pub struct NormalizedMessage {
    /// Send time as unix-epoch seconds, absent when the raw field fails to
    /// parse.
    pub date: Option<u64>,
    pub from: String,
    pub reply_to_message_id: Option<u64>,
    /// The flattened display text of the message.
    pub text: String,
    pub reactions: Vec<Reaction>,
    /// Edit time as unix-epoch seconds, absent when missing or malformed.
    pub edited: Option<u64>,
    pub text_entities: Vec<TextEntity>,
}

/// The mathematical image of a sequence of values, element by element.
pub open spec fn seq_views<T: View>(s: Seq<T>) -> Seq<T::V> {
    Seq::new(s.len(), |i: int| s[i]@)
}

/// Mathematical form of one reactor-sample entry.
pub ghost struct RecentV {
    pub from: Seq<char>,
    pub from_id: Seq<char>,
    pub date: Seq<char>,
}

impl View for RecentReaction {
    type V = RecentV;

    open spec fn view(&self) -> RecentV {
        RecentV { from: self.from@, from_id: self.from_id@, date: self.date@ }
    }
}

/// Mathematical form of a reaction.
pub ghost enum ReactionV {
    Emoji { count: u64, emoji: Seq<char>, recent: Seq<RecentV> },
    CustomEmoji { count: u64, document_id: Seq<char>, recent: Seq<RecentV> },
}

impl View for Reaction {
    type V = ReactionV;

    open spec fn view(&self) -> ReactionV {
        match self {
            Reaction::Emoji { count, emoji, recent } => ReactionV::Emoji {
                count: *count,
                emoji: emoji@,
                recent: seq_views(recent@),
            },
            Reaction::CustomEmoji { count, document_id, recent } => ReactionV::CustomEmoji {
                count: *count,
                document_id: document_id@,
                recent: seq_views(recent@),
            },
        }
    }
}

/// Mathematical form of a text entity: its kind tag and covered text.
pub ghost struct EntityV {
    pub entity_type: Seq<char>,
    pub text: Seq<char>,
}

impl View for TextEntity {
    type V = EntityV;

    open spec fn view(&self) -> EntityV {
        EntityV { entity_type: self.entity_type@, text: self.text@ }
    }
}

/// Mathematical form of a normalized message.
pub ghost struct MsgV {
    pub date: Option<u64>,
    pub from: Seq<char>,
    pub reply_to_message_id: Option<u64>,
    pub text: Seq<char>,
    pub reactions: Seq<ReactionV>,
    pub edited: Option<u64>,
    pub text_entities: Seq<EntityV>,
}

impl View for NormalizedMessage {
    type V = MsgV;

    open spec fn view(&self) -> MsgV {
        MsgV {
            date: self.date,
            from: self.from@,
            reply_to_message_id: self.reply_to_message_id,
            text: self.text@,
            reactions: seq_views(self.reactions@),
            edited: self.edited,
            text_entities: seq_views(self.text_entities@),
        }
    }
}

/// The timestamp a unix-epoch string parses to, absent on a failed parse.
pub open spec fn parse_ts(s: Seq<char>) -> Option<u64> {
    if u64_parse_ok(s) {
        Option::Some(dec_val(digits_of(s)) as u64)
    } else {
        Option::None
    }
}

/// `parse_ts` lifted over an absent field.
pub open spec fn parse_opt_ts(o: Option<String>) -> Option<u64> {
    match o {
        Option::None => Option::None,
        Option::Some(s) => parse_ts(s@),
    }
}

/// What a raw record normalizes to: nothing for a service record; for a
/// regular record, its id with parsed timestamps, flattened text, and the
/// remaining fields passed through.
pub open spec fn norm_of(m: RawMessage) -> Option<(u64, MsgV)> {
    match m {
        RawMessage::Service { .. } => Option::None,
        RawMessage::Message {
            id,
            date_unixtime,
            from,
            reply_to_message_id,
            text,
            text_entities,
            edited_unixtime,
            reactions,
            ..
        } => Option::Some(
            (
                id,
                MsgV {
                    date: parse_ts(date_unixtime@),
                    from: from@,
                    reply_to_message_id,
                    text: flat_text(text),
                    reactions: seq_views(reactions@),
                    edited: parse_opt_ts(edited_unixtime),
                    text_entities: seq_views(text_entities@),
                },
            ),
        ),
    }
}

impl RawMessage {
    /// Normalizes the record: a service record yields nothing; a regular
    /// record yields its id and the uniform representation, with a failed
    /// timestamp parse degrading to an absent timestamp.
    pub fn message(self) -> (r: Option<(u64, NormalizedMessage)>)
        ensures
            match r {
                Option::None => norm_of(self) is None,
                Option::Some(p) => norm_of(self) == Option::Some((p.0, p.1@)),
            },
    {
        match self {
            RawMessage::Message {
                id,
                date_unixtime,
                from,
                reply_to_message_id,
                text,
                text_entities,
                edited_unixtime,
                reactions,
                ..
            } => {
                let date = parse_u64(date_unixtime.as_str());
                let edited = match edited_unixtime {
                    Option::None => Option::None,
                    Option::Some(e) => parse_u64(e.as_str()),
                };
                let flattened = text.flatten();
                Option::Some(
                    (
                        id,
                        NormalizedMessage {
                            date,
                            from,
                            reply_to_message_id,
                            text: flattened,
                            reactions,
                            edited,
                            text_entities,
                        },
                    ),
                )
            },
            RawMessage::Service { .. } => Option::None,
        }
    }
}

} // verus!
