use tg_export::content::Text;
use tg_export::messages::{RawMessage, Reaction, RecentReaction};
use tg_export::stats::{ChatStats, StatsSettings, StopWordSet};
use tg_export::transcript::{clean_date, one_line, Chat};

fn msg(id: u64, date: &str, from: &str, text: &str, reply: Option<u64>) -> RawMessage {
    RawMessage::Message {
        id,
        date: String::from(date),
        date_unixtime: String::from("1609495200"),
        from: String::from(from),
        from_id: format!("user{}", id),
        reply_to_message_id: reply,
        text: Text::Plain(String::from(text)),
        text_entities: vec![],
        edited: None,
        edited_unixtime: None,
        reactions: vec![],
    }
}

#[test]
fn clean_date_normalizes_separator_and_suffix() {
    assert_eq!(clean_date("2021-01-01T12:00:00Z"), "2021-01-01 12:00:00");
    assert_eq!(clean_date("2021-01-01T12:00:00"), "2021-01-01 12:00:00");
    assert_eq!(clean_date(""), "");
}

#[test]
fn clean_date_strips_only_one_trailing_z() {
    assert_eq!(clean_date("Za"), "Za");
    assert_eq!(clean_date("aZZ"), "aZ");
    assert_eq!(clean_date("Z"), "");
    assert_eq!(clean_date("TT"), "  ");
}

#[test]
fn one_line_replaces_newlines() {
    assert_eq!(one_line("a\nb\nc"), "a b c");
    assert_eq!(one_line("plain"), "plain");
}

#[test]
fn transcript_end_to_end_scenario() {
    let mut reply_msg = msg(2, "2021-01-01T10:05:00", "Bob", "Hello!", Some(1));
    if let RawMessage::Message { reactions, .. } = &mut reply_msg {
        reactions.push(Reaction::Emoji {
            count: 1,
            emoji: String::from("\u{1f44d}"),
            recent: vec![RecentReaction {
                from: String::from("Alice"),
                from_id: String::from("user1"),
                date: String::from("2021-01-01T10:06:00"),
            }],
        });
    }
    let chat = Chat {
        name: String::from("pair"),
        chat_type: String::from("personal_chat"),
        id: 7,
        messages: vec![msg(1, "2021-01-01T10:00:00", "Alice", "Hi there", None), reply_msg],
    };
    let out = chat.write_export(None);
    let expected = "[2021-01-01 10:00:00] @Alice: Hi there\n\
                    [2021-01-01 10:05:00] @Bob: Hello!\n  \
                    \u{21b3} [reply to msg#1] @Alice: Hi there\n  \
                    \u{21b3} [reaction: \u{1f44d} by @Alice]\n";
    assert_eq!(out, expected);

    let mut stats = ChatStats::new(StatsSettings {
        max_words: 10,
        show_entities: false,
        max_participants: 5,
    });
    let stop = StopWordSet::empty();
    stats.analyze(chat.messages, &stop);
    assert_eq!(stats.messages, 2);
    let bob = stats.participants.iter().find(|(n, _)| n == "Bob").unwrap();
    assert_eq!(bob.1.received_reactions.get(&String::from("\u{1f44d}")), 1);
}

#[test]
fn transcript_marks_unknown_reply_targets() {
    let chat = Chat {
        name: String::from("c"),
        chat_type: String::from("personal_chat"),
        id: 1,
        messages: vec![msg(5, "2021-01-02T08:00:00", "Ann", "hi", Some(4))],
    };
    let out = chat.write_export(None);
    assert_eq!(
        out,
        "[2021-01-02 08:00:00] @Ann: hi\n  \u{21b3} [reply to unknown msg#4]\n"
    );
}

#[test]
fn transcript_notes_edits() {
    let mut m = msg(1, "2021-01-01T10:00:00", "A", "x", None);
    if let RawMessage::Message { edited, edited_unixtime, .. } = &mut m {
        *edited = Some(String::from("2021-01-01T10:30:00"));
        *edited_unixtime = Some(String::from("1609497000"));
    }
    let chat = Chat {
        name: String::from("c"),
        chat_type: String::from("g"),
        id: 1,
        messages: vec![m],
    };
    let out = chat.write_export(None);
    assert_eq!(
        out,
        "[2021-01-01 10:00:00] @A: x\n  \u{21b3} [edited] 2021-01-01 10:30:00\n"
    );
}

#[test]
fn transcript_respects_message_cap_and_skips_service() {
    let service = RawMessage::Service {
        id: 9,
        date: String::from("2021-01-01T09:00:00"),
        date_unixtime: String::from("1609491600"),
        actor: String::from("Admin"),
        actor_id: String::from("a"),
        action: String::from("pin"),
        duration_seconds: None,
        discard_reason: None,
        text: Text::Plain(String::from("")),
        text_entities: vec![],
    };
    let chat = Chat {
        name: String::from("c"),
        chat_type: String::from("g"),
        id: 1,
        messages: vec![
            service,
            msg(1, "2021-01-01T10:00:00", "A", "first", None),
            msg(2, "2021-01-01T10:01:00", "A", "second", None),
        ],
    };
    let all = chat.write_export(None);
    assert_eq!(all, "[2021-01-01 10:00:00] @A: first\n[2021-01-01 10:01:00] @A: second\n");
    let capped = chat.write_export(Some(2));
    assert_eq!(capped, "[2021-01-01 10:00:00] @A: first\n");
}

#[test]
fn transcript_custom_emoji_icon() {
    let mut m = msg(1, "2021-01-01T10:00:00", "A", "x", None);
    if let RawMessage::Message { reactions, .. } = &mut m {
        reactions.push(Reaction::CustomEmoji {
            count: 2,
            document_id: String::from("555"),
            recent: vec![],
        });
    }
    let chat = Chat {
        name: String::from("c"),
        chat_type: String::from("g"),
        id: 1,
        messages: vec![m],
    };
    let out = chat.write_export(None);
    assert_eq!(
        out,
        "[2021-01-01 10:00:00] @A: x\n  \u{21b3} [reaction: custom_emoji:555 by ]\n"
    );
}

#[test]
fn transcript_flattens_structured_text_and_newlines() {
    let m = RawMessage::Message {
        id: 1,
        date: String::from("2021-01-01T10:00:00"),
        date_unixtime: String::from("1609495200"),
        from: String::from("A"),
        from_id: String::from("user1"),
        reply_to_message_id: None,
        text: Text::Structured(vec![
            tg_export::content::TextElement::String(String::from("line1\nline2 ")),
            tg_export::content::TextElement::Entity(tg_export::content::TextEntity {
                entity_type: String::from("link"),
                text: String::from("https://x"),
            }),
        ]),
        text_entities: vec![],
        edited: None,
        edited_unixtime: None,
        reactions: vec![],
    };
    let chat = Chat {
        name: String::from("c"),
        chat_type: String::from("g"),
        id: 1,
        messages: vec![m],
    };
    let out = chat.write_export(None);
    assert_eq!(out, "[2021-01-01 10:00:00] @A: line1 line2 https://x\n");
}

#[test]
fn report_includes_date_lines_when_timestamps_present() {
    let mut stats = ChatStats::new(StatsSettings {
        max_words: 10,
        show_entities: false,
        max_participants: 5,
    });
    let stop = StopWordSet::empty();
    stats.analyze(vec![msg(1, "2021-01-01T10:00:00", "Ann", "hi", None)], &stop);
    let report = stats.render();
    assert!(report.contains("- First message  : "));
    assert!(report.contains("- Last message   : "));
}

#[test]
fn report_truncates_participants_with_trailer() {
    let mut stats = ChatStats::new(StatsSettings {
        max_words: 3,
        show_entities: false,
        max_participants: 2,
    });
    let stop = StopWordSet::empty();
    let mut msgs = Vec::new();
    let names = ["P1", "P2", "P3", "P4", "P5"];
    let mut id = 1u64;
    for (i, name) in names.iter().enumerate() {
        for _ in 0..(5 - i) {
            msgs.push(msg(id, "2021-01-01T10:00:00", name, "hello there", None));
            id += 1;
        }
    }
    stats.analyze(msgs, &stop);
    let report = stats.render();
    assert!(report.contains("Top Participants (5):"));
    assert!(report.contains("\n1. P1"));
    assert!(report.contains("\n2. P2"));
    assert!(!report.contains("\n3. P3"));
    assert!(report.contains("... and 3 more"));
}

#[test]
fn report_header_and_combined_block() {
    let mut stats = ChatStats::new(StatsSettings {
        max_words: 10,
        show_entities: true,
        max_participants: 5,
    });
    let stop = StopWordSet::empty();
    let mut m = msg(1, "2021-01-01T10:00:00", "Ann", "aa bb aa", None);
    if let RawMessage::Message { reactions, .. } = &mut m {
        reactions.push(Reaction::Emoji {
            count: 4,
            emoji: String::from("\u{1f600}"),
            recent: vec![],
        });
    }
    stats.analyze(vec![m], &stop);
    let report = stats.render();
    assert!(report.contains("Chat Statistics Summary"));
    assert!(report.contains("Total messages   : 1"));
    assert!(report.contains("Regular messages : 1"));
    assert!(report.contains("Service messages : 0"));
    assert!(report.contains("Edited messages  : 0"));
    assert!(report.contains("Total reactions  : 4"));
    assert!(report.contains("Combined Participant Stats:"));
    assert!(report.contains("- Messages       : 1"));
    assert!(report.contains("- Avg. length    : 8 chars"));
    assert!(report.contains("- Longest message: 8 chars"));
    assert!(report.contains("- Reactions      : \u{1f600}\u{d7}4"));
    assert!(report.contains("- Top words      : aa (2), bb (1)"));
}

#[test]
fn report_shows_entity_histogram_when_enabled() {
    let mut stats = ChatStats::new(StatsSettings {
        max_words: 10,
        show_entities: true,
        max_participants: 5,
    });
    let stop = StopWordSet::empty();
    let mut m = msg(1, "2021-01-01T10:00:00", "Ann", "x", None);
    if let RawMessage::Message { text_entities, .. } = &mut m {
        text_entities.push(tg_export::content::TextEntity {
            entity_type: String::from("link"),
            text: String::from("u"),
        });
        text_entities.push(tg_export::content::TextEntity {
            entity_type: String::from("link"),
            text: String::from("v"),
        });
        text_entities.push(tg_export::content::TextEntity {
            entity_type: String::from("bold"),
            text: String::from("w"),
        });
    }
    stats.analyze(vec![m], &stop);
    let report = stats.render();
    assert!(report.contains("Text Entity Types (2):"));
    assert!(report.contains("- link           :    2\n"));
    assert!(report.contains("- bold           :    1\n"));
}
