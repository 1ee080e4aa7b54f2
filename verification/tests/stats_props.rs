use tg_export::content::{Text, TextEntity};
use tg_export::messages::{RawMessage, Reaction, RecentReaction};
use tg_export::stats::{ChatStats, StatsSettings, StopWordSet, UserStats};

fn settings() -> StatsSettings {
    StatsSettings { max_words: 10, show_entities: true, max_participants: 5 }
}

fn regular(
    id: u64,
    from: &str,
    text: &str,
    reply: Option<u64>,
    edited_unixtime: Option<&str>,
    reactions: Vec<Reaction>,
) -> RawMessage {
    RawMessage::Message {
        id,
        date: String::from("2021-01-01T10:00:00"),
        date_unixtime: String::from("1609495200"),
        from: String::from(from),
        from_id: format!("user{}", id),
        reply_to_message_id: reply,
        text: Text::Plain(String::from(text)),
        text_entities: vec![],
        edited: edited_unixtime.map(|_| String::from("2021-01-01T11:00:00")),
        edited_unixtime: edited_unixtime.map(String::from),
        reactions,
    }
}

fn service(id: u64, kinds: Vec<&str>) -> RawMessage {
    RawMessage::Service {
        id,
        date: String::from("2021-01-01T09:00:00"),
        date_unixtime: String::from("1609491600"),
        actor: String::from("Admin"),
        actor_id: String::from("admin1"),
        action: String::from("create_group"),
        duration_seconds: None,
        discard_reason: None,
        text: Text::Plain(String::from("")),
        text_entities: kinds
            .into_iter()
            .map(|k| TextEntity { entity_type: String::from(k), text: String::from("x") })
            .collect(),
    }
}

#[test]
fn word_counting_lowercases_and_counts() {
    let mut stats = ChatStats::new(settings());
    let stop = StopWordSet::empty();
    stats.analyze(vec![regular(1, "Alice", "Hello hello world", None, None, vec![])], &stop);
    assert_eq!(stats.participants.len(), 1);
    let (name, user) = &stats.participants[0];
    assert_eq!(name, "Alice");
    assert_eq!(user.words.get(&String::from("hello")), 2);
    assert_eq!(user.words.get(&String::from("world")), 1);
    assert_eq!(user.words.get(&String::from("absent")), 0);
}

#[test]
fn stop_words_are_excluded() {
    let mut stats = ChatStats::new(settings());
    let stop = StopWordSet::new(vec![String::from("the")]);
    stats.analyze(vec![regular(1, "A", "the quick the fox", None, None, vec![])], &stop);
    let user = &stats.participants[0].1;
    assert_eq!(user.words.get(&String::from("the")), 0);
    assert_eq!(user.words.get(&String::from("quick")), 1);
    assert_eq!(user.words.get(&String::from("fox")), 1);
}

#[test]
fn service_messages_are_tallied_but_excluded() {
    let mut stats = ChatStats::new(settings());
    let stop = StopWordSet::empty();
    stats.analyze(
        vec![service(1, vec!["bold", "link"]), regular(2, "A", "hi", None, None, vec![])],
        &stop,
    );
    assert_eq!(stats.service_messages, 1);
    assert_eq!(stats.messages, 1);
    assert_eq!(stats.participants.len(), 1);
    assert_eq!(stats.participants[0].0, "A");
    assert_eq!(stats.text_entity_types.get(&String::from("bold")), 1);
    assert_eq!(stats.text_entity_types.get(&String::from("link")), 1);
}

#[test]
fn edited_and_timestamps_are_recorded() {
    let mut stats = ChatStats::new(settings());
    let stop = StopWordSet::empty();
    stats.analyze(
        vec![regular(1, "A", "one", None, Some("1609498800"), vec![])],
        &stop,
    );
    assert_eq!(stats.edited, 1);
    let user = &stats.participants[0].1;
    assert_eq!(user.first_message, Some(1609495200));
    assert_eq!(user.last_message, Some(1609495200));
}

#[test]
fn malformed_timestamp_degrades_to_absent() {
    let mut stats = ChatStats::new(settings());
    let stop = StopWordSet::empty();
    let mut m = regular(1, "A", "one", None, None, vec![]);
    if let RawMessage::Message { date_unixtime, .. } = &mut m {
        *date_unixtime = String::from("not-a-number");
    }
    stats.analyze(vec![m], &stop);
    let user = &stats.participants[0].1;
    assert_eq!(user.first_message, None);
    assert_eq!(user.last_message, None);
    assert_eq!(user.count, 1);
}

#[test]
fn reactions_sum_by_key() {
    let mut stats = ChatStats::new(settings());
    let stop = StopWordSet::empty();
    let rx = vec![
        Reaction::Emoji { count: 2, emoji: String::from("\u{1f44d}"), recent: vec![] },
        Reaction::CustomEmoji { count: 3, document_id: String::from("doc9"), recent: vec![] },
        Reaction::Emoji { count: 1, emoji: String::from("\u{1f44d}"), recent: vec![] },
    ];
    stats.analyze(vec![regular(1, "A", "hi", None, None, rx)], &stop);
    let user = &stats.participants[0].1;
    assert_eq!(user.received_reactions.get(&String::from("\u{1f44d}")), 3);
    assert_eq!(user.received_reactions.get(&String::from("doc9")), 3);
}

#[test]
fn avg_chars_is_integer_quotient_and_zero_on_empty() {
    let empty = UserStats::new();
    assert_eq!(empty.avg_chars(), 0);
    let mut u = UserStats::new();
    let stop = StopWordSet::empty();
    u.add_message(&String::from("abcde"), &stop, None);
    u.add_message(&String::from("ab"), &stop, None);
    assert_eq!(u.count, 2);
    assert_eq!(u.total_chars, 7);
    assert_eq!(u.avg_chars(), 3);
    assert_eq!(u.max_chars, 5);
}

#[test]
fn combine_sums_and_merges() {
    let stop = StopWordSet::empty();
    let mut a = UserStats::new();
    a.add_message(&String::from("alpha beta"), &stop, Some(100));
    let mut b = UserStats::new();
    b.add_message(&String::from("beta gamma"), &stop, Some(50));
    let ab = a.combine(&b);
    let ba = b.combine(&a);
    assert_eq!(ab.count, 2);
    assert_eq!(ab.total_chars, 20);
    assert_eq!(ab.max_chars, 10);
    assert_eq!(ab.first_message, Some(50));
    assert_eq!(ab.last_message, Some(100));
    assert_eq!(ab.words.get(&String::from("beta")), 2);
    assert_eq!(ab.words.get(&String::from("alpha")), 1);
    assert_eq!(ab.words.get(&String::from("gamma")), 1);
    assert_eq!(ba.words.get(&String::from("beta")), 2);
    assert_eq!(ab.count, ba.count);
    assert_eq!(ab.first_message, ba.first_message);
    assert_eq!(ab.last_message, ba.last_message);
}

#[test]
fn combine_with_identity_is_unchanged() {
    let stop = StopWordSet::empty();
    let mut a = UserStats::new();
    a.add_message(&String::from("only one"), &stop, Some(7));
    let z = UserStats::new();
    let az = a.combine(&z);
    assert_eq!(az.count, a.count);
    assert_eq!(az.total_chars, a.total_chars);
    assert_eq!(az.max_chars, a.max_chars);
    assert_eq!(az.first_message, a.first_message);
    assert_eq!(az.last_message, a.last_message);
    assert_eq!(az.words.get(&String::from("only")), 1);
    assert_eq!(az.words.get(&String::from("one")), 1);
}

#[test]
fn top_words_sorted_desc_and_truncated() {
    let stop = StopWordSet::empty();
    let mut u = UserStats::new();
    u.add_message(&String::from("b b b a a c"), &stop, None);
    let top = u.top_words(2);
    assert_eq!(top.len(), 2);
    assert_eq!(top[0].0, "b");
    assert_eq!(top[0].1, 3);
    assert_eq!(top[1].0, "a");
    assert_eq!(top[1].1, 2);
    let all = u.top_words(10);
    assert_eq!(all.len(), 3);
    assert_eq!(all[2].0, "c");
}

#[test]
fn multiple_senders_keep_first_appearance_order() {
    let mut stats = ChatStats::new(settings());
    let stop = StopWordSet::empty();
    stats.analyze(
        vec![
            regular(1, "Bob", "x", None, None, vec![]),
            regular(2, "Alice", "yy", None, None, vec![]),
            regular(3, "Bob", "zzz", None, None, vec![]),
        ],
        &stop,
    );
    assert_eq!(stats.participants.len(), 2);
    assert_eq!(stats.participants[0].0, "Bob");
    assert_eq!(stats.participants[1].0, "Alice");
    assert_eq!(stats.participants[0].1.count, 2);
    assert_eq!(stats.participants[0].1.total_chars, 4);
    assert_eq!(stats.participants[1].1.count, 1);
}

#[test]
fn reactor_sample_does_not_affect_counts() {
    let mut stats = ChatStats::new(settings());
    let stop = StopWordSet::empty();
    let rx = vec![Reaction::Emoji {
        count: 5,
        emoji: String::from("\u{2764}"),
        recent: vec![RecentReaction {
            from: String::from("Zoe"),
            from_id: String::from("z1"),
            date: String::from("2021-01-02T00:00:00"),
        }],
    }];
    stats.analyze(vec![regular(1, "A", "hi", None, None, rx)], &stop);
    let user = &stats.participants[0].1;
    assert_eq!(user.received_reactions.get(&String::from("\u{2764}")), 5);
}
