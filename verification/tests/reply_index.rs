use tg_export::index::IndexedMessages;
use tg_export::messages::NormalizedMessage;

fn norm(from: &str, text: &str, reply: Option<u64>) -> NormalizedMessage {
    NormalizedMessage {
        date: None,
        from: String::from(from),
        reply_to_message_id: reply,
        text: String::from(text),
        reactions: vec![],
        edited: None,
        text_entities: vec![],
    }
}

#[test]
fn longest_chain_follows_replies_root_first() {
    let mut idx = IndexedMessages::new();
    idx.add_message(1, norm("A", "root", None));
    idx.add_message(2, norm("B", "middle", Some(1)));
    idx.add_message(3, norm("C", "leaf", Some(2)));
    idx.add_message(4, norm("D", "lone", None));
    let chain = idx.longest_chain();
    let texts: Vec<&str> = chain.iter().map(|m| m.text.as_str()).collect();
    assert_eq!(texts, vec!["root", "middle", "leaf"]);
}

#[test]
fn unknown_reply_target_starts_a_new_chain() {
    let mut idx = IndexedMessages::new();
    idx.add_message(10, norm("A", "orphan", Some(99)));
    idx.add_message(11, norm("B", "child", Some(10)));
    let chain = idx.longest_chain();
    let texts: Vec<&str> = chain.iter().map(|m| m.text.as_str()).collect();
    assert_eq!(texts, vec!["orphan", "child"]);
}

#[test]
fn reply_cycle_truncates_instead_of_looping() {
    let mut idx = IndexedMessages::new();
    idx.add_message(1, norm("A", "one", Some(2)));
    idx.add_message(2, norm("B", "two", Some(1)));
    let chain = idx.longest_chain();
    assert!(chain.len() <= 2);
    assert!(!chain.is_empty());
}

#[test]
fn empty_index_has_empty_chain() {
    let idx = IndexedMessages::new();
    assert!(idx.longest_chain().is_empty());
}

#[test]
fn first_maximum_wins_ties() {
    let mut idx = IndexedMessages::new();
    idx.add_message(1, norm("A", "a-root", None));
    idx.add_message(2, norm("A", "a-leaf", Some(1)));
    idx.add_message(3, norm("B", "b-root", None));
    idx.add_message(4, norm("B", "b-leaf", Some(3)));
    let chain = idx.longest_chain();
    let texts: Vec<&str> = chain.iter().map(|m| m.text.as_str()).collect();
    assert_eq!(texts, vec!["a-root", "a-leaf"]);
}
