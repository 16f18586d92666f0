use chat_stats::model::DeepClone;
use chat_stats::model::Message;
use chat_stats::model::MessageType;
use chat_stats::model::Timestamp;
use chat_stats::model::User;
use chat_stats::stats::all_users;
use chat_stats::stats::message_count_by_user;
use chat_stats::stats::top_words;
use chat_stats::stats::word_count;

fn stats_user(id: &str, name: &str, discriminator: &str, nickname: &str) -> User {
    User {
        id: id.to_string(),
        name: name.to_string(),
        discriminator: discriminator.to_string(),
        nickname: nickname.to_string(),
        is_bot: false,
    }
}

fn stats_msg(id: &str, author: User, content: &str) -> Message {
    Message {
        id: id.to_string(),
        mtype: MessageType::Default,
        timestamp: Timestamp { unix_millis: 0 },
        timestamp_edited: None,
        call_ended_timestamp: None,
        is_pinned: false,
        content: content.to_string(),
        author,
        attachments: vec![],
        embeds: vec![],
        stickers: vec![],
        reactions: vec![],
        mentions: vec![],
        reference: None,
    }
}

#[test]
fn stats_test_message_count_by_user() {
    let ayachii = || stats_user("204366690446737419", "ayachii", "0001", "ayachii");
    let astrea = || stats_user("234134781552492545", "Astrea", "1000", "Astrea");
    let deimos = || stats_user("544005059353247754", "Deimos1289", "9434", "Deimos");
    let messages = vec![
        stats_msg("1", ayachii(), "first"),
        stats_msg("2", astrea(), "second"),
        stats_msg("3", astrea(), "third"),
        stats_msg("4", deimos(), "fourth"),
        stats_msg("5", astrea(), "fifth"),
        stats_msg("6", deimos(), "sixth"),
        stats_msg("7", astrea(), "seventh"),
        stats_msg("8", deimos(), "eighth"),
    ];
    let count = message_count_by_user(&messages);
    assert_eq!(count.len(), 3);
    let a = count
        .iter()
        .find(|t| t.user.id == "204366690446737419")
        .expect("expected a tally");
    assert_eq!(a.user, ayachii());
    assert_eq!(a.count, 1);
    let b = count
        .iter()
        .find(|t| t.user.id == "234134781552492545")
        .expect("expected a tally");
    assert_eq!(b.user, astrea());
    assert_eq!(b.count, 4);
    let c = count
        .iter()
        .find(|t| t.user.id == "544005059353247754")
        .expect("expected a tally");
    assert_eq!(c.user, deimos());
    assert_eq!(c.count, 3);
}

#[test]
fn stats_all_users_matches_data_variant() {
    let u1 = stats_user("1", "a", "0001", "a");
    let u2 = stats_user("2", "b", "0002", "b");
    let messages = vec![
        stats_msg("0", u1.deep_clone(), "x"),
        stats_msg("1", u2.deep_clone(), "y"),
        stats_msg("2", u1.deep_clone(), "z"),
    ];
    let users = all_users(&messages);
    assert_eq!(users.len(), 2);
    assert!(users.contains(&u1));
    assert!(users.contains(&u2));
}

#[test]
fn top_words_keeps_letters_only() {
    let messages = vec![stats_msg("0", stats_user("1", "a", "0001", "a"), "abc123 abc")];
    let words = top_words(&messages, false, true);
    // "abc123" loses its digits under the letters-only filter
    assert_eq!(words.len(), 1);
    assert_eq!(words[0].word, "abc");
    assert_eq!(words[0].count, 2);
}

#[test]
fn top_words_unrestricted_keeps_fields_whole() {
    let messages = vec![stats_msg("0", stats_user("1", "a", "0001", "a"), "abc123 ABC")];
    let words = top_words(&messages, false, false);
    assert_eq!(words.len(), 2);
    assert!(words.iter().any(|t| t.word == "abc123" && t.count == 1));
    assert!(words.iter().any(|t| t.word == "abc" && t.count == 1));
}

#[test]
fn stats_word_count_matches_field_splitting() {
    let messages = vec![
        stats_msg("0", stats_user("1", "a", "0001", "a"), "a b"),
        stats_msg("1", stats_user("1", "a", "0001", "a"), "c"),
    ];
    assert_eq!(word_count(&messages), 3);
}
