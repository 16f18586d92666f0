use chat_stats::data::all_users;
use chat_stats::data::message_count_by_user;
use chat_stats::data::search_sequenced;
use chat_stats::data::word_count;
use chat_stats::data::word_frequency;
use chat_stats::data::UserTally;
use chat_stats::data::WordTally;
use chat_stats::model::DeepClone;
use chat_stats::model::Message;
use chat_stats::model::MessageType;
use chat_stats::model::Timestamp;
use chat_stats::model::User;

fn user(id: &str, name: &str, discriminator: &str, nickname: &str) -> User {
    User {
        id: id.to_string(),
        name: name.to_string(),
        discriminator: discriminator.to_string(),
        nickname: nickname.to_string(),
        is_bot: false,
    }
}

fn msg(id: &str, author: User, content: &str) -> Message {
    Message {
        id: id.to_string(),
        mtype: MessageType::Default,
        timestamp: Timestamp { unix_millis: 0 },
        timestamp_edited: None,
        call_ended_timestamp: None,
        is_pinned: false,
        content: content.to_string(),
        author,
        attachments: vec![],
        embeds: vec![],
        stickers: vec![],
        reactions: vec![],
        mentions: vec![],
        reference: None,
    }
}

fn tally_of<'a>(table: &'a [UserTally], id: &str) -> &'a UserTally {
    table
        .iter()
        .find(|t| t.user.id == id)
        .expect("expected a tally for the user")
}

fn word_of<'a>(table: &'a [WordTally], word: &str) -> &'a WordTally {
    table
        .iter()
        .find(|t| t.word == word)
        .expect("expected a tally for the word")
}

#[test]
fn data_test_message_count_by_user() {
    let ayachii = || user("204366690446737419", "ayachii", "0001", "ayachii");
    let astrea = || user("234134781552492545", "Astrea", "1000", "Astrea");
    let deimos = || user("544005059353247754", "Deimos1289", "9434", "Deimos");
    let messages = vec![
        msg("1", ayachii(), "first"),
        msg("2", astrea(), "second"),
        msg("3", astrea(), "third"),
        msg("4", deimos(), "fourth"),
        msg("5", astrea(), "fifth"),
        msg("6", deimos(), "sixth"),
        msg("7", astrea(), "seventh"),
        msg("8", deimos(), "eighth"),
    ];
    let count = message_count_by_user(&messages);
    assert_eq!(count.len(), 3);
    let a = tally_of(&count, "204366690446737419");
    assert_eq!(a.user, ayachii());
    assert_eq!(a.count, 1);
    let b = tally_of(&count, "234134781552492545");
    assert_eq!(b.user, astrea());
    assert_eq!(b.count, 4);
    let c = tally_of(&count, "544005059353247754");
    assert_eq!(c.user, deimos());
    assert_eq!(c.count, 3);
}

#[test]
fn count_by_user_last_write_wins() {
    let u1_old = user("1", "old-name", "0001", "old-nick");
    let u1_new = user("1", "new-name", "0001", "new-nick");
    let u2 = user("2", "other", "0002", "other");
    let messages = vec![
        msg("a", u1_old, "x"),
        msg("b", u2.deep_clone(), "y"),
        msg("c", u1_new.deep_clone(), "z"),
    ];
    let count = message_count_by_user(&messages);
    assert_eq!(count.len(), 2);
    let t1 = tally_of(&count, "1");
    assert_eq!(t1.count, 2);
    // the stored snapshot comes from the third message, not the first
    assert_eq!(t1.user, u1_new);
    let t2 = tally_of(&count, "2");
    assert_eq!(t2.count, 1);
    assert_eq!(t2.user, u2);
}

#[test]
fn count_by_user_sums_to_message_total() {
    let messages = vec![
        msg("a", user("1", "a", "0001", "a"), ""),
        msg("b", user("2", "b", "0002", "b"), ""),
        msg("c", user("1", "a", "0001", "a"), ""),
        msg("d", user("3", "c", "0003", "c"), ""),
        msg("e", user("2", "b", "0002", "b"), ""),
    ];
    let count = message_count_by_user(&messages);
    let total: u64 = count.iter().map(|t| t.count as u64).sum();
    assert_eq!(total, messages.len() as u64);
}

#[test]
fn all_users_distinct_and_last_write_wins() {
    let u1_old = user("1", "old", "0001", "old");
    let u1_new = user("1", "new", "0001", "new");
    let u2 = user("2", "other", "0002", "other");
    let messages = vec![
        msg("a", u1_old, "x"),
        msg("b", u2.deep_clone(), "y"),
        msg("c", u1_new.deep_clone(), "z"),
    ];
    let users = all_users(&messages);
    assert_eq!(users.len(), 2);
    assert!(users.contains(&u1_new));
    assert!(users.contains(&u2));
}

#[test]
fn word_count_two_messages() {
    let messages = vec![
        msg("a", user("1", "a", "0001", "a"), "a b"),
        msg("b", user("1", "a", "0001", "a"), "c"),
    ];
    assert_eq!(word_count(&messages), 3);
}

#[test]
fn word_count_counts_fields_not_words() {
    // consecutive spaces yield empty fields, which are still counted
    let messages = vec![msg("a", user("1", "a", "0001", "a"), "a  b")];
    assert_eq!(word_count(&messages), 3);
    // an empty content is one empty field
    let empty = vec![msg("b", user("1", "a", "0001", "a"), "")];
    assert_eq!(word_count(&empty), 1);
}

#[test]
fn word_frequency_case_folding() {
    let messages = vec![msg("a", user("1", "a", "0001", "a"), "HELLO hello")];
    let freq = word_frequency(&messages, false, false);
    assert_eq!(freq.len(), 1);
    assert_eq!(word_of(&freq, "hello").count, 2);
}

#[test]
fn word_frequency_case_sensitive() {
    let messages = vec![msg("a", user("1", "a", "0001", "a"), "Ab ab")];
    let freq = word_frequency(&messages, true, false);
    assert_eq!(freq.len(), 2);
    assert_eq!(word_of(&freq, "Ab").count, 1);
    assert_eq!(word_of(&freq, "ab").count, 1);
}

#[test]
fn word_frequency_alphanumeric_filter() {
    let messages = vec![msg("a", user("1", "a", "0001", "a"), "world! abc123")];
    let freq = word_frequency(&messages, false, true);
    assert_eq!(freq.len(), 2);
    // digits survive the alphanumeric filter, punctuation does not
    assert_eq!(word_of(&freq, "world").count, 1);
    assert_eq!(word_of(&freq, "abc123").count, 1);
    assert!(freq.iter().all(|t| t.word != "world!"));
}

#[test]
fn word_frequency_never_counts_empty_words() {
    // "!!!" filters to nothing and the double space yields an empty field
    let messages = vec![msg("a", user("1", "a", "0001", "a"), "!!! a  b")];
    let freq = word_frequency(&messages, false, true);
    assert!(freq.iter().all(|t| !t.word.is_empty()));
    assert_eq!(freq.len(), 2);
    assert_eq!(word_of(&freq, "a").count, 1);
    assert_eq!(word_of(&freq, "b").count, 1);
}

#[test]
fn search_window_around_middle_match() {
    let a = || user("1", "a", "0001", "a");
    let messages = vec![
        msg("0", a(), "zero"),
        msg("1", a(), "one"),
        msg("2", a(), "say Hello there"),
        msg("3", a(), "three"),
        msg("4", a(), "four"),
    ];
    let found = search_sequenced(&messages, "hello", 1);
    assert_eq!(found.len(), 1);
    let ids: Vec<&str> = found[0].iter().map(|m| m.id.as_str()).collect();
    assert_eq!(ids, vec!["1", "2", "3"]);
}

#[test]
fn search_window_clamped_at_both_ends() {
    let a = || user("1", "a", "0001", "a");
    let messages = vec![
        msg("0", a(), "x marks the spot"),
        msg("1", a(), "one"),
        msg("2", a(), "two"),
    ];
    let found = search_sequenced(&messages, "x", 5);
    assert_eq!(found.len(), 1);
    let ids: Vec<&str> = found[0].iter().map(|m| m.id.as_str()).collect();
    assert_eq!(ids, vec!["0", "1", "2"]);
}

#[test]
fn search_distance_zero_gives_single_message_windows() {
    let a = || user("1", "a", "0001", "a");
    let messages = vec![
        msg("0", a(), "quiet"),
        msg("1", a(), "needle here"),
        msg("2", a(), "quiet"),
    ];
    let found = search_sequenced(&messages, "needle", 0);
    assert_eq!(found.len(), 1);
    assert_eq!(found[0].len(), 1);
    assert_eq!(found[0][0].id, "1");
}

#[test]
fn search_overlapping_windows_are_kept_apart() {
    let a = || user("1", "a", "0001", "a");
    let messages = vec![
        msg("0", a(), "hit"),
        msg("1", a(), "hit"),
        msg("2", a(), "miss"),
    ];
    let found = search_sequenced(&messages, "hit", 1);
    assert_eq!(found.len(), 2);
    let ids0: Vec<&str> = found[0].iter().map(|m| m.id.as_str()).collect();
    let ids1: Vec<&str> = found[1].iter().map(|m| m.id.as_str()).collect();
    assert_eq!(ids0, vec!["0", "1"]);
    assert_eq!(ids1, vec!["0", "1", "2"]);
}

#[test]
fn search_is_case_insensitive_on_content() {
    let a = || user("1", "a", "0001", "a");
    let messages = vec![msg("0", a(), "HELLO WORLD")];
    let found = search_sequenced(&messages, "hello", 0);
    assert_eq!(found.len(), 1);
    // the term itself is not folded: an uppercase term misses
    let missed = search_sequenced(&messages, "HELLO", 0);
    assert_eq!(missed.len(), 0);
}

#[test]
fn empty_input_yields_empty_results() {
    let messages: Vec<Message> = vec![];
    assert_eq!(message_count_by_user(&messages).len(), 0);
    assert_eq!(all_users(&messages).len(), 0);
    assert_eq!(word_frequency(&messages, false, true).len(), 0);
    assert_eq!(word_count(&messages), 0);
    assert_eq!(search_sequenced(&messages, "anything", 3).len(), 0);
}

#[test]
fn analytics_are_idempotent_on_unmutated_input() {
    let a = || user("1", "a", "0001", "a");
    let b = || user("2", "b", "0002", "b");
    let messages = vec![
        msg("0", a(), "Hello there, WORLD!"),
        msg("1", b(), "hello again"),
        msg("2", a(), "quiet"),
    ];
    assert_eq!(message_count_by_user(&messages), message_count_by_user(&messages));
    assert_eq!(all_users(&messages), all_users(&messages));
    assert_eq!(
        word_frequency(&messages, false, true),
        word_frequency(&messages, false, true)
    );
    assert_eq!(word_count(&messages), word_count(&messages));
    assert_eq!(
        search_sequenced(&messages, "hello", 1),
        search_sequenced(&messages, "hello", 1)
    );
}
