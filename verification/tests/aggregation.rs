use chat_leaderboard::aggregate::{
    count_chatters, count_emotes, count_recent_chatters, AggregateError,
};
use chat_leaderboard::emotes::EmoteSet;
use chat_leaderboard::frequency::FrequencyTable;
use chat_leaderboard::leaderboard::leaderboard;
use chat_leaderboard::message::ChatMessage;
use chat_leaderboard::tokens::{is_whitespace_char, tokenize};

fn msg(name: &str, text: &str, tag: &str) -> ChatMessage {
    ChatMessage::new(name.to_string(), text.to_string(), tag.to_string())
}

fn emote_set(names: &[&str]) -> EmoteSet {
    EmoteSet::from_lists(names.iter().map(|n| n.to_string()).collect(), Vec::new())
}

fn count(table: &FrequencyTable, label: &str) -> u32 {
    table.count_of(&label.to_string())
}

#[test]
fn kappa_scenario_counts_three_and_tops_the_board() {
    let transcript = vec![msg("a", "Kappa hello Kappa", "1"), msg("b", "world Kappa", "2")];
    let table = count_emotes(&transcript, &emote_set(&["Kappa"])).unwrap();
    assert_eq!(table.len(), 1);
    assert_eq!(count(&table, "Kappa"), 3);
    assert_eq!(count(&table, "hello"), 0);
    assert_eq!(count(&table, "world"), 0);
    let board = leaderboard(&table, 1);
    assert_eq!(board.len(), 1);
    assert_eq!(board[0].label, "Kappa");
    assert_eq!(board[0].count, 3);
}

#[test]
fn tokens_count_only_on_exact_match() {
    let transcript = vec![msg("a", "Kappa kappa KAPPA Kappa! Kappa", "1")];
    let table = count_emotes(&transcript, &emote_set(&["Kappa"])).unwrap();
    assert_eq!(count(&table, "Kappa"), 2);
    assert_eq!(count(&table, "kappa"), 0);
    assert_eq!(count(&table, "KAPPA"), 0);
    assert_eq!(count(&table, "Kappa!"), 0);
    assert_eq!(table.len(), 1);
}

#[test]
fn case_variants_have_counts_of_their_own() {
    let transcript = vec![msg("a", "Kappa kappa Kappa", "1"), msg("b", "kappa", "2")];
    let table = count_emotes(&transcript, &emote_set(&["Kappa", "kappa"])).unwrap();
    assert_eq!(count(&table, "Kappa"), 2);
    assert_eq!(count(&table, "kappa"), 2);
    assert_eq!(table.len(), 2);
}

#[test]
fn emote_that_never_occurs_is_not_in_the_table() {
    let transcript = vec![msg("a", "hello world", "1")];
    let table = count_emotes(&transcript, &emote_set(&["Kappa", "PogChamp"])).unwrap();
    assert_eq!(table.len(), 0);
    assert!(table.is_empty());
    assert!(leaderboard(&table, 10).is_empty());
}

#[test]
fn empty_transcript_gives_empty_table() {
    let table = count_emotes(&Vec::new(), &emote_set(&["Kappa"])).unwrap();
    assert!(table.is_empty());
    let table = count_chatters(&Vec::new()).unwrap();
    assert!(table.is_empty());
}

#[test]
fn aggregating_twice_gives_the_same_table() {
    let transcript = vec![
        msg("a", "Kappa LUL Kappa", "1"),
        msg("b", "LUL  LUL\tKappa", "2"),
        msg("c", "nothing here", "3"),
    ];
    let emotes = emote_set(&["Kappa", "LUL", "PogChamp"]);
    let first = count_emotes(&transcript, &emotes).unwrap();
    let second = count_emotes(&transcript, &emotes).unwrap();
    assert_eq!(first.entries(), second.entries());
    assert_eq!(count(&first, "Kappa"), 3);
    assert_eq!(count(&first, "LUL"), 3);
    assert_eq!(count(&second, "PogChamp"), 0);
}

#[test]
fn emote_set_is_the_union_of_both_lists() {
    let set = EmoteSet::from_lists(
        vec!["Kappa".to_string(), "LUL".to_string()],
        vec!["LUL".to_string(), "PogChamp".to_string()],
    );
    assert!(set.contains(&"Kappa".to_string()));
    assert!(set.contains(&"LUL".to_string()));
    assert!(set.contains(&"PogChamp".to_string()));
    assert!(!set.contains(&"kappa".to_string()));
    assert!(!set.contains(&"".to_string()));
    let mut grown = EmoteSet::new();
    assert!(!grown.contains(&"OMEGALUL".to_string()));
    grown.insert("OMEGALUL".to_string());
    assert!(grown.contains(&"OMEGALUL".to_string()));
}

#[test]
fn tokenize_splits_at_any_amount_of_whitespace() {
    assert_eq!(tokenize("Kappa hello Kappa"), vec!["Kappa", "hello", "Kappa"]);
    assert_eq!(tokenize("  lead and trail  "), vec!["lead", "and", "trail"]);
    assert_eq!(tokenize("a\tb\nc\r\nd"), vec!["a", "b", "c", "d"]);
    assert_eq!(tokenize(""), Vec::<String>::new());
    assert_eq!(tokenize(" \t\n "), Vec::<String>::new());
    assert_eq!(tokenize("single"), vec!["single"]);
}

#[test]
fn tokenize_knows_unicode_whitespace() {
    assert_eq!(tokenize("a\u{00a0}b\u{2003}c\u{3000}d"), vec!["a", "b", "c", "d"]);
    assert_eq!(tokenize("zero\u{200b}width"), vec!["zero\u{200b}width"]);
    assert_eq!(tokenize("h\u{e9}llo w\u{f6}rld \u{1f600}"), vec!["h\u{e9}llo", "w\u{f6}rld", "\u{1f600}"]);
}

#[test]
fn tokenize_agrees_with_split_whitespace() {
    let samples = [
        "Kappa hello Kappa",
        " x  y ",
        "\u{85}next\u{1680}line\u{2028}sep\u{2029}par\u{202f}narrow\u{205f}math",
        "\u{0b}vt\u{0c}ff",
        "no-break\u{feff}bom",
        "",
    ];
    for s in samples {
        let expected: Vec<String> = s.split_whitespace().map(|w| w.to_string()).collect();
        assert_eq!(tokenize(s), expected);
    }
}

#[test]
fn whitespace_predicate_agrees_with_std_on_every_char() {
    let mut c = 0u32;
    while c <= 0x10ffff {
        if let Some(ch) = char::from_u32(c) {
            assert_eq!(is_whitespace_char(ch), ch.is_whitespace(), "U+{:04X}", c);
        }
        c += 1;
    }
}

#[test]
fn chatters_are_counted_by_display_name() {
    let transcript = vec![
        msg("alice", "hi", "1"),
        msg("bob", "hello", "2"),
        msg("alice", "again", "3"),
        msg("Alice", "other person", "4"),
    ];
    let table = count_chatters(&transcript).unwrap();
    assert_eq!(count(&table, "alice"), 2);
    assert_eq!(count(&table, "bob"), 1);
    assert_eq!(count(&table, "Alice"), 1);
    assert_eq!(count(&table, "carol"), 0);
    assert_eq!(table.len(), 3);
}

#[test]
fn chatters_need_no_readable_timestamp() {
    let transcript = vec![msg("alice", "hi", ""), msg("alice", "hi", "not a number")];
    let table = count_chatters(&transcript).unwrap();
    assert_eq!(count(&table, "alice"), 2);
}

#[test]
fn yesterday_message_at_the_cutoff_is_left_out() {
    let cutoff = 1_670_976_000_000i64;
    let yesterday = vec![msg("edge", "at midnight", "1670976000000")];
    let table = count_recent_chatters(&Vec::new(), &yesterday, cutoff).unwrap();
    assert_eq!(count(&table, "edge"), 0);
    assert!(table.is_empty());
}

#[test]
fn yesterday_message_one_millisecond_after_the_cutoff_counts() {
    let cutoff = 1_670_976_000_000i64;
    let yesterday = vec![msg("edge", "just after", "1670976000001")];
    let table = count_recent_chatters(&Vec::new(), &yesterday, cutoff).unwrap();
    assert_eq!(count(&table, "edge"), 1);
}

#[test]
fn yesterday_is_filtered_message_by_message() {
    let cutoff = 1000i64;
    let today = vec![msg("alice", "t1", "5000"), msg("bob", "t2", "1")];
    let yesterday = vec![
        msg("alice", "y1", "999"),
        msg("alice", "y2", "1001"),
        msg("carol", "y3", "1000"),
        msg("dave", "y4", "+2000"),
        msg("bob", "y5", "-5"),
    ];
    let table = count_recent_chatters(&today, &yesterday, cutoff).unwrap();
    assert_eq!(count(&table, "alice"), 2);
    assert_eq!(count(&table, "bob"), 1);
    assert_eq!(count(&table, "carol"), 0);
    assert_eq!(count(&table, "dave"), 1);
    assert_eq!(table.len(), 3);
}

#[test]
fn today_counts_whatever_its_timestamps() {
    let today = vec![msg("alice", "t1", "garbage"), msg("alice", "t2", "0")];
    let table = count_recent_chatters(&today, &Vec::new(), i64::MAX).unwrap();
    assert_eq!(count(&table, "alice"), 2);
}

#[test]
fn unreadable_timestamp_of_yesterday_is_an_error() {
    let yesterday = vec![msg("alice", "y1", "2000"), msg("bob", "y2", "12x4")];
    let r = count_recent_chatters(&Vec::new(), &yesterday, 0);
    assert_eq!(r.err(), Some(AggregateError::MalformedTimestamp));
    let yesterday = vec![msg("alice", "y1", "")];
    let r = count_recent_chatters(&Vec::new(), &yesterday, 0);
    assert_eq!(r.err(), Some(AggregateError::MalformedTimestamp));
    let yesterday = vec![msg("alice", "y1", "9223372036854775808")];
    let r = count_recent_chatters(&Vec::new(), &yesterday, 0);
    assert_eq!(r.err(), Some(AggregateError::MalformedTimestamp));
}

#[test]
fn extreme_cutoffs() {
    let yesterday = vec![
        msg("low", "y", "-9223372036854775808"),
        msg("high", "y", "9223372036854775807"),
    ];
    let table = count_recent_chatters(&Vec::new(), &yesterday, i64::MIN).unwrap();
    assert_eq!(count(&table, "low"), 0);
    assert_eq!(count(&table, "high"), 1);
    let table = count_recent_chatters(&Vec::new(), &yesterday, i64::MAX).unwrap();
    assert!(table.is_empty());
}

#[test]
fn sent_at_is_read_from_the_tag() {
    assert_eq!(msg("a", "b", "1670976000001").sent_at_epoch_millis(), Some(1_670_976_000_001));
    assert_eq!(msg("a", "b", "-1").sent_at_epoch_millis(), Some(-1));
    assert_eq!(msg("a", "b", "1.5").sent_at_epoch_millis(), None);
    assert_eq!(msg("a", "b", " 15").sent_at_epoch_millis(), None);
}

#[test]
fn record_counts_one_by_one() {
    let mut table = FrequencyTable::new();
    assert!(table.record(&"x".to_string()));
    assert!(table.record(&"y".to_string()));
    assert!(table.record(&"x".to_string()));
    assert_eq!(count(&table, "x"), 2);
    assert_eq!(count(&table, "y"), 1);
    assert_eq!(count(&table, "z"), 0);
    assert_eq!(table.len(), 2);
}
