use chat_leaderboard::params::{ConfigError, Params, Query};

fn args(list: &[&str]) -> Vec<String> {
    list.iter().map(|a| a.to_string()).collect()
}

#[test]
fn new_params_ask_for_nothing() {
    let p = Params::new();
    assert_eq!(p.channel, None);
    assert_eq!(p.username, None);
    assert!(!p.top);
    assert_eq!(p.leaderboard_len, 10);
}

#[test]
fn channel_alone_asks_for_the_channel_emotes() {
    let p = Params::parse(&args(&["prog", "--channel", "forsen"])).unwrap();
    assert_eq!(p.channel.as_deref(), Some("forsen"));
    assert_eq!(p.username, None);
    assert!(!p.top);
    assert_eq!(p.leaderboard_len, 10);
    assert_eq!(
        p.into_query(),
        Ok(Query::ChannelEmotes { channel: "forsen".to_string(), length: 10 })
    );
}

#[test]
fn user_asks_for_that_users_emotes() {
    let p = Params::parse(&args(&["prog", "--user", "bob", "--channel", "forsen", "--length", "3"])).unwrap();
    assert_eq!(
        p.into_query(),
        Ok(Query::UserEmotes { channel: "forsen".to_string(), username: "bob".to_string(), length: 3 })
    );
}

#[test]
fn top_asks_for_recent_chatters_with_25_by_default() {
    let p = Params::parse(&args(&["prog", "--top", "--channel", "forsen"])).unwrap();
    assert!(p.top);
    assert_eq!(p.leaderboard_len, 25);
    assert_eq!(
        p.into_query(),
        Ok(Query::RecentChatters { channel: "forsen".to_string(), length: 25 })
    );
}

#[test]
fn given_length_overrides_either_default() {
    let p = Params::parse(&args(&["prog", "--channel", "c", "--top", "--length", "7"])).unwrap();
    assert_eq!(p.leaderboard_len, 7);
    let p = Params::parse(&args(&["prog", "--length", "10", "--channel", "c", "--top"])).unwrap();
    assert_eq!(p.leaderboard_len, 10);
    let p = Params::parse(&args(&["prog", "--channel", "c", "--length", "0"])).unwrap();
    assert_eq!(p.leaderboard_len, 0);
    let p = Params::parse(&args(&["prog", "--channel", "c", "--length", "+12"])).unwrap();
    assert_eq!(p.leaderboard_len, 12);
}

#[test]
fn top_wins_over_user() {
    let p = Params::parse(&args(&["prog", "--channel", "c", "--user", "u", "--top"])).unwrap();
    assert_eq!(p.username.as_deref(), Some("u"));
    assert_eq!(p.into_query(), Ok(Query::RecentChatters { channel: "c".to_string(), length: 25 }));
}

#[test]
fn later_option_overrides_earlier() {
    let p = Params::parse(&args(&["prog", "--channel", "a", "--channel", "b", "--length", "1", "--length", "2"])).unwrap();
    assert_eq!(p.channel.as_deref(), Some("b"));
    assert_eq!(p.leaderboard_len, 2);
}

#[test]
fn value_that_looks_like_an_option_is_a_value() {
    let p = Params::parse(&args(&["prog", "--channel", "--top"])).unwrap();
    assert_eq!(p.channel.as_deref(), Some("--top"));
    assert!(!p.top);
}

#[test]
fn first_argument_is_passed_over() {
    let p = Params::parse(&args(&["--top", "--channel", "c"])).unwrap();
    assert!(!p.top);
    assert_eq!(p.leaderboard_len, 10);
}

#[test]
fn missing_channel_is_refused() {
    assert_eq!(Params::parse(&args(&["prog"])), Err(ConfigError::MissingChannel));
    assert_eq!(Params::parse(&args(&[])), Err(ConfigError::MissingChannel));
    assert_eq!(Params::parse(&args(&["prog", "--top", "--user", "u"])), Err(ConfigError::MissingChannel));
    assert_eq!(Params::new().into_query(), Err(ConfigError::MissingChannel));
}

#[test]
fn option_without_value_is_refused() {
    assert_eq!(Params::parse(&args(&["prog", "--channel"])), Err(ConfigError::MissingValue));
    assert_eq!(Params::parse(&args(&["prog", "--channel", "c", "--user"])), Err(ConfigError::MissingValue));
    assert_eq!(Params::parse(&args(&["prog", "--channel", "c", "--length"])), Err(ConfigError::MissingValue));
}

#[test]
fn length_that_is_no_number_is_refused() {
    for bad in ["ten", "-1", "", "1.5", "99999999999999999999999999"] {
        assert_eq!(
            Params::parse(&args(&["prog", "--channel", "c", "--length", bad])),
            Err(ConfigError::InvalidLength),
            "{:?}",
            bad
        );
    }
}

#[test]
fn unknown_argument_is_refused() {
    assert_eq!(Params::parse(&args(&["prog", "--chanel", "c"])), Err(ConfigError::UnrecognizedArgument));
    assert_eq!(Params::parse(&args(&["prog", "--channel", "c", "extra"])), Err(ConfigError::UnrecognizedArgument));
    assert_eq!(Params::parse(&args(&["prog", "--TOP"])), Err(ConfigError::UnrecognizedArgument));
    assert_eq!(Params::parse(&args(&["prog", "-c", "x"])), Err(ConfigError::UnrecognizedArgument));
}

#[test]
fn first_error_wins() {
    assert_eq!(Params::parse(&args(&["prog", "--length", "x", "--bogus"])), Err(ConfigError::InvalidLength));
    assert_eq!(Params::parse(&args(&["prog", "--bogus", "--length", "x"])), Err(ConfigError::UnrecognizedArgument));
    assert_eq!(Params::parse(&args(&["prog", "--bogus"])), Err(ConfigError::UnrecognizedArgument));
}
