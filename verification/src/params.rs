//! Run parameters of a leaderboard query, and how the command line gives
//! them.

use vstd::prelude::*;
use crate::decimal::{decimal_usize, parse_usize};
use crate::text::string_views;

verus! {

/// The leaderboard length of the emote leaderboards where none is given.
pub const DEFAULT_EMOTE_LENGTH: usize = 10;

/// The leaderboard length of the recent-chatter leaderboard where none is
/// given.
pub const DEFAULT_CHATTER_LENGTH: usize = 25;

/// Why the command line gives no parameters.
#[derive(Debug, Clone, Copy, PartialEq, Eq, Structural)]
pub enum ConfigError {
    /// An option that takes a value stands last.
    MissingValue,
    /// The value of `--length` is no unsigned decimal number.
    InvalidLength,
    /// An argument is none of the options.
    UnrecognizedArgument,
    /// No channel is named.
    MissingChannel,
}

/// What the caller asked for: the channel, an optional single user, the
/// leaderboard kind and the leaderboard length.
#[derive(Debug, Clone, PartialEq, Eq)]
pub struct Params {
    pub channel: Option<String>,
    pub username: Option<String>,
    pub top: bool,
    pub leaderboard_len: usize,
}

/// The mathematical content of [`Params`].
pub struct ParamsView {
    pub channel: Option<Seq<char>>,
    pub username: Option<Seq<char>>,
    pub top: bool,
    pub leaderboard_len: usize,
}

impl View for Params {
    type V = ParamsView;

    open spec fn view(&self) -> ParamsView {
        ParamsView {
            channel: match self.channel {
                Some(c) => Some(c@),
                None => None,
            },
            username: match self.username {
                Some(u) => Some(u@),
                None => None,
            },
            top: self.top,
            leaderboard_len: self.leaderboard_len,
        }
    }
}

/// The parameters before any option has been read.
pub open spec fn initial_params() -> ParamsView {
    ParamsView { channel: None, username: None, top: false, leaderboard_len: DEFAULT_EMOTE_LENGTH }
}

/// What the options read so far amount to once the command line ends:
/// a channel must be named, and a recent-chatter leaderboard without a given
/// length gets its own default.
pub open spec fn finish(acc: ParamsView, length_given: bool) -> Result<ParamsView, ConfigError> {
    if acc.channel is None {
        Err(ConfigError::MissingChannel)
    } else if acc.top && !length_given {
        Ok(ParamsView { leaderboard_len: DEFAULT_CHATTER_LENGTH, ..acc })
    } else {
        Ok(acc)
    }
}

/// The parameters that the arguments from position `i` on give, `acc` being
/// what the arguments before gave. `--channel`, `--user` and `--length` take
/// the next argument as their value, `--top` takes none, a later option
/// overrides an earlier one, and anything else is refused.
pub open spec fn parse_from(
    args: Seq<Seq<char>>,
    i: int,
    acc: ParamsView,
    length_given: bool,
) -> Result<ParamsView, ConfigError>
    decreases args.len() - i,
{
    if i < 0 || i >= args.len() {
        finish(acc, length_given)
    } else if args[i] == "--channel"@ {
        if i + 1 < args.len() {
            parse_from(args, i + 2, ParamsView { channel: Some(args[i + 1]), ..acc }, length_given)
        } else {
            Err(ConfigError::MissingValue)
        }
    } else if args[i] == "--user"@ {
        if i + 1 < args.len() {
            parse_from(args, i + 2, ParamsView { username: Some(args[i + 1]), ..acc }, length_given)
        } else {
            Err(ConfigError::MissingValue)
        }
    } else if args[i] == "--length"@ {
        if i + 1 < args.len() {
            match decimal_usize(args[i + 1]) {
                Some(n) => parse_from(args, i + 2, ParamsView { leaderboard_len: n, ..acc }, true),
                None => Err(ConfigError::InvalidLength),
            }
        } else {
            Err(ConfigError::MissingValue)
        }
    } else if args[i] == "--top"@ {
        parse_from(args, i + 1, ParamsView { top: true, ..acc }, length_given)
    } else {
        Err(ConfigError::UnrecognizedArgument)
    }
}

/// The parameters that a command line gives. Its first argument is the
/// program's own name and is passed over.
pub open spec fn parsed(args: Seq<Seq<char>>) -> Result<ParamsView, ConfigError> {
    parse_from(args, 1, initial_params(), false)
}

/// What a leaderboard run does.
#[derive(Debug, Clone, PartialEq, Eq)]
pub enum Query {
    /// The chatters of the trailing window of a channel.
    RecentChatters { channel: String, length: usize },
    /// The emotes in one user's history in a channel.
    UserEmotes { channel: String, username: String, length: usize },
    /// The emotes in a channel's month-to-date history.
    ChannelEmotes { channel: String, length: usize },
}

impl Params {
    /// The parameters before any option has been read.
    pub fn new() -> (p: Params)
        ensures
            p@ == initial_params(),
    {
        Params { channel: None, username: None, top: false, leaderboard_len: DEFAULT_EMOTE_LENGTH }
    }

    /// Reads the parameters off a command line.
    pub fn parse(args: &Vec<String>) -> (r: Result<Params, ConfigError>)
        ensures
            match r {
                Ok(p) => parsed(string_views(args@)) == Ok::<ParamsView, ConfigError>(p@),
                Err(e) => parsed(string_views(args@)) == Err::<ParamsView, ConfigError>(e),
            },
    {
        let flag_channel = "--channel".to_owned();
        let flag_user = "--user".to_owned();
        let flag_length = "--length".to_owned();
        let flag_top = "--top".to_owned();
        let ghost av = string_views(args@);
        let mut acc = Params::new();
        let mut length_given = false;
        let mut i: usize = 1;
        while i < args.len()
            invariant
                1 <= i,
                av == string_views(args@),
                flag_channel@ == "--channel"@,
                flag_user@ == "--user"@,
                flag_length@ == "--length"@,
                flag_top@ == "--top"@,
                parsed(av) == parse_from(av, i as int, acc@, length_given),
            decreases args.len() - i,
        {
            let arg = &args[i];
            assert(av[i as int] == arg@);
            if *arg == flag_channel || *arg == flag_user || *arg == flag_length {
                if i + 1 >= args.len() {
                    return Err(ConfigError::MissingValue);
                }
                let value = &args[i + 1];
                assert(av[i + 1] == value@);
                if *arg == flag_channel {
                    acc.channel = Some(value.clone());
                } else if *arg == flag_user {
                    acc.username = Some(value.clone());
                } else {
                    match parse_usize(value.as_str()) {
                        Some(n) => {
                            acc.leaderboard_len = n;
                            length_given = true;
                        },
                        None => {
                            return Err(ConfigError::InvalidLength);
                        },
                    }
                }
                i = i + 2;
            } else if *arg == flag_top {
                acc.top = true;
                i = i + 1;
            } else {
                return Err(ConfigError::UnrecognizedArgument);
            }
        }
        if acc.channel.is_none() {
            return Err(ConfigError::MissingChannel);
        }
        if acc.top && !length_given {
            acc.leaderboard_len = DEFAULT_CHATTER_LENGTH;
        }
        Ok(acc)
    }

    /// What a run with these parameters does: `--top` asks for the recent
    /// chatters, a user for that user's emotes, and neither for the
    /// channel's emotes. Without a channel there is nothing to do.
    pub fn into_query(self) -> (r: Result<Query, ConfigError>)
        ensures
            match r {
                Ok(Query::RecentChatters { channel, length }) => {
                    &&& self@.channel == Some(channel@)
                    &&& self.top
                    &&& length == self.leaderboard_len
                },
                Ok(Query::UserEmotes { channel, username, length }) => {
                    &&& self@.channel == Some(channel@)
                    &&& !self.top
                    &&& self@.username == Some(username@)
                    &&& length == self.leaderboard_len
                },
                Ok(Query::ChannelEmotes { channel, length }) => {
                    &&& self@.channel == Some(channel@)
                    &&& !self.top
                    &&& self@.username is None
                    &&& length == self.leaderboard_len
                },
                Err(e) => e == ConfigError::MissingChannel && self@.channel is None,
            },
    {
        let length = self.leaderboard_len;
        let channel = match self.channel {
            Some(c) => c,
            None => {
                return Err(ConfigError::MissingChannel);
            },
        };
        if self.top {
            Ok(Query::RecentChatters { channel, length })
        } else {
            match self.username {
                Some(username) => Ok(Query::UserEmotes { channel, username, length }),
                None => Ok(Query::ChannelEmotes { channel, length }),
            }
        }
    }
}

} // verus!
