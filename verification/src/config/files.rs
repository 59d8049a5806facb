//! Where the config is kept, and what loading it comes to.
use crate::config;
use crate::config::{Config, ConfigView, LegacyStore};
use crate::lists;
use crate::path;
use vstd::prelude::*;
use vstd::string::*;

verus! {

/// What reading the config file came to.
pub enum ConfigRead {
    /// The config that it holds.
    Parsed(Config),
    /// There is no such file.
    Missing,
    /// It could not be read, or it is no config.
    Failed(String),
}

/// What reading the older per-command file came to.
pub enum LegacyRead {
    /// The entries that it holds.
    Parsed(LegacyStore),
    /// There is no such file.
    Missing,
    /// It could not be read, or it holds no entries.
    Failed(String),
}

/// The config that is in force after what was read: the file's own, else what the
/// older file migrates to, else the empty one. What is there and cannot be read is
/// an error, and is never taken for absent.
pub open spec fn loaded(main: ConfigRead, older: LegacyRead) -> Result<ConfigView, Seq<char>> {
    match main {
        ConfigRead::Parsed(c) => Ok(c@),
        ConfigRead::Failed(e) => Err(e@),
        ConfigRead::Missing => match older {
            LegacyRead::Parsed(l) => Ok(config::migrated(lists::views(l.commands@))),
            LegacyRead::Failed(e) => Err(e@),
            LegacyRead::Missing => Ok(config::empty_config()),
        },
    }
}

impl Config {
    /// The config file's path under the home directory, where there is one.
    pub fn path(home: Option<&[u8]>) -> (r: Option<Vec<u8>>)
        ensures
            match (home, r) {
                (Some(h), Some(p)) => p@ == path::under(h@, "config.json".spec_bytes()),
                (None, None) => true,
                _ => false,
            },
    {
        match home {
            Some(h) => Some(path::join(h, "config.json")),
            None => None,
        }
    }

    /// The path of the older per-command file, where there is a home directory.
    pub fn legacy_path(home: Option<&[u8]>) -> (r: Option<Vec<u8>>)
        ensures
            match (home, r) {
                (Some(h), Some(p)) => p@ == path::under(h@, "commands.json".spec_bytes()),
                (None, None) => true,
                _ => false,
            },
    {
        match home {
            Some(h) => Some(path::join(h, "commands.json")),
            None => None,
        }
    }

    /// The config, by what reading the two files came to. The older file counts
    /// only where there is no config file, and without a home directory both are
    /// missing.
    pub fn load(main: ConfigRead, older: LegacyRead) -> (r: Result<Config, String>)
        ensures
            match r {
                Ok(c) => loaded(main, older) == Ok::<ConfigView, Seq<char>>(c@),
                Err(e) => loaded(main, older) == Err::<ConfigView, Seq<char>>(e@),
            },
    {
        match main {
            ConfigRead::Parsed(c) => Ok(c),
            ConfigRead::Failed(e) => Err(e),
            ConfigRead::Missing => match older {
                LegacyRead::Parsed(l) => Ok(Config::from_legacy(&l)),
                LegacyRead::Failed(e) => Err(e),
                LegacyRead::Missing => Ok(Config::default()),
            },
        }
    }
}

/// The config file wins where it is there, whatever the older file holds; what is
/// there and cannot be read is never passed over; and without either file nothing is
/// allowed and nothing is injected.
pub proof fn an_unreadable_config_is_never_passed_over(
    main: ConfigRead,
    older: LegacyRead,
    other: LegacyRead,
)
    ensures
        !(main is Missing) ==> loaded(main, older) == loaded(main, other),
        main matches ConfigRead::Parsed(c) ==> loaded(main, older) == Ok::<ConfigView, Seq<char>>(
            c@,
        ),
        main matches ConfigRead::Failed(e) ==> loaded(main, older) == Err::<ConfigView, Seq<char>>(
            e@,
        ),
        main is Missing ==> (older matches LegacyRead::Failed(e) ==> loaded(main, older) == Err::<
            ConfigView,
            Seq<char>,
        >(e@)),
        main is Missing && older is Missing ==> (loaded(main, older) matches Ok(c)
            && c.rules.len() == 0 && c.sources.len() == 0),
        loaded(main, older) is Err <==> main is Failed || (main is Missing && older is Failed),
{
}

} // verus!
