//! Per-source configuration: what to tail, the pattern, the thresholds and the
//! ignore list, with the validation that keeps a bad configuration from a watcher.

use vstd::prelude::*;
use crate::pattern::{contains_placeholder, has_placeholder, pattern_compiles, regex_accepts, expand};

verus! {

/// Why a configuration was refused.
#[derive(Debug, Clone, Copy, PartialEq, Eq, Structural)]
pub enum ConfigError {
    EmptyId,
    MissingPlaceholder,
    InvalidPattern,
    ZeroBanTime,
    ZeroFindTime,
    ZeroMaxMatches,
}

/// The first rule that the given values break, checked in the order: identifier,
/// placeholder, pattern compilation, ban duration, find window, match threshold.
pub open spec fn config_error(
    id: Seq<char>,
    regex: Seq<char>,
    ban_time: u64,
    find_time: u64,
    max_matches: u32,
) -> Option<ConfigError> {
    if id.len() == 0 {
        Some(ConfigError::EmptyId)
    } else if !has_placeholder(regex) {
        Some(ConfigError::MissingPlaceholder)
    } else if !regex_accepts(expand(regex)) {
        Some(ConfigError::InvalidPattern)
    } else if ban_time == 0 {
        Some(ConfigError::ZeroBanTime)
    } else if find_time == 0 {
        Some(ConfigError::ZeroFindTime)
    } else if max_matches == 0 {
        Some(ConfigError::ZeroMaxMatches)
    } else {
        None
    }
}

/// Whether `c` is `before` with the given changes applied: each value given
/// replaces the old one, the identifier stays.
pub open spec fn applied(
    before: Config,
    c: Config,
    name: Option<String>,
    param: Option<String>,
    regex: Option<String>,
    ban_time: Option<u64>,
    find_time: Option<u64>,
    max_matches: Option<u32>,
    ignore_ips: Option<Vec<String>>,
) -> bool {
    &&& c.id == before.id
    &&& c.name@ == (match name {
        Some(x) => x@,
        None => before.name@,
    })
    &&& c.param@ == (match param {
        Some(x) => x@,
        None => before.param@,
    })
    &&& c.regex@ == (match regex {
        Some(x) => x@,
        None => before.regex@,
    })
    &&& c.ban_time == (match ban_time {
        Some(x) => x,
        None => before.ban_time,
    })
    &&& c.find_time == (match find_time {
        Some(x) => x,
        None => before.find_time,
    })
    &&& c.max_matches == (match max_matches {
        Some(x) => x,
        None => before.max_matches,
    })
    &&& c.ignore_ips@ == (match ignore_ips {
        Some(x) => x@,
        None => before.ignore_ips@,
    })
}

/// The configuration of one log source. `param` is the file to tail; `ban_time`
/// and `find_time` are in milliseconds.
pub struct Config {
    pub id: String,
    pub name: String,
    pub param: String,
    pub regex: String,
    pub ban_time: u64,
    pub find_time: u64,
    pub max_matches: u32,
    pub ignore_ips: Vec<String>,
}

/// The plain record a configuration is stored as.
pub struct ConfigData {
    pub id: String,
    pub name: String,
    pub param: String,
    pub regex: String,
    pub ban_time: u64,
    pub find_time: u64,
    pub max_matches: u32,
    pub ignore_ips: Vec<String>,
}

fn check(id: &str, regex: &str, ban_time: u64, find_time: u64, max_matches: u32) -> (r: Result<
    (),
    ConfigError,
>)
    ensures
        r is Ok <==> config_error(id@, regex@, ban_time, find_time, max_matches) is None,
        r matches Err(e) ==> config_error(id@, regex@, ban_time, find_time, max_matches) == Some(e),
{
    if id.unicode_len() == 0 {
        Err(ConfigError::EmptyId)
    } else if !contains_placeholder(regex) {
        Err(ConfigError::MissingPlaceholder)
    } else if !pattern_compiles(regex) {
        Err(ConfigError::InvalidPattern)
    } else if ban_time == 0 {
        Err(ConfigError::ZeroBanTime)
    } else if find_time == 0 {
        Err(ConfigError::ZeroFindTime)
    } else if max_matches == 0 {
        Err(ConfigError::ZeroMaxMatches)
    } else {
        Ok(())
    }
}

impl Config {
    /// Whether the configuration keeps every rule.
    pub open spec fn valid(&self) -> bool {
        config_error(self.id@, self.regex@, self.ban_time, self.find_time, self.max_matches) is None
    }

    /// Builds a configuration, refusing one that breaks a rule.
    pub fn new(
        id: String,
        name: String,
        param: String,
        regex: String,
        ban_time: u64,
        find_time: u64,
        max_matches: u32,
        ignore_ips: Vec<String>,
    ) -> (r: Result<Config, ConfigError>)
        ensures
            r is Ok <==> config_error(id@, regex@, ban_time, find_time, max_matches) is None,
            r matches Err(e) ==> config_error(id@, regex@, ban_time, find_time, max_matches) == Some(e),
            r matches Ok(c) ==> (c.id@ == id@ && c.name@ == name@ && c.param@ == param@ && c.regex@
                == regex@ && c.ban_time == ban_time && c.find_time == find_time && c.max_matches
                == max_matches && c.ignore_ips@ == ignore_ips@),
            r matches Ok(c) ==> c.valid(),
    {
        match check(id.as_str(), regex.as_str(), ban_time, find_time, max_matches) {
            Ok(()) => Ok(
                Config { id, name, param, regex, ban_time, find_time, max_matches, ignore_ips },
            ),
            Err(e) => Err(e),
        }
    }

    /// Checks the configuration against every rule.
    pub fn validate(&self) -> (r: Result<(), ConfigError>)
        ensures
            r is Ok <==> self.valid(),
            r matches Err(e) ==> config_error(
                self.id@,
                self.regex@,
                self.ban_time,
                self.find_time,
                self.max_matches,
            ) == Some(e),
    {
        check(self.id.as_str(), self.regex.as_str(), self.ban_time, self.find_time, self.max_matches)
    }

    /// Applies the given changes, all of them or, where the result would break a
    /// rule, none.
    pub fn update(
        &mut self,
        name: Option<String>,
        param: Option<String>,
        regex: Option<String>,
        ban_time: Option<u64>,
        find_time: Option<u64>,
        max_matches: Option<u32>,
        ignore_ips: Option<Vec<String>>,
    ) -> (r: Result<(), ConfigError>)
        ensures
            ({
                let e = config_error(
                    old(self).id@,
                    match regex {
                        Some(x) => x@,
                        None => old(self).regex@,
                    },
                    match ban_time {
                        Some(x) => x,
                        None => old(self).ban_time,
                    },
                    match find_time {
                        Some(x) => x,
                        None => old(self).find_time,
                    },
                    match max_matches {
                        Some(x) => x,
                        None => old(self).max_matches,
                    },
                );
                &&& (r is Ok <==> e is None)
                &&& (r matches Err(x) ==> e == Some(x) && *final(self) == *old(self))
                &&& (r is Ok ==> applied(
                    *old(self),
                    *final(self),
                    name,
                    param,
                    regex,
                    ban_time,
                    find_time,
                    max_matches,
                    ignore_ips,
                ))
            }),
    {
        let new_ban = match ban_time {
            Some(x) => x,
            None => self.ban_time,
        };
        let new_find = match find_time {
            Some(x) => x,
            None => self.find_time,
        };
        let new_max = match max_matches {
            Some(x) => x,
            None => self.max_matches,
        };
        let checked = match &regex {
            Some(x) => check(self.id.as_str(), x.as_str(), new_ban, new_find, new_max),
            None => check(self.id.as_str(), self.regex.as_str(), new_ban, new_find, new_max),
        };
        if let Err(e) = checked {
            return Err(e);
        }
        if let Some(x) = name {
            self.name = x;
        }
        if let Some(x) = param {
            self.param = x;
        }
        if let Some(x) = regex {
            self.regex = x;
        }
        self.ban_time = new_ban;
        self.find_time = new_find;
        self.max_matches = new_max;
        if let Some(x) = ignore_ips {
            self.ignore_ips = x;
        }
        Ok(())
    }

    /// The plain record of this configuration.
    pub fn to_data(&self) -> (r: ConfigData)
        ensures
            r.id@ == self.id@ && r.name@ == self.name@ && r.param@ == self.param@ && r.regex@
                == self.regex@ && r.ban_time == self.ban_time && r.find_time == self.find_time
                && r.max_matches == self.max_matches && r.ignore_ips@ == self.ignore_ips@,
    {
        ConfigData {
            id: self.id.clone(),
            name: self.name.clone(),
            param: self.param.clone(),
            regex: self.regex.clone(),
            ban_time: self.ban_time,
            find_time: self.find_time,
            max_matches: self.max_matches,
            ignore_ips: self.ignore_ips.clone(),
        }
    }

    /// Builds a configuration from its plain record, with the checks of `new`.
    pub fn from_data(data: ConfigData) -> (r: Result<Config, ConfigError>)
        ensures
            r is Ok <==> config_error(
                data.id@,
                data.regex@,
                data.ban_time,
                data.find_time,
                data.max_matches,
            ) is None,
            r matches Err(e) ==> config_error(
                data.id@,
                data.regex@,
                data.ban_time,
                data.find_time,
                data.max_matches,
            ) == Some(e),
            r matches Ok(c) ==> (c.id@ == data.id@ && c.name@ == data.name@ && c.param@
                == data.param@ && c.regex@ == data.regex@ && c.ban_time == data.ban_time
                && c.find_time == data.find_time && c.max_matches == data.max_matches
                && c.ignore_ips@ == data.ignore_ips@),
    {
        Config::new(
            data.id,
            data.name,
            data.param,
            data.regex,
            data.ban_time,
            data.find_time,
            data.max_matches,
            data.ignore_ips,
        )
    }
}

/// A pattern without the placeholder never makes a valid configuration, whatever
/// the other values are.
pub proof fn lemma_placeholder_required(
    id: Seq<char>,
    regex: Seq<char>,
    ban_time: u64,
    find_time: u64,
    max_matches: u32,
)
    requires
        !has_placeholder(regex),
    ensures
        config_error(id, regex, ban_time, find_time, max_matches) is Some,
        id.len() > 0 ==> config_error(id, regex, ban_time, find_time, max_matches) == Some(
            ConfigError::MissingPlaceholder,
        ),
{
}

} // verus!
