use crate::filters::spec_texts;
use crate::registry::spec_distinct_keys;
use crate::registry::spec_lookup;
use crate::registry::spec_put;
use crate::registry::Registry;
use crate::text::spec_text_pair;
use crate::text::split_pair;
use vstd::prelude::*;

verus! {

/// The byte `=`, which stands between an option and its value.
pub const EQUALS: u8 = 61;

/// Says that lines do not make a configuration.
#[derive(Debug, Clone, Copy, PartialEq, Eq, Structural)]
pub struct ConfigError;

impl ConfigError {
    /// The words that say what went wrong.
    pub fn to_string(&self) -> (r: String)
        ensures
            r@ == "Error creating config"@,
    {
        "Error creating config".to_owned()
    }
}

/// What the broker is started with.
#[derive(Debug, PartialEq)]
pub struct Config {
    /// The TCP port to listen on.
    pub port: String,
    /// The name of the place where the log goes.
    pub log_file: String,
}

/// The options that the first `count` of the lines set, each with its value;
/// a later line overrides an earlier one. Nothing where one of the lines
/// holds no option and value around an equals sign.
pub open spec fn spec_options(lines: Seq<Seq<char>>, count: nat) -> Option<
    Seq<(Seq<char>, Seq<char>)>,
>
    decreases count,
{
    if count == 0 {
        Some(Seq::empty())
    } else {
        match (
            spec_options(lines, (count - 1) as nat),
            spec_text_pair(lines[count - 1], EQUALS),
        ) {
            (Some(earlier), Some((option, value))) => Some(spec_put(earlier, option, value)),
            _ => None,
        }
    }
}

/// The configuration that the lines make, if any: the values of the options
/// `port` and `logFile`.
pub open spec fn spec_config(lines: Seq<Seq<char>>) -> Option<(Seq<char>, Seq<char>)> {
    match spec_options(lines, lines.len()) {
        Some(options) => match (
            spec_lookup(options, "port"@),
            spec_lookup(options, "logFile"@),
        ) {
            (Some(port), Some(log_file)) => Some((port, log_file)),
            _ => None,
        },
        None => None,
    }
}

impl Config {
    /// The configuration that lines of the form `option=value` make. Fails
    /// where a line has no equals sign, or where `port` or `logFile` is not
    /// set.
    pub fn from_lines(lines: &Vec<String>) -> (r: Result<Config, ConfigError>)
        ensures
            match spec_config(spec_texts(lines@)) {
                Some((port, log_file)) => r is Ok && r->Ok_0.port@ == port && r->Ok_0.log_file@
                    == log_file,
                None => r is Err,
            },
    {
        let ghost texts = spec_texts(lines@);
        let mut options: Registry<String> = Registry::new();
        let mut i: usize = 0;
        while i < lines.len()
            invariant
                i <= lines.len(),
                texts == spec_texts(lines@),
                spec_options(texts, i as nat) == Some(options@),
                spec_distinct_keys(options@),
            decreases lines.len() - i,
        {
            assert(lines@[i as int]@ == texts[i as int]);
            match split_pair(lines[i].as_str(), EQUALS) {
                Some((option, value)) => {
                    match options.find(option.as_str()) {
                        Some(at) => options.set_value_at(at, value),
                        None => options.push(option, value),
                    }
                },
                None => {
                    proof {
                        lemma_options_stay_none(texts, (i + 1) as nat, lines@.len() as nat);
                    }
                    return Err(ConfigError);
                },
            }
            i += 1;
        }
        let port = match options.find("port") {
            Some(at) => options.value_at(at).clone(),
            None => { return Err(ConfigError); },
        };
        let log_file = match options.find("logFile") {
            Some(at) => options.value_at(at).clone(),
            None => { return Err(ConfigError); },
        };
        Ok(Config { port, log_file })
    }
}

/// Once a line fails, the lines after it do not mend the options.
pub proof fn lemma_options_stay_none(lines: Seq<Seq<char>>, failed: nat, count: nat)
    requires
        failed <= count,
        spec_options(lines, failed) is None,
    ensures
        spec_options(lines, count) is None,
    decreases count,
{
    if count > failed {
        lemma_options_stay_none(lines, failed, (count - 1) as nat);
    }
}

} // verus!
