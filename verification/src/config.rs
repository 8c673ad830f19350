//! The tool's settings.
use vstd::prelude::*;

verus! {

/// Settings: the TCP port that daemons listen on and the words that keys are made of.
pub struct Config<'a> {
    pub port: u16,
    pub code_words: &'a [&'a str],
}

/// The port that daemons listen on unless configured otherwise.
pub const DEFAULT_PORT: u16 = 9057;

impl<'a> Config<'a> {
    /// The built-in settings: port 9057 and ten code words.
    pub fn default() -> (c: Self)
        ensures
            c.port == 9057,
            c.code_words@.len() == 10,
            c.code_words@[0]@ == "apple"@,
            c.code_words@[1]@ == "bounty"@,
            c.code_words@[2]@ == "cheese"@,
            c.code_words@[3]@ == "drum"@,
            c.code_words@[4]@ == "eerie"@,
            c.code_words@[5]@ == "fancy"@,
            c.code_words@[6]@ == "gloom"@,
            c.code_words@[7]@ == "honey"@,
            c.code_words@[8]@ == "island"@,
            c.code_words@[9]@ == "jungle"@,
    {
        Config {
            port: DEFAULT_PORT,
            code_words: &[
                "apple",
                "bounty",
                "cheese",
                "drum",
                "eerie",
                "fancy",
                "gloom",
                "honey",
                "island",
                "jungle",
            ],
        }
    }
}

} // verus!
