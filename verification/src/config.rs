//! The plugin configuration.
//!
//! The card-reading flow is gated by a configuration value: whether the
//! feature is enabled, which trigger phrases start it, which optional
//! leading prefixes are accepted, and whether a short text preview is sent
//! after the files. The surrounding host loads and saves this value; the
//! defaults below are what hold when nothing was saved.

use vstd::prelude::*;

use vstd::string::StringExecFns;

verus! {

/// The recognized configuration options.
#[derive(Debug, PartialEq)]
pub struct Config {
    pub enabled: bool,
    pub commands: Vec<String>,
    pub prefixes: Vec<String>,
    pub text_preview: bool,
}

/// What the built-in configuration holds: the feature on, the four stock
/// trigger phrases, no prefixes, and the text preview on.
pub open spec fn is_default_config(c: Config) -> bool {
    &&& c.enabled == true
    &&& c.commands@.len() == 4
    &&& c.commands@[0]@ == "读卡"@
    &&& c.commands@[1]@ == "解析卡"@
    &&& c.commands@[2]@ == "看卡"@
    &&& c.commands@[3]@ == "card"@
    &&& c.prefixes@.len() == 0
    &&& c.text_preview == true
}

impl Default for Config {
    /// The built-in configuration.
    fn default() -> (c: Config)
        ensures
            is_default_config(c),
    {
        let mut commands: Vec<String> = Vec::new();
        commands.push(String::from_str("读卡"));
        commands.push(String::from_str("解析卡"));
        commands.push(String::from_str("看卡"));
        commands.push(String::from_str("card"));
        Config { enabled: true, commands, prefixes: Vec::new(), text_preview: true }
    }
}

/// The configuration in force when none was loaded: the built-in defaults.
pub fn get() -> (c: Config)
    ensures
        is_default_config(c),
{
    Config::default()
}

} // verus!
