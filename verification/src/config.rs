//! Errors of saving the configuration, with the message each one shows.

use vstd::prelude::*;
use crate::text::push_str;

verus! {

/// Why saving the configuration failed.
#[derive(Debug)]
pub enum ConfigError {
    NoConfigDir,
    Io(String),
    Serialize(String),
}

/// The text shown for a configuration error.
pub open spec fn config_error_text(e: ConfigError) -> Seq<char> {
    match e {
        ConfigError::NoConfigDir => "No configuration directory found"@,
        ConfigError::Io(m) => "IO error: "@ + m@,
        ConfigError::Serialize(m) => "Serialization error: "@ + m@,
    }
}

impl ConfigError {
    /// The text shown for the error.
    pub fn message(&self) -> (r: String)
        ensures
            r@ == config_error_text(*self),
    {
        match self {
            ConfigError::NoConfigDir => "No configuration directory found".to_string(),
            ConfigError::Io(m) => {
                let mut r = "IO error: ".to_string();
                push_str(&mut r, m.as_str());
                r
            },
            ConfigError::Serialize(m) => {
                let mut r = "Serialization error: ".to_string();
                push_str(&mut r, m.as_str());
                r
            },
        }
    }
}

} // verus!
