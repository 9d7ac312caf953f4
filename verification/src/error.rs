//! Configurations that are refused before any input is touched.

use vstd::prelude::*;
use vstd::string::StringExecFns;

verus! {

/// Why a configuration was refused.
pub enum ConfigError {
    /// Two options that exclude each other were both given.
    Conflict(String, String),
    /// The line count is not a positive integer.
    IllegalLineCount(String),
    /// The byte count is not a positive integer.
    IllegalByteCount(String),
    /// The name pattern is not a regular expression.
    InvalidName(String),
    /// The type tag is none of `f`, `d`, `l`.
    InvalidType(String),
}

impl ConfigError {
    /// This error refuses the name pattern `name`.
    pub open spec fn is_invalid_name(self, name: Seq<char>) -> bool {
        self matches ConfigError::InvalidName(refused) && refused@ == name
    }

    /// This error refuses the type tag `tag`.
    pub open spec fn is_invalid_type(self, tag: Seq<char>) -> bool {
        self matches ConfigError::InvalidType(refused) && refused@ == tag
    }

    /// This error refuses the line count `value`.
    pub open spec fn is_illegal_line_count(self, value: Seq<char>) -> bool {
        self matches ConfigError::IllegalLineCount(refused) && refused@ == value
    }

    /// This error refuses the byte count `value`.
    pub open spec fn is_illegal_byte_count(self, value: Seq<char>) -> bool {
        self matches ConfigError::IllegalByteCount(refused) && refused@ == value
    }

    /// This error refuses the options `first` and `second` given together.
    pub open spec fn is_conflict(self, first: Seq<char>, second: Seq<char>) -> bool {
        self matches ConfigError::Conflict(a, b) && a@ == first && b@ == second
    }

    /// The message shown for this error.
    pub open spec fn message_text(self) -> Seq<char> {
        match self {
            ConfigError::Conflict(first, second) => "The argument '"@ + first@
                + "' cannot be used with '"@ + second@ + "'"@,
            ConfigError::IllegalLineCount(value) => "Illegal line count -- "@ + value@,
            ConfigError::IllegalByteCount(value) => "Illegal byte count -- "@ + value@,
            ConfigError::InvalidName(name) => "Invalid --name \""@ + name@ + "\""@,
            ConfigError::InvalidType(tag) => "Invalid --type \""@ + tag@ + "\""@,
        }
    }

    /// The message shown for this error.
    pub fn message(&self) -> (text: String)
        ensures
            text@ == self.message_text(),
    {
        match self {
            ConfigError::Conflict(first, second) => {
                let mut text = String::from_str("The argument '");
                text.append(first.as_str());
                text.append("' cannot be used with '");
                text.append(second.as_str());
                text.append("'");
                text
            },
            ConfigError::IllegalLineCount(value) => {
                let mut text = String::from_str("Illegal line count -- ");
                text.append(value.as_str());
                text
            },
            ConfigError::IllegalByteCount(value) => {
                let mut text = String::from_str("Illegal byte count -- ");
                text.append(value.as_str());
                text
            },
            ConfigError::InvalidName(name) => {
                let mut text = String::from_str("Invalid --name \"");
                text.append(name.as_str());
                text.append("\"");
                text
            },
            ConfigError::InvalidType(tag) => {
                let mut text = String::from_str("Invalid --type \"");
                text.append(tag.as_str());
                text.append("\"");
                text
            },
        }
    }
}

} // verus!
