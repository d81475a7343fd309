//! The errors of the library.

use crate::text::{append_decimal, decimal};
use vstd::prelude::*;
use vstd::string::StringExecFns;

verus! {

/// Why a configuration cannot be used. Any of these stops the program before
/// it accepts a single event.
#[derive(Clone, Copy, Debug, PartialEq, Eq, Structural)]
pub enum ConfigError {
    /// Neither the file nor the environment names the platform token.
    MissingToken,
    /// Neither the file nor the environment names the database user.
    MissingUsername,
    /// Neither the file nor the environment names the database.
    MissingDatabase,
    /// Neither the file nor the environment names the database password.
    MissingPassword,
    /// Two lines of the threshold table name the same role.
    DuplicateRole { id: u64 },
}

/// What a configuration error says of itself.
pub open spec fn config_error_text(e: ConfigError) -> Seq<char> {
    match e {
        ConfigError::MissingToken => "Missing Discord token"@,
        ConfigError::MissingUsername => "Missing MySQL username"@,
        ConfigError::MissingDatabase => "Missing MySQL database"@,
        ConfigError::MissingPassword => "Missing MySQL password"@,
        ConfigError::DuplicateRole { id } => "Duplicate role id "@ + decimal(id as nat),
    }
}

impl ConfigError {
    /// The error in words, for the one who runs the program.
    pub fn message(&self) -> (r: String)
        ensures
            r@ == config_error_text(*self),
    {
        match *self {
            ConfigError::MissingToken => String::from_str("Missing Discord token"),
            ConfigError::MissingUsername => String::from_str("Missing MySQL username"),
            ConfigError::MissingDatabase => String::from_str("Missing MySQL database"),
            ConfigError::MissingPassword => String::from_str("Missing MySQL password"),
            ConfigError::DuplicateRole { id } => {
                let mut text = String::from_str("Duplicate role id ");
                append_decimal(&mut text, id);
                text
            },
        }
    }
}

/// Why the counter store could not answer.
#[derive(Clone, Copy, Debug, PartialEq, Eq, Structural)]
pub enum StoreError {
    /// The storage behind the counter could not be reached.
    Unavailable,
    /// The user's count is already the largest that can be recorded.
    Saturated,
}

/// Why a single grant did not go through.
#[derive(Clone, Copy, Debug, PartialEq, Eq, Structural)]
pub enum GrantError {
    /// The user is not, or no longer, a member of the community.
    UnknownMember,
    /// The platform turned the grant down or did not answer in time.
    Rejected,
}

} // verus!
