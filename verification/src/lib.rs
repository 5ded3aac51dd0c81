use vstd::prelude::*;

pub mod credentials;
pub mod export;
pub mod sso;
pub mod timeparse;

verus! {

/// The failures the client reports. Every other condition is either a
/// silent retry (SSO polling) or normal output.
#[derive(Debug, Clone, Copy, PartialEq, Eq, Structural)]
pub enum CliError {
    /// The login endpoint answered with a non-success status.
    AuthenticationFailed,
    /// No service key is stored; an export query cannot even be built.
    MissingServiceKey,
    /// A log record lacked its message field in line-output mode.
    MissingMessageField,
    /// A `--from`/`--to` argument fit none of the accepted time forms.
    InvalidTimestamp,
}

impl CliError {
    /// A short description, suitable for the fatal report printed on exit.
    pub fn message(&self) -> (r: &'static str)
        ensures
            r@ == self.message_spec(),
    {
        match self {
            CliError::AuthenticationFailed => "Authentication failed",
            CliError::MissingServiceKey => {
                "No servicekey found please run logdna-cli ssologin"
            },
            CliError::MissingMessageField => "Received line without a value",
            CliError::InvalidTimestamp => "Could not parse timestamp",
        }
    }

    pub open spec fn message_spec(self) -> Seq<char> {
        match self {
            CliError::AuthenticationFailed => "Authentication failed"@,
            CliError::MissingServiceKey => {
                "No servicekey found please run logdna-cli ssologin"@
            },
            CliError::MissingMessageField => "Received line without a value"@,
            CliError::InvalidTimestamp => "Could not parse timestamp"@,
        }
    }
}

} // verus!
