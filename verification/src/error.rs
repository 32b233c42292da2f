use vstd::prelude::*;

use crate::config::CheckKind;
use crate::json::Json;
use crate::text::{decimal, decimal_text, join3};

verus! {

/// Why a step of the library refused its input.
pub enum Error {
    /// A discovery list was not a JSON array.
    ListNotArray,
    /// A list item had no non-empty string `name`.
    MissingItemName,
    /// Two list items shared a name.
    DuplicateItemNames,
    /// A configured path was empty, absolute, or had `.` or `..` components.
    UnsafePath { field: String },
    /// A fixture name was not a simple file name.
    InvalidFixtureName,
    /// The configuration file has a version this tool does not read.
    UnsupportedConfigVersion { version: u8 },
    /// A discovery response had no list under `result`.
    MissingListResult { surface: CheckKind },
    /// The server answered a request with an error.
    ServerError { error: Json },
    /// A fixture file has a version this tool does not read.
    UnsupportedFixtureVersion { path: String, version: u8 },
    /// A fixture file holds an invalid fixture name.
    InvalidFixtureNameIn { path: String },
    /// A fixture names a transport other than stdio.
    UnsupportedTransport { name: String, transport: String },
    /// A fixture has no server command.
    EmptyServerCommand { name: String },
    /// A request timeout of zero; the fixture's name where one is concerned.
    ZeroTimeout { fixture: Option<String> },
    /// No server command was given.
    MissingServerCommand,
    /// An audit was given neither a server command nor a fixture name.
    NoAuditTarget,
}

impl Error {
    /// The error is the refusal of a zero timeout for the named fixture.
    pub open spec fn is_zero_timeout_of(self, name: Seq<char>) -> bool {
        self matches Error::ZeroTimeout { fixture: Some(n) } && n@ == name
    }

    /// The error is the refusal of an unsafe path named `field`.
    pub open spec fn is_unsafe_path(self, field: Seq<char>) -> bool {
        self matches Error::UnsafePath { field: f } && f@ == field
    }
}

impl Error {
    /// The message the command line prints for the error. For a server
    /// error it is the text that comes before the server's error object,
    /// which follows it written as JSON.
    pub open spec fn message_text(self) -> Seq<char> {
        match self {
            Error::ListNotArray => "MCP list response must be an array"@,
            Error::MissingItemName => "every item in an MCP list response must have a non-empty string name"@,
            Error::DuplicateItemNames => "MCP list response contains duplicate names"@,
            Error::UnsafePath { field } => field@
                + " must be a non-empty relative path without . or .. components"@,
            Error::InvalidFixtureName => "fixture name must be a simple, non-empty file name"@,
            Error::UnsupportedConfigVersion { version } => "unsupported config version "@ + decimal(
                version as nat,
            ) + "; expected 1 or 2"@,
            Error::MissingListResult { surface } => surface.method() + " response did not contain result."@
                + surface.result_key(),
            Error::ServerError { .. } => "MCP server returned an error: "@,
            Error::UnsupportedFixtureVersion { path, version } => path@
                + ": unsupported fixture version "@ + decimal(version as nat) + "; expected 1 or 2"@,
            Error::InvalidFixtureNameIn { path } => path@
                + ": invalid fixture name: fixture name must be a simple, non-empty file name"@,
            Error::UnsupportedTransport { name, transport } => name@ + ": unsupported transport "@
                + transport@,
            Error::EmptyServerCommand { name } => name@ + ": server command is empty"@,
            Error::ZeroTimeout { fixture } => match fixture {
                Some(name) => name@ + ": timeout_ms must be greater than zero"@,
                None => "timeout_ms must be greater than zero"@,
            },
            Error::MissingServerCommand => "server command is required after --"@,
            Error::NoAuditTarget => "provide a server command after -- or select a saved fixture with --name"@,
        }
    }

    /// The message the command line prints for the error (see
    /// `message_text`).
    pub fn message(&self) -> (r: String)
        ensures
            r@ == self.message_text(),
    {
        proof {
            reveal_strlit("");
        }
        match self {
            Error::ListNotArray => String::from_str("MCP list response must be an array"),
            Error::MissingItemName => String::from_str(
                "every item in an MCP list response must have a non-empty string name",
            ),
            Error::DuplicateItemNames => String::from_str("MCP list response contains duplicate names"),
            Error::UnsafePath { field } => join3(
                "",
                field.as_str(),
                " must be a non-empty relative path without . or .. components",
            ),
            Error::InvalidFixtureName => String::from_str("fixture name must be a simple, non-empty file name"),
            Error::UnsupportedConfigVersion { version } => {
                let v = decimal_text(*version as u64);
                join3("unsupported config version ", v.as_str(), "; expected 1 or 2")
            },
            Error::MissingListResult { surface } => join3(
                surface.method_name(),
                " response did not contain result.",
                surface.key_name(),
            ),
            Error::ServerError { .. } => String::from_str("MCP server returned an error: "),
            Error::UnsupportedFixtureVersion { path, version } => {
                let v = decimal_text(*version as u64);
                let mut m = join3(path.as_str(), ": unsupported fixture version ", v.as_str());
                m.append("; expected 1 or 2");
                m
            },
            Error::InvalidFixtureNameIn { path } => join3(
                "",
                path.as_str(),
                ": invalid fixture name: fixture name must be a simple, non-empty file name",
            ),
            Error::UnsupportedTransport { name, transport } => join3(
                name.as_str(),
                ": unsupported transport ",
                transport.as_str(),
            ),
            Error::EmptyServerCommand { name } => join3("", name.as_str(), ": server command is empty"),
            Error::ZeroTimeout { fixture } => match fixture {
                Some(name) => join3("", name.as_str(), ": timeout_ms must be greater than zero"),
                None => String::from_str("timeout_ms must be greater than zero"),
            },
            Error::MissingServerCommand => String::from_str("server command is required after --"),
            Error::NoAuditTarget => String::from_str(
                "provide a server command after -- or select a saved fixture with --name",
            ),
        }
    }
}

} // verus!
