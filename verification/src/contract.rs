//! Versioned machine-readable envelope shared by the CLI and its consumers.
use vstd::prelude::*;

use crate::error::{Error, ErrorCategory};
use crate::text::{decimal_string, join3};

verus! {

pub const MACHINE_SCHEMA_VERSION: u32 = 1;

/// Public CLI operations represented by the machine contract.
#[derive(Debug, Clone, Copy, PartialEq, Eq, Structural)]
#[non_exhaustive]
pub enum CommandName {
    Doctor,
    Inspect,
    Plan,
    Run,
    Resume,
    Status,
}

pub open spec fn command_text(command: CommandName) -> Seq<char> {
    match command {
        CommandName::Doctor => "doctor"@,
        CommandName::Inspect => "inspect"@,
        CommandName::Plan => "plan"@,
        CommandName::Run => "run"@,
        CommandName::Resume => "resume"@,
        CommandName::Status => "status"@,
    }
}

impl CommandName {
    /// The lowercase command word, as the command's textual rendering.
    pub fn as_str(&self) -> (name: &'static str)
        ensures
            name@ == command_text(*self),
    {
        match self {
            CommandName::Doctor => "doctor",
            CommandName::Inspect => "inspect",
            CommandName::Plan => "plan",
            CommandName::Run => "run",
            CommandName::Resume => "resume",
            CommandName::Status => "status",
        }
    }
}

/// Serializable representation of a typed public error.
#[derive(Debug, Clone, PartialEq, Eq)]
#[non_exhaustive]
pub struct ErrorReport {
    pub category: ErrorCategory,
    pub message: String,
}

impl ErrorReport {
    pub fn from_error(error: &Error) -> (report: Self)
        ensures
            report.category == error.spec_category(),
            report.message@ == error.spec_message(),
    {
        ErrorReport { category: error.category(), message: error.message().to_owned() }
    }
}

/// Success or failure carried by a machine-readable command envelope.
#[derive(Debug, Clone, PartialEq, Eq)]
#[non_exhaustive]
pub enum MachineOutcome<T> {
    Success { result: T },
    Error { error: ErrorReport, result: Option<T> },
}

/// Versioned machine-readable result shared by the CLI and external consumers.
#[derive(Debug, Clone, PartialEq, Eq)]
#[non_exhaustive]
pub struct MachineEnvelope<T> {
    pub schema_version: u32,
    pub command: CommandName,
    pub outcome: MachineOutcome<T>,
}

impl<T> MachineEnvelope<T> {
    /// Whether `ensure_supported` accepts this envelope.
    pub open spec fn is_supported(&self) -> bool {
        self.schema_version == MACHINE_SCHEMA_VERSION
    }

    pub fn success(command: CommandName, result: T) -> (envelope: Self)
        ensures
            envelope.schema_version == MACHINE_SCHEMA_VERSION,
            envelope.is_supported(),
            envelope.command == command,
            envelope.outcome == (MachineOutcome::Success { result }),
    {
        MachineEnvelope {
            schema_version: MACHINE_SCHEMA_VERSION,
            command,
            outcome: MachineOutcome::Success { result },
        }
    }

    pub fn failure(command: CommandName, error: &Error, result: Option<T>) -> (envelope: Self)
        ensures
            envelope.schema_version == MACHINE_SCHEMA_VERSION,
            envelope.is_supported(),
            envelope.command == command,
            envelope.outcome matches MachineOutcome::Error { error: report, result: r } && r
                == result && report.category == error.spec_category() && report.message@
                == error.spec_message(),
    {
        MachineEnvelope {
            schema_version: MACHINE_SCHEMA_VERSION,
            command,
            outcome: MachineOutcome::Error { error: ErrorReport::from_error(error), result },
        }
    }

    /// Accepts exactly the supported contract version.
    pub fn ensure_supported(&self) -> (outcome: Result<(), Error>)
        ensures
            outcome is Ok <==> self.is_supported(),
            outcome matches Err(e) ==> e.spec_category() == ErrorCategory::Configuration,
    {
        if self.schema_version == MACHINE_SCHEMA_VERSION {
            Ok(())
        } else {
            let found = decimal_string(self.schema_version as u64);
            let message = join3(
                "unsupported machine contract version ",
                found.as_str(),
                "; expected 1",
            );
            Err(Error::from_string(ErrorCategory::Configuration, message))
        }
    }
}

} // verus!
