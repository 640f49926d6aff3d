//! The error taxonomy of the task runner, as plain data with a
//! mathematical view, and the user-facing message of each error.

use vstd::prelude::*;

verus! {

use vstd::string::StringExecFns;
use crate::strutil::join_with;

/// Everything that can go wrong between reading a manifest and finishing a
/// run. Loader-side conditions (`ManifestNotFound`, `ManifestParseError`)
/// are constructed by the surrounding binary; the rest arise in this crate.
#[derive(Debug, PartialEq, Eq)]
pub enum RobinError {
    /// No manifest file exists where one was expected.
    ManifestNotFound,
    /// The manifest file was not valid JSON of the expected shape.
    ManifestParseError,
    /// An include chain reached a manifest that is still being loaded.
    CyclicInclude { path: String },
    /// A script body is neither a string nor a list of strings.
    InvalidScriptShape { name: String },
    /// The requested script name is absent from the merged manifest.
    UnknownScript { name: String },
    /// A placeholder had no matching `--name=` argument and no default.
    MissingVariable { name: String },
    /// A supplied value is not among a placeholder's allowed values.
    InvalidEnumValue { name: String, value: String, allowed: Vec<String> },
    /// A single command exited with a non-zero status.
    ScriptFailed { command: String, code: Option<i32> },
    /// A command inside a sequence exited with a non-zero status.
    SequenceStepFailed { index: usize, command: String, code: Option<i32> },
    /// The shell itself could not be started.
    SubprocessLaunchError { command: String },
    /// The desktop notification could not be delivered (never fatal).
    NotificationDeliveryError,
}

/// The mathematical shadow of `RobinError`.
pub ghost enum RobinErrorV {
    ManifestNotFound,
    ManifestParseError,
    CyclicInclude { path: Seq<char> },
    InvalidScriptShape { name: Seq<char> },
    UnknownScript { name: Seq<char> },
    MissingVariable { name: Seq<char> },
    InvalidEnumValue { name: Seq<char>, value: Seq<char>, allowed: Seq<Seq<char>> },
    ScriptFailed { command: Seq<char>, code: Option<int> },
    SequenceStepFailed { index: int, command: Seq<char>, code: Option<int> },
    SubprocessLaunchError { command: Seq<char> },
    NotificationDeliveryError,
}

impl View for RobinError {
    type V = RobinErrorV;

    open spec fn view(&self) -> RobinErrorV {
        match self {
            RobinError::ManifestNotFound => RobinErrorV::ManifestNotFound,
            RobinError::ManifestParseError => RobinErrorV::ManifestParseError,
            RobinError::CyclicInclude { path } => RobinErrorV::CyclicInclude { path: path@ },
            RobinError::InvalidScriptShape { name } => RobinErrorV::InvalidScriptShape {
                name: name@,
            },
            RobinError::UnknownScript { name } => RobinErrorV::UnknownScript { name: name@ },
            RobinError::MissingVariable { name } => RobinErrorV::MissingVariable { name: name@ },
            RobinError::InvalidEnumValue { name, value, allowed } => RobinErrorV::InvalidEnumValue {
                name: name@,
                value: value@,
                allowed: allowed.deep_view(),
            },
            RobinError::ScriptFailed { command, code } => RobinErrorV::ScriptFailed {
                command: command@,
                code: match code {
                    Some(c) => Some(*c as int),
                    None => None,
                },
            },
            RobinError::SequenceStepFailed { index, command, code } => RobinErrorV::SequenceStepFailed {
                index: *index as int,
                command: command@,
                code: match code {
                    Some(c) => Some(*c as int),
                    None => None,
                },
            },
            RobinError::SubprocessLaunchError { command } => RobinErrorV::SubprocessLaunchError {
                command: command@,
            },
            RobinError::NotificationDeliveryError => RobinErrorV::NotificationDeliveryError,
        }
    }
}

/// The user-facing message of each error, as a character sequence.
pub open spec fn spec_message(e: RobinErrorV) -> Seq<char> {
    match e {
        RobinErrorV::ManifestNotFound => "No .robin.json found. Run 'robin init' first"@,
        RobinErrorV::ManifestParseError => "Failed to parse .robin.json"@,
        RobinErrorV::CyclicInclude { path } => "Cyclic include: "@ + path,
        RobinErrorV::InvalidScriptShape { name } => "Invalid script type for '"@ + name
            + "': must be string or array of strings"@,
        RobinErrorV::UnknownScript { name } => "Unknown command: "@ + name,
        RobinErrorV::MissingVariable { name } => "Missing required variable: "@ + name,
        RobinErrorV::InvalidEnumValue { name, value, allowed } => "Value '"@ + value + "' for "@
            + name + " must be one of: "@ + join_with(allowed, ", "@),
        RobinErrorV::ScriptFailed { command, .. } => "Script failed: "@ + command,
        RobinErrorV::SequenceStepFailed { command, .. } => "Script failed: "@ + command,
        RobinErrorV::SubprocessLaunchError { command } => "Failed to execute script: "@ + command,
        RobinErrorV::NotificationDeliveryError => "Failed to send notification"@,
    }
}

impl RobinError {
    /// The message shown to the user for this error.
    pub fn message(&self) -> (r: String)
        ensures
            r@ == spec_message(self@),
    {
        match self {
            RobinError::ManifestNotFound => String::from_str(
                "No .robin.json found. Run 'robin init' first",
            ),
            RobinError::ManifestParseError => String::from_str("Failed to parse .robin.json"),
            RobinError::CyclicInclude { path } => String::from_str("Cyclic include: ").concat(
                path.as_str(),
            ),
            RobinError::InvalidScriptShape { name } => String::from_str(
                "Invalid script type for '",
            ).concat(name.as_str()).concat("': must be string or array of strings"),
            RobinError::UnknownScript { name } => String::from_str("Unknown command: ").concat(
                name.as_str(),
            ),
            RobinError::MissingVariable { name } => String::from_str(
                "Missing required variable: ",
            ).concat(name.as_str()),
            RobinError::InvalidEnumValue { name, value, allowed } => {
                let joined = crate::strutil::join_strings(allowed, ", ");
                String::from_str("Value '").concat(value.as_str()).concat("' for ").concat(
                    name.as_str(),
                ).concat(" must be one of: ").concat(joined.as_str())
            },
            RobinError::ScriptFailed { command, .. } => String::from_str("Script failed: ").concat(
                command.as_str(),
            ),
            RobinError::SequenceStepFailed { command, .. } => String::from_str(
                "Script failed: ",
            ).concat(command.as_str()),
            RobinError::SubprocessLaunchError { command } => String::from_str(
                "Failed to execute script: ",
            ).concat(command.as_str()),
            RobinError::NotificationDeliveryError => String::from_str(
                "Failed to send notification",
            ),
        }
    }
}

} // verus!
