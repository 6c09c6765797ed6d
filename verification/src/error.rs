//! What can go wrong in the core, by kind.
use vstd::prelude::*;
use vstd::string::StringExecFns;

verus! {

/// Why a directive entry could not be resolved.
#[derive(Debug, Clone, Copy, PartialEq, Eq, Structural)]
pub enum DirectiveProblem {
    /// The token after the colon names no known kind.
    UnknownKind,
    /// No layer of the hierarchy holds the key.
    MissingKey,
    /// The environment holds no such variable.
    MissingVariable,
}

/// An error of the core. Nothing is retried or recovered here: each is
/// handed up with the path, key or fragment it is about.
#[derive(Debug)]
pub enum CoreError {
    /// A file could not be opened or read.
    FileAccess { path: String, message: String },
    /// A document is malformed, or its top level is not a mapping.
    Parse { path: String, message: String },
    /// An entry of a directive line could not be resolved.
    SpecDirective { fragment: String, problem: DirectiveProblem },
    /// A stored value does not have the shape that was asked for.
    Deserialization { key: String, message: String },
    /// An external command reported failure.
    CommandExecution { message: String },
}

impl DirectiveProblem {
    /// What the problem reads as, around the fragment it is about.
    pub open spec fn wording(self) -> (Seq<char>, Seq<char>) {
        match self {
            DirectiveProblem::UnknownKind => ("bad part in specification `"@, "`: bad type"@),
            DirectiveProblem::MissingKey => ("missing key `"@, "` in hierarchy"@),
            DirectiveProblem::MissingVariable => (
                "failed to load environment variable `"@,
                "`"@,
            ),
        }
    }
}

impl CoreError {
    /// The message of the error, with what it is about.
    pub open spec fn text(self) -> Seq<char> {
        match self {
            CoreError::FileAccess { path, message } => "failed to load: "@ + path@
                + ": failed to open file: "@ + message@,
            CoreError::Parse { path, message } => "failed to load: "@ + path@ + ": "@ + message@,
            CoreError::SpecDirective { fragment, problem } => problem.wording().0 + fragment@
                + problem.wording().1,
            CoreError::Deserialization { key, message } => "bad value for key `"@ + key@ + "`: "@
                + message@,
            CoreError::CommandExecution { message } => message@,
        }
    }

    /// The message of the error, as a string.
    pub fn message(&self) -> (text: String)
        ensures
            text@ == self.text(),
    {
        match self {
            CoreError::FileAccess { path, message } => {
                let mut text = String::from_str("failed to load: ");
                text.append(path.as_str());
                text.append(": failed to open file: ");
                text.append(message.as_str());
                text
            },
            CoreError::Parse { path, message } => {
                let mut text = String::from_str("failed to load: ");
                text.append(path.as_str());
                text.append(": ");
                text.append(message.as_str());
                text
            },
            CoreError::SpecDirective { fragment, problem } => {
                let (before, after) = match problem {
                    DirectiveProblem::UnknownKind => (
                        "bad part in specification `",
                        "`: bad type",
                    ),
                    DirectiveProblem::MissingKey => ("missing key `", "` in hierarchy"),
                    DirectiveProblem::MissingVariable => (
                        "failed to load environment variable `",
                        "`",
                    ),
                };
                let mut text = String::from_str(before);
                text.append(fragment.as_str());
                text.append(after);
                text
            },
            CoreError::Deserialization { key, message } => {
                let mut text = String::from_str("bad value for key `");
                text.append(key.as_str());
                text.append("`: ");
                text.append(message.as_str());
                text
            },
            CoreError::CommandExecution { message } => message.clone(),
        }
    }
}

} // verus!
