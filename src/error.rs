//! The errors that stop a pipeline run.
use vstd::prelude::*;
use vstd::string::StringExecFns;

verus! {

/// Why a pipeline run stopped.
#[derive(Debug)]
pub enum BuildError {
    /// A vertex source has no fragment source beside it; holds the
    /// fragment path that was looked for.
    MissingFragment { path: String },
    /// The fragment path beside a vertex source is not a regular file.
    FragmentNotFile { path: String },
    /// The shader compiler could not be started.
    CompilerSpawn { command: String, reason: String },
    /// The shader compiler ran and reported failure; holds its standard
    /// error where that was valid text.
    CompilerFailed { command: String, stderr: Option<String> },
    /// A generated module is not a well-formed Rust file.
    Parse { file: String, reason: String },
}

/// The model of a `BuildError`.
pub enum BuildErrorView {
    MissingFragment { path: Seq<char> },
    FragmentNotFile { path: Seq<char> },
    CompilerSpawn { command: Seq<char>, reason: Seq<char> },
    CompilerFailed { command: Seq<char>, stderr: Option<Seq<char>> },
    Parse { file: Seq<char>, reason: Seq<char> },
}

impl View for BuildError {
    type V = BuildErrorView;

    open spec fn view(&self) -> BuildErrorView {
        match self {
            BuildError::MissingFragment { path } => BuildErrorView::MissingFragment { path: path@ },
            BuildError::FragmentNotFile { path } => BuildErrorView::FragmentNotFile { path: path@ },
            BuildError::CompilerSpawn { command, reason } => BuildErrorView::CompilerSpawn {
                command: command@,
                reason: reason@,
            },
            BuildError::CompilerFailed { command, stderr } => BuildErrorView::CompilerFailed {
                command: command@,
                stderr: match stderr {
                    Some(s) => Some(s@),
                    None => None,
                },
            },
            BuildError::Parse { file, reason } => BuildErrorView::Parse { file: file@, reason: reason@ },
        }
    }
}

/// The text that reports an error.
pub open spec fn message_spec(e: BuildErrorView) -> Seq<char> {
    match e {
        BuildErrorView::MissingFragment { path } => path + " does not exist"@,
        BuildErrorView::FragmentNotFile { path } => path + " is not a file"@,
        BuildErrorView::CompilerSpawn { command, reason } => command + "\n"@ + reason,
        BuildErrorView::CompilerFailed { command, stderr } => match stderr {
            Some(s) => command + "\n"@ + s,
            None => command + "\n"@,
        },
        BuildErrorView::Parse { file, reason } => "cannot parse "@ + file + ": "@ + reason,
    }
}

impl BuildError {
    /// The text that reports this error.
    pub fn message(&self) -> (r: String)
        ensures
            r@ == message_spec(self@),
    {
        match self {
            BuildError::MissingFragment { path } => path.clone().concat(" does not exist"),
            BuildError::FragmentNotFile { path } => path.clone().concat(" is not a file"),
            BuildError::CompilerSpawn { command, reason } => {
                command.clone().concat("\n").concat(reason.as_str())
            },
            BuildError::CompilerFailed { command, stderr } => {
                let r = command.clone().concat("\n");
                match stderr {
                    Some(s) => r.concat(s.as_str()),
                    None => r,
                }
            },
            BuildError::Parse { file, reason } => {
                String::from_str("cannot parse ").concat(file.as_str()).concat(": ").concat(
                    reason.as_str(),
                )
            },
        }
    }
}

} // verus!
