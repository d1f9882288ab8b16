//! The ways in which reading a configuration or building a script fails.
use vstd::prelude::*;

verus! {

/// Why a configuration is refused or a script cannot be built.
#[derive(Debug, PartialEq, Eq)]
pub enum DevoError {
    /// The configuration lists no task.
    EmptyTasks,
    /// A variable name is empty.
    EmptyEnvVarName,
    /// A variable name is not `[A-Za-z_][A-Za-z0-9_]*`.
    InvalidEnvVarName(String),
    /// Two tasks share this id.
    DuplicateTaskId(String),
    /// Not exactly one task uses the root pane; this many do.
    RootCount(usize),
    /// The task (first field) places its pane next to an unknown task (second field).
    UnknownPaneBase(String, String),
    /// `focus` names no task.
    UnknownFocus(String),
    /// The pane references form a cycle.
    PaneCycle,
    /// The task is not in the configuration.
    UnknownTask(String),
    /// `right_of:` with no task id after it.
    RightOfMissingId,
    /// `down_of:` with no task id after it.
    DownOfMissingId,
    /// A pane spec that is none of `root`, `right_of:<id>`, `down_of:<id>`.
    InvalidPaneSpec(String),
    /// A pane reference names no task.
    UnknownPaneReference(String),
    /// The session name given on the command line is empty.
    EmptySessionOverride,
    /// The session name came out empty.
    EmptyResolvedSession,
    /// No session name is configured and `SESSION_NAME` is not set.
    SessionNameUnavailable,
}

/// A `DevoError` with its texts as character sequences.
pub enum SpecError {
    EmptyTasks,
    EmptyEnvVarName,
    InvalidEnvVarName(Seq<char>),
    DuplicateTaskId(Seq<char>),
    RootCount(nat),
    UnknownPaneBase(Seq<char>, Seq<char>),
    UnknownFocus(Seq<char>),
    PaneCycle,
    UnknownTask(Seq<char>),
    RightOfMissingId,
    DownOfMissingId,
    InvalidPaneSpec(Seq<char>),
    UnknownPaneReference(Seq<char>),
    EmptySessionOverride,
    EmptyResolvedSession,
    SessionNameUnavailable,
}

impl View for DevoError {
    type V = SpecError;

    open spec fn view(&self) -> SpecError {
        match self {
            DevoError::EmptyTasks => SpecError::EmptyTasks,
            DevoError::EmptyEnvVarName => SpecError::EmptyEnvVarName,
            DevoError::InvalidEnvVarName(s) => SpecError::InvalidEnvVarName(s@),
            DevoError::DuplicateTaskId(s) => SpecError::DuplicateTaskId(s@),
            DevoError::RootCount(n) => SpecError::RootCount(*n as nat),
            DevoError::UnknownPaneBase(t, b) => SpecError::UnknownPaneBase(t@, b@),
            DevoError::UnknownFocus(s) => SpecError::UnknownFocus(s@),
            DevoError::PaneCycle => SpecError::PaneCycle,
            DevoError::UnknownTask(s) => SpecError::UnknownTask(s@),
            DevoError::RightOfMissingId => SpecError::RightOfMissingId,
            DevoError::DownOfMissingId => SpecError::DownOfMissingId,
            DevoError::InvalidPaneSpec(s) => SpecError::InvalidPaneSpec(s@),
            DevoError::UnknownPaneReference(s) => SpecError::UnknownPaneReference(s@),
            DevoError::EmptySessionOverride => SpecError::EmptySessionOverride,
            DevoError::EmptyResolvedSession => SpecError::EmptyResolvedSession,
            DevoError::SessionNameUnavailable => SpecError::SessionNameUnavailable,
        }
    }
}

/// A result whose error is taken by its view.
pub open spec fn res_view<T, U>(r: Result<T, DevoError>, f: spec_fn(T) -> U) -> Result<U, SpecError> {
    match r {
        Ok(v) => Ok(f(v)),
        Err(e) => Err(e@),
    }
}

} // verus!
