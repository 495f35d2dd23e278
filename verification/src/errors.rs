use vstd::prelude::*;
use crate::delete_report::{DeleteThreadReport, summary_text};

verus! {

/// Coarse classification of storage errors.
#[derive(Debug, Clone, Copy, PartialEq, Eq, Structural)]
pub enum StateErrorCategory {
    Config,
    Initialization,
    Runtime,
    ExternalConnection,
}

/// Errors of the storage layer.
#[derive(Debug)]
pub enum StateError {
    Config(String),
    Initialization(String),
    NotFound(String),
    Conflict(String),
    Backend(String),
    /// A cascade delete that did not complete; carries its report.
    LifecycleIncomplete(Box<DeleteThreadReport>),
}

/// The category of each error variant.
pub open spec fn state_error_category(e: StateError) -> StateErrorCategory {
    match e {
        StateError::Config(_) => StateErrorCategory::Config,
        StateError::Initialization(_) => StateErrorCategory::Initialization,
        StateError::NotFound(_) | StateError::Conflict(_) | StateError::LifecycleIncomplete(_) => {
            StateErrorCategory::Runtime
        },
        StateError::Backend(_) => StateErrorCategory::ExternalConnection,
    }
}

/// The display text of each error variant.
pub open spec fn state_error_text(e: StateError) -> Seq<char> {
    match e {
        StateError::Config(m) => "config: "@ + m@,
        StateError::Initialization(m) => "initialization: "@ + m@,
        StateError::NotFound(m) => "not found: "@ + m@,
        StateError::Conflict(m) => "conflict: "@ + m@,
        StateError::Backend(m) => "backend: "@ + m@,
        StateError::LifecycleIncomplete(r) => summary_text(r.status@),
    }
}

fn prefixed(prefix: &str, message: &String) -> (r: String)
    ensures
        r@ == prefix@ + message@,
{
    let mut s = prefix.to_string();
    s.append(message.as_str());
    s
}

impl StateError {
    pub fn category(&self) -> (r: StateErrorCategory)
        ensures
            r == state_error_category(*self),
    {
        match self {
            StateError::Config(_) => StateErrorCategory::Config,
            StateError::Initialization(_) => StateErrorCategory::Initialization,
            StateError::NotFound(_) | StateError::Conflict(_) | StateError::LifecycleIncomplete(_) => {
                StateErrorCategory::Runtime
            },
            StateError::Backend(_) => StateErrorCategory::ExternalConnection,
        }
    }

    /// The error's display text.
    pub fn message(&self) -> (r: String)
        ensures
            r@ == state_error_text(*self),
    {
        match self {
            StateError::Config(m) => prefixed("config: ", m),
            StateError::Initialization(m) => prefixed("initialization: ", m),
            StateError::NotFound(m) => prefixed("not found: ", m),
            StateError::Conflict(m) => prefixed("conflict: ", m),
            StateError::Backend(m) => prefixed("backend: ", m),
            StateError::LifecycleIncomplete(r) => r.summary(),
        }
    }
}

/// Errors of the memory system, naming the operation that failed.
#[derive(Debug)]
pub enum MemorySystemError {
    StateOperation { operation: &'static str, source: StateError },
    Runtime { operation: &'static str, details: String },
}

impl MemorySystemError {
    /// The category of the underlying failure; runtime failures are `Runtime`.
    pub fn category(&self) -> (r: StateErrorCategory)
        ensures
            r == match *self {
                MemorySystemError::StateOperation { source, .. } => state_error_category(source),
                MemorySystemError::Runtime { .. } => StateErrorCategory::Runtime,
            },
    {
        match self {
            MemorySystemError::StateOperation { source, .. } => source.category(),
            MemorySystemError::Runtime { .. } => StateErrorCategory::Runtime,
        }
    }

    pub fn state_operation(operation: &'static str, source: StateError) -> (r: Self)
        ensures
            r == (MemorySystemError::StateOperation { operation, source }),
    {
        MemorySystemError::StateOperation { operation, source }
    }

    pub fn runtime(operation: &'static str, details: String) -> (r: Self)
        ensures
            r == (MemorySystemError::Runtime { operation, details }),
    {
        MemorySystemError::Runtime { operation, details }
    }

    /// The error's display text: `<operation> failed: <cause>`.
    pub fn message(&self) -> (r: String)
        ensures
            r@ == match *self {
                MemorySystemError::StateOperation { operation, source } => operation@ + " failed: "@
                    + state_error_text(source),
                MemorySystemError::Runtime { operation, details } => operation@ + " failed: "@
                    + details@,
            },
    {
        match self {
            MemorySystemError::StateOperation { operation, source } => {
                let mut s = String::from_str(*operation);
                s.append(" failed: ");
                let m = source.message();
                s.append(m.as_str());
                s
            },
            MemorySystemError::Runtime { operation, details } => {
                let mut s = String::from_str(*operation);
                s.append(" failed: ");
                s.append(details.as_str());
                s
            },
        }
    }
}

/// Errors of tool invocation.
#[derive(Debug, PartialEq, Eq)]
pub enum ToolError {
    Timeout,
    Validation(String),
    Execution(String),
}

impl ToolError {
    /// The error's display text.
    pub fn message(&self) -> (r: String)
        ensures
            r@ == match *self {
                ToolError::Timeout => "timeout"@,
                ToolError::Validation(m) => "validation: "@ + m@,
                ToolError::Execution(m) => "execution: "@ + m@,
            },
    {
        match self {
            ToolError::Timeout => "timeout".to_string(),
            ToolError::Validation(m) => prefixed("validation: ", m),
            ToolError::Execution(m) => prefixed("execution: ", m),
        }
    }
}

} // verus!
