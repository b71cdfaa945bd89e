//! The errors of the runtime's environments and stacks, and the frames of a stack trace.

use vstd::prelude::*;
use crate::span::SourceSpan;

verus! {

/// Why a variable could not be set.
#[derive(Debug, Clone, PartialEq, Eq)]
pub enum EnvironmentSetError {
    /// The variable is sealed: it cannot be modified.
    SealedVariable(String),
}

impl EnvironmentSetError {
    /// The message of the error.
    pub fn message(&self) -> (r: String)
        ensures
            r@ == environment_set_message(*self),
    {
        match self {
            EnvironmentSetError::SealedVariable(name) => {
                let mut s = String::from_str("cannot modify a sealed variable: '");
                s.append(name.as_str());
                s.append("'");
                proof {
                    reveal_strlit("cannot modify a sealed variable: '");
                    reveal_strlit("'");
                }
                s
            },
        }
    }
}

/// The message of an `EnvironmentSetError`.
pub open spec fn environment_set_message(e: EnvironmentSetError) -> Seq<char> {
    match e {
        EnvironmentSetError::SealedVariable(name) => "cannot modify a sealed variable: '"@ + name@ + "'"@,
    }
}

/// Why a variable could not be sealed.
#[derive(Debug, Clone, PartialEq, Eq)]
pub enum EnvironmentSealError {
    /// There is no variable of that name.
    VariableNotFound(String),
}

/// Why a variable could not be declared.
#[derive(Debug, Clone, PartialEq, Eq)]
pub enum StackDefinitionError {
    /// The innermost scope already declares it.
    AlreadyDeclared,
}

/// Why a variable could not be assigned.
#[derive(Debug, Clone, PartialEq, Eq)]
pub enum StackAssignmentError {
    /// The variable belongs to the base environment, which is read-only.
    AssignToBaseEnvironment,
    /// No scope declares the variable.
    AssignToUndefined(String),
    /// The variable is sealed.
    Unreassignable(String),
}

impl StackAssignmentError {
    /// The assignment error that a failed set of the variable stands for.
    pub fn from_set_error(err: EnvironmentSetError) -> (r: StackAssignmentError)
        ensures
            match err {
                EnvironmentSetError::SealedVariable(name) => r == StackAssignmentError::Unreassignable(name),
            },
    {
        match err {
            EnvironmentSetError::SealedVariable(name) => StackAssignmentError::Unreassignable(name),
        }
    }
}

/// The name under which a frame of a stack trace runs.
#[derive(Debug, Clone, PartialEq, Eq)]
pub enum FunctionName {
    /// A function without a name.
    Anonymous,
    /// The program's top level.
    TopLevel,
    /// A named function.
    Named(String),
}

/// The text shown for a function name in a stack trace.
pub open spec fn function_name_text(n: FunctionName) -> Seq<char> {
    match n {
        FunctionName::Anonymous => "<anônimo>"@,
        FunctionName::TopLevel => "<raiz>"@,
        FunctionName::Named(name) => name@,
    }
}

impl FunctionName {
    /// The text shown for this name in a stack trace.
    pub fn display_name(&self) -> (r: String)
        ensures
            r@ == function_name_text(*self),
    {
        match self {
            FunctionName::Anonymous => String::from_str("<anônimo>"),
            FunctionName::TopLevel => String::from_str("<raiz>"),
            FunctionName::Named(name) => name.clone(),
        }
    }
}

/// A frame of a stack trace: the function and where it was called.
#[derive(Debug, Clone)]
pub struct StackFrame {
    pub function_name: FunctionName,
    pub location: Option<SourceSpan>,
}

impl StackFrame {
    /// A frame made of its parts.
    pub fn new(function_name: FunctionName, location: Option<SourceSpan>) -> (r: StackFrame)
        ensures
            r.function_name == function_name,
            r.location == location,
    {
        StackFrame { function_name, location }
    }
}

} // verus!
