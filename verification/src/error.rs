//! Errors, and the exit status each class of outcome maps to.
use vstd::prelude::*;
use crate::text::{opt_text, text};

verus! {

/// How a command ended.
#[derive(Debug, Clone, Copy, PartialEq, Eq, Structural)]
pub enum ExitClass {
    Success,
    Failure,
    NeedsDecision,
    Usage,
}

pub open spec fn exit_code(class: ExitClass) -> u8 {
    match class {
        ExitClass::Success => 0,
        ExitClass::Failure => 1,
        ExitClass::NeedsDecision => 2,
        ExitClass::Usage => 64,
    }
}

impl ExitClass {
    /// The process exit status.
    pub fn code(&self) -> (r: u8)
        ensures
            r == exit_code(*self),
    {
        match self {
            ExitClass::Success => 0,
            ExitClass::Failure => 1,
            ExitClass::NeedsDecision => 2,
            ExitClass::Usage => 64,
        }
    }
}

/// No two classes share an exit status, so the status alone tells the class.
pub proof fn exit_codes_are_distinct(a: ExitClass, b: ExitClass)
    requires
        exit_code(a) == exit_code(b),
    ensures
        a == b,
{
}

/// An error that ends a command.
#[derive(Debug)]
pub struct GroveError {
    pub class: ExitClass,
    pub message: String,
    pub detail: Option<String>,
    /// The exit status that a signal asks for, in place of the class's.
    pub exit_code: Option<u8>,
}

/// The model of a `GroveError`.
#[verifier::ext_equal]
pub struct ErrorView {
    pub class: ExitClass,
    pub message: Seq<char>,
    pub detail: Option<Seq<char>>,
    pub exit_code: Option<u8>,
}

impl View for GroveError {
    type V = ErrorView;

    open spec fn view(&self) -> ErrorView {
        ErrorView {
            class: self.class,
            message: self.message@,
            detail: opt_text(self.detail),
            exit_code: self.exit_code,
        }
    }
}

pub open spec fn error(class: ExitClass, message: Seq<char>) -> ErrorView {
    ErrorView { class, message, detail: None, exit_code: None }
}

pub open spec fn usage(message: Seq<char>) -> ErrorView {
    error(ExitClass::Usage, message)
}

pub open spec fn failure(message: Seq<char>) -> ErrorView {
    error(ExitClass::Failure, message)
}

pub open spec fn needs_decision(message: Seq<char>) -> ErrorView {
    error(ExitClass::NeedsDecision, message)
}

pub open spec fn detailed(e: ErrorView, detail: Seq<char>) -> ErrorView {
    ErrorView { detail: Some(detail), ..e }
}

impl GroveError {
    /// The request itself is wrong.
    pub fn usage(message: String) -> (r: GroveError)
        ensures
            r@ == usage(message@),
    {
        GroveError { class: ExitClass::Usage, message, detail: None, exit_code: None }
    }

    /// Something did not work.
    pub fn failure(message: String) -> (r: GroveError)
        ensures
            r@ == failure(message@),
    {
        GroveError { class: ExitClass::Failure, message, detail: None, exit_code: None }
    }

    /// Only a person can decide how to go on.
    pub fn needs_decision(message: String) -> (r: GroveError)
        ensures
            r@ == needs_decision(message@),
    {
        GroveError { class: ExitClass::NeedsDecision, message, detail: None, exit_code: None }
    }

    /// Adds a second line of explanation, in place of any earlier one.
    pub fn with_detail(self, detail: String) -> (r: GroveError)
        ensures
            r@ == detailed(self@, detail@),
    {
        GroveError {
            class: self.class,
            message: self.message,
            detail: Some(detail),
            exit_code: self.exit_code,
        }
    }

    /// The exit status of a command that ends with the error.
    pub fn status(&self) -> (r: u8)
        ensures
            r == exit_status(self@),
    {
        match self.exit_code {
            Some(code) => code,
            None => self.class.code(),
        }
    }

    /// The text a user sees: the message, and the detail indented below it.
    pub fn to_text(&self) -> (r: String)
        ensures
            r@ == error_text(self@),
    {
        match &self.detail {
            None => self.message.clone(),
            Some(detail) => self.message.clone().concat("\n  ").concat(detail.as_str()),
        }
    }

    /// A copy of the error.
    pub fn copied(&self) -> (r: GroveError)
        ensures
            r@ == self@,
    {
        let detail = match &self.detail {
            None => None,
            Some(detail) => Some(detail.clone()),
        };
        GroveError {
            class: self.class,
            message: self.message.clone(),
            detail,
            exit_code: self.exit_code,
        }
    }
}

/// The exit status of a command that ends with an error.
pub open spec fn exit_status(e: ErrorView) -> u8 {
    match e.exit_code {
        Some(code) => code,
        None => exit_code(e.class),
    }
}

/// The text a user sees of an error.
pub open spec fn error_text(e: ErrorView) -> Seq<char> {
    match e.detail {
        None => e.message,
        Some(detail) => e.message + "\n  "@ + detail,
    }
}

/// A usage error with a fixed message.
pub fn usage_error(message: &str) -> (r: GroveError)
    ensures
        r@ == usage(message@),
{
    GroveError::usage(text(message))
}

/// A failure with a fixed message.
pub fn failure_error(message: &str) -> (r: GroveError)
    ensures
        r@ == failure(message@),
{
    GroveError::failure(text(message))
}

/// A decision with a fixed message.
pub fn decision_error(message: &str) -> (r: GroveError)
    ensures
        r@ == needs_decision(message@),
{
    GroveError::needs_decision(text(message))
}

pub type Result<T> = std::result::Result<T, GroveError>;

/// The model of an outcome that carries a value modelled by `f`.
pub open spec fn outcome<T, V>(r: Result<T>, f: spec_fn(T) -> V) -> std::result::Result<V, ErrorView> {
    match r {
        Ok(v) => Ok(f(v)),
        Err(e) => Err(e@),
    }
}

/// The model of an outcome whose value is its own model.
pub open spec fn plain<T>(r: Result<T>) -> std::result::Result<T, ErrorView> {
    match r {
        Ok(v) => Ok(v),
        Err(e) => Err(e@),
    }
}

/// The model of an outcome that carries a byte string.
pub open spec fn bytes_outcome(r: Result<Vec<u8>>) -> std::result::Result<Seq<u8>, ErrorView> {
    match r {
        Ok(v) => Ok(v@),
        Err(e) => Err(e@),
    }
}

/// The model of an outcome that carries a text.
pub open spec fn text_outcome(r: Result<String>) -> std::result::Result<Seq<char>, ErrorView> {
    match r {
        Ok(v) => Ok(v@),
        Err(e) => Err(e@),
    }
}

/// The model of an outcome that carries a list of byte strings.
pub open spec fn list_outcome(r: Result<Vec<Vec<u8>>>) -> std::result::Result<
    Seq<Seq<u8>>,
    ErrorView,
> {
    match r {
        Ok(v) => Ok(crate::bytes::views(v@)),
        Err(e) => Err(e@),
    }
}

/// A command ends with 64 where it was used wrongly, with 2 where a person has to decide, and with 1
/// where it failed; what is added to an error in words changes nothing of that.
pub proof fn errors_end_with_their_status(message: Seq<char>, detail: Seq<char>)
    ensures
        exit_status(usage(message)) == 64,
        exit_status(needs_decision(message)) == 2,
        exit_status(failure(message)) == 1,
        exit_status(detailed(usage(message), detail)) == 64,
        exit_status(detailed(needs_decision(message), detail)) == 2,
        exit_status(detailed(failure(message), detail)) == 1,
        exit_code(ExitClass::Success) == 0,
{
}

} // verus!
