//! Stable public failure categories and the typed public error.
use vstd::prelude::*;

verus! {

/// Stable, automation-oriented categories for public failures.
#[derive(Debug, Clone, Copy, PartialEq, Eq, Structural)]
#[non_exhaustive]
pub enum ErrorCategory {
    Input,
    Configuration,
    Dependency,
    Media,
    Execution,
    State,
    Io,
    Internal,
}

/// The CLI exit code of each category.
pub open spec fn category_exit_code(category: ErrorCategory) -> u8 {
    match category {
        ErrorCategory::Input => 3,
        ErrorCategory::Configuration => 4,
        ErrorCategory::Dependency => 5,
        ErrorCategory::Media => 6,
        ErrorCategory::Execution => 7,
        ErrorCategory::State => 8,
        ErrorCategory::Io => 9,
        ErrorCategory::Internal => 70,
    }
}

impl ErrorCategory {
    /// Stable CLI exit code associated with this category.
    pub fn exit_code(self) -> (code: u8)
        ensures
            code == category_exit_code(self),
    {
        match self {
            ErrorCategory::Input => 3,
            ErrorCategory::Configuration => 4,
            ErrorCategory::Dependency => 5,
            ErrorCategory::Media => 6,
            ErrorCategory::Execution => 7,
            ErrorCategory::State => 8,
            ErrorCategory::Io => 9,
            ErrorCategory::Internal => 70,
        }
    }
}

/// Distinct categories never share an exit code, and no category exits with
/// the success code or the generic failure codes 1 and 2.
pub proof fn lemma_exit_codes_identify_categories(a: ErrorCategory, b: ErrorCategory)
    ensures
        category_exit_code(a) == category_exit_code(b) <==> a == b,
        category_exit_code(a) > 2,
{
}

/// A typed public error with a stable category and actionable message.
#[derive(Debug)]
pub struct Error {
    category: ErrorCategory,
    message: String,
}

impl Error {
    pub closed spec fn spec_category(&self) -> ErrorCategory {
        self.category
    }

    pub closed spec fn spec_message(&self) -> Seq<char> {
        self.message@
    }

    pub fn new(category: ErrorCategory, message: &str) -> (error: Self)
        ensures
            error.spec_category() == category,
            error.spec_message() == message@,
    {
        Error { category, message: message.to_owned() }
    }

    pub fn from_string(category: ErrorCategory, message: String) -> (error: Self)
        ensures
            error.spec_category() == category,
            error.spec_message() == message@,
    {
        Error { category, message }
    }

    pub fn category(&self) -> (category: ErrorCategory)
        ensures
            category == self.spec_category(),
    {
        self.category
    }

    pub fn message(&self) -> (message: &str)
        ensures
            message@ == self.spec_message(),
    {
        self.message.as_str()
    }

    /// The message, as the error's textual rendering.
    pub fn to_text(&self) -> (text: String)
        ensures
            text@ == self.spec_message(),
    {
        self.message.clone()
    }
}

/// A configuration-category error.
pub fn invalid(message: String) -> (error: Error)
    ensures
        error.spec_category() == ErrorCategory::Configuration,
        error.spec_message() == message@,
{
    Error::from_string(ErrorCategory::Configuration, message)
}

} // verus!
