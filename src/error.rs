//! Errors raised while building catalogs and while looking messages up.
use crate::languages::LanguageTag;
use vstd::prelude::*;

verus! {

/// The syntax errors found in a Fluent resource.
#[derive(Debug)]
pub struct FluentSyntaxError {
    errors: Vec<fluent_syntax::parser::ParserError>,
}

impl FluentSyntaxError {
    /// Wraps the parser's errors.
    pub fn new(errors: Vec<fluent_syntax::parser::ParserError>) -> (r: FluentSyntaxError)
        ensures
            r.errors() == errors,
    {
        FluentSyntaxError { errors }
    }

    pub closed spec fn errors(&self) -> Vec<fluent_syntax::parser::ParserError> {
        self.errors
    }

    /// The parser's errors.
    pub fn parser_errors(&self) -> (r: &Vec<fluent_syntax::parser::ParserError>)
        ensures
            *r == self.errors(),
    {
        &self.errors
    }
}

/// Errors that can occur when building catalogs.
#[derive(Debug)]
pub enum LoaderError {
    /// A resource is not valid Fluent syntax.
    Fluent {
        /// The parse errors.
        source: FluentSyntaxError,
    },
    /// A resource could not be added to a catalog, for instance because it
    /// defines a message that is already defined.
    FluentBundle {
        /// The errors the bundle reported.
        errors: Vec<fluent_bundle::FluentError>,
    },
    /// A resource has a `.` followed by twenty digits or more: a number
    /// literal with a fraction that long cannot be formatted.
    LongFraction,
    /// A language name is not a well-formed language identifier.
    Language {
        /// The name as given.
        name: String,
    },
}

/// An error that happened while looking up a message in one language.
#[derive(Debug)]
pub enum LookupError {
    /// No message with this id (or the message has no value).
    MessageRetrieval(String),
    /// The message exists but has no such attribute.
    AttributeNotFound {
        message_id: String,
        attribute: String,
    },
    /// No catalog is loaded for the language.
    LangNotLoaded(LanguageTag),
    /// The message exists but formatting it reported errors.
    FormatErrors(Vec<fluent_bundle::FluentError>),
}

} // verus!
