//! Typed errors of the document store, each rendering to a fixed
//! human-readable prefix followed by a free-text description.

use vstd::prelude::*;
use vstd::string::StringExecFns;

verus! {

/// Mathematical model of an error: the kind together with its description.
pub enum LocalErrorV {
    ParsingError(Seq<char>),
    OidFormatError(Seq<char>),
    DataNotFoundError(Seq<char>),
    ConnectionError(Seq<char>),
    ContextError(Seq<char>),
    FilterDateParsing(Seq<char>),
    FilterStringParsing(Seq<char>),
}

/// The error taxonomy: each kind carries a free-text description.
#[derive(Debug)]
pub enum LocalError {
    ParsingError(String),
    OidFormatError(String),
    DataNotFoundError(String),
    ConnectionError(String),
    ContextError(String),
    FilterDateParsing(String),
    FilterStringParsing(String),
}

impl View for LocalError {
    type V = LocalErrorV;

    open spec fn view(&self) -> LocalErrorV {
        match self {
            LocalError::ParsingError(d) => LocalErrorV::ParsingError(d@),
            LocalError::OidFormatError(d) => LocalErrorV::OidFormatError(d@),
            LocalError::DataNotFoundError(d) => LocalErrorV::DataNotFoundError(d@),
            LocalError::ConnectionError(d) => LocalErrorV::ConnectionError(d@),
            LocalError::ContextError(d) => LocalErrorV::ContextError(d@),
            LocalError::FilterDateParsing(d) => LocalErrorV::FilterDateParsing(d@),
            LocalError::FilterStringParsing(d) => LocalErrorV::FilterStringParsing(d@),
        }
    }
}

/// How an error renders: a fixed prefix for its kind, then the description.
pub open spec fn render_error(e: LocalErrorV) -> Seq<char> {
    match e {
        LocalErrorV::ParsingError(d) => "Parsing exception : "@ + d,
        LocalErrorV::OidFormatError(d) => "ObjectId exception : "@ + d,
        LocalErrorV::DataNotFoundError(d) => "Data not found : "@ + d,
        LocalErrorV::ConnectionError(d) => "Connection exception : "@ + d,
        LocalErrorV::ContextError(d) => "Context exception : "@ + d,
        LocalErrorV::FilterDateParsing(d) => "Filter exception : "@ + d,
        LocalErrorV::FilterStringParsing(d) => "Filter exception : "@ + d,
    }
}

impl LocalError {
    /// The rendered message of this error.
    pub fn message(&self) -> (r: String)
        ensures
            r@ == render_error(self@),
    {
        match self {
            LocalError::ParsingError(d) => String::from_str("Parsing exception : ").concat(
                d.as_str(),
            ),
            LocalError::OidFormatError(d) => String::from_str("ObjectId exception : ").concat(
                d.as_str(),
            ),
            LocalError::DataNotFoundError(d) => String::from_str("Data not found : ").concat(
                d.as_str(),
            ),
            LocalError::ConnectionError(d) => String::from_str("Connection exception : ").concat(
                d.as_str(),
            ),
            LocalError::ContextError(d) => String::from_str("Context exception : ").concat(
                d.as_str(),
            ),
            LocalError::FilterDateParsing(d) => String::from_str("Filter exception : ").concat(
                d.as_str(),
            ),
            LocalError::FilterStringParsing(d) => String::from_str("Filter exception : ").concat(
                d.as_str(),
            ),
        }
    }
}

/// Mathematical model of an [`ApiError`].
pub struct ApiErrorV {
    pub error: LocalErrorV,
    pub description: Seq<char>,
}

/// An error as surfaced by the store's operations: the kind plus its
/// rendered description.
#[derive(Debug)]
pub struct ApiError {
    error: LocalError,
    description: String,
}

impl View for ApiError {
    type V = ApiErrorV;

    closed spec fn view(&self) -> ApiErrorV {
        ApiErrorV { error: self.error@, description: self.description@ }
    }
}

/// The model of the error that [`ApiError::new`] builds from a kind.
pub open spec fn api_error(e: LocalErrorV) -> ApiErrorV {
    ApiErrorV { error: e, description: render_error(e) }
}

impl ApiError {
    /// Wraps an error kind, rendering its description eagerly.
    pub fn new(error: LocalError) -> (r: ApiError)
        ensures
            r@ == api_error(error@),
    {
        let description = error.message();
        ApiError { error, description }
    }

    /// The rendered message of this error.
    pub fn message(&self) -> (r: String)
        ensures
            r@ == self@.description,
    {
        self.description.clone()
    }
}

} // verus!
