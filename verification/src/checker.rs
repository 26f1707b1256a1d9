//! What the checking pass works with: its errors, the facts it reads from the
//! compiled queries, and the summary it computes for an expression.
use crate::context::Context;
use crate::location::Location;
use crate::query::{query_capture_names, query_capture_quantifiers, Cardinality};
use crate::variables::{Scopes, VariableError};
use vstd::prelude::*;

verus! {

/// Why a program was refused.
#[derive(Debug, PartialEq, Eq)]
pub enum CheckError {
    /// A `for` loop iterates over a value that is not a list.
    ExpectedListValue(Location),
    /// A guard of a conditional tests a capture that is not optional.
    ExpectedOptionalValue(Location),
    /// A stanza mentions a capture that its own pattern does not bind.
    UndefinedSyntaxCapture(String, Location),
    /// A declaration or an assignment broke the scoping rules; the text is
    /// the name of the variable.
    Variable(VariableError, String),
}

/// A [`CheckError`] with its texts as sequences of characters.
pub enum CheckErrorView {
    ExpectedListValue(Location),
    ExpectedOptionalValue(Location),
    UndefinedSyntaxCapture(Seq<char>, Location),
    Variable(VariableError, Seq<char>),
}

impl View for CheckError {
    type V = CheckErrorView;

    open spec fn view(&self) -> CheckErrorView {
        match *self {
            CheckError::ExpectedListValue(location) => CheckErrorView::ExpectedListValue(location),
            CheckError::ExpectedOptionalValue(location) => CheckErrorView::ExpectedOptionalValue(
                location,
            ),
            CheckError::UndefinedSyntaxCapture(name, location) => {
                CheckErrorView::UndefinedSyntaxCapture(name@, location)
            },
            CheckError::Variable(error, name) => CheckErrorView::Variable(error, name@),
        }
    }
}

/// The view of a result of the checking pass.
pub open spec fn result_view<T>(result: Result<T, CheckError>) -> Result<T, CheckErrorView> {
    match result {
        Ok(value) => Ok(value),
        Err(error) => Err(error@),
    }
}

/// What the checking pass knows of the value of an expression.
#[derive(Clone, Copy, Debug, PartialEq, Eq, Structural)]
pub struct ExpressionResult {
    pub quantifier: Cardinality,
}

impl ExpressionResult {
    /// The summary of a single value.
    pub open spec fn single() -> ExpressionResult {
        ExpressionResult { quantifier: Cardinality::ExactlyOne }
    }

    /// The summary of a list of values.
    pub open spec fn list() -> ExpressionResult {
        ExpressionResult { quantifier: Cardinality::ZeroOrMore }
    }
}

/// The environment of the checking pass as a chain of scopes.
pub type Env = Scopes<ExpressionResult>;

/// The facts about names and captures under which the body of one stanza is
/// checked.
pub struct CaptureTable {
    /// The text of each interned name.
    pub names: Seq<Seq<char>>,
    /// The capture names of the stanza's own pattern, by index.
    pub stanza_captures: Seq<Seq<char>>,
    /// The capture names of all the patterns of the file, by index.
    pub file_captures: Seq<Seq<char>>,
    /// The multiplicity in the stanza's pattern of each capture of the file.
    pub quantifiers: Seq<Cardinality>,
}

/// Every name in `inner` is a name in `outer`.
pub open spec fn binds_all(outer: Seq<Seq<char>>, inner: Seq<Seq<char>>) -> bool {
    forall|name: Seq<char>| #[trigger] inner.contains(name) ==> outer.contains(name)
}

impl CaptureTable {
    /// Every capture of the stanza is a capture of the file.
    pub open spec fn wf(self) -> bool {
        binds_all(self.file_captures, self.stanza_captures)
    }
}

/// The services that the checking pass consults while it walks the body of
/// one stanza.
pub(crate) struct CheckContext<'a> {
    pub(crate) ctx: &'a Context,
    pub(crate) file_query: &'a tree_sitter::Query,
    pub(crate) stanza_index: usize,
    pub(crate) stanza_query: &'a tree_sitter::Query,
}

impl<'a> View for CheckContext<'a> {
    type V = CaptureTable;

    open(crate) spec fn view(&self) -> CaptureTable {
        CaptureTable {
            names: self.ctx@,
            stanza_captures: query_capture_names(*self.stanza_query),
            file_captures: query_capture_names(*self.file_query),
            quantifiers: query_capture_quantifiers(*self.file_query)[self.stanza_index as int],
        }
    }
}

impl<'a> CheckContext<'a> {
    /// The stanza has a row in the multiplicity table of the file's query,
    /// and the file's query binds every capture that the stanza's query
    /// binds.
    pub(crate) open spec fn wf(&self) -> bool {
        &&& self.stanza_index < query_capture_quantifiers(*self.file_query).len()
        &&& self@.wf()
    }
}

} // verus!
