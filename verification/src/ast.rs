//! The syntax tree of a program.
use crate::context::Identifier;
use crate::location::Location;
use crate::query::Cardinality;
use vstd::prelude::*;

verus! {

/// A whole program: its stanzas in the order of the source text, and the
/// query compiled from all their patterns together, with one pattern for each
/// stanza.
#[derive(Debug)]
pub struct File {
    pub query: Option<tree_sitter::Query>,
    pub stanzas: Vec<Stanza>,
}

/// One pattern with the statements that run for each of its matches.
#[derive(Debug)]
pub struct Stanza {
    /// The pattern of this stanza compiled on its own.
    pub query: tree_sitter::Query,
    pub statements: Vec<Statement>,
    /// The index of the capture for the whole match in the stanza's query.
    pub full_match_stanza_capture_index: usize,
    /// The index of the capture for the whole match in the file's query.
    pub full_match_file_capture_index: usize,
    pub location: Location,
}

#[derive(Debug)]
pub enum Statement {
    DeclareImmutable(DeclareImmutable),
    DeclareMutable(DeclareMutable),
    Assign(Assign),
    CreateGraphNode(CreateGraphNode),
    AddGraphNodeAttribute(AddGraphNodeAttribute),
    CreateEdge(CreateEdge),
    AddEdgeAttribute(AddEdgeAttribute),
    Scan(Scan),
    Print(Print),
    If(If),
    ForIn(ForIn),
}

/// `let variable = value`
#[derive(Debug)]
pub struct DeclareImmutable {
    pub variable: Variable,
    pub value: Expression,
    pub location: Location,
}

/// `var variable = value`
#[derive(Debug)]
pub struct DeclareMutable {
    pub variable: Variable,
    pub value: Expression,
    pub location: Location,
}

/// `set variable = value`
#[derive(Debug)]
pub struct Assign {
    pub variable: Variable,
    pub value: Expression,
    pub location: Location,
}

/// `node variable`
#[derive(Debug)]
pub struct CreateGraphNode {
    pub node: Variable,
    pub location: Location,
}

/// `attr (node) name = value, ...`
#[derive(Debug)]
pub struct AddGraphNodeAttribute {
    pub node: Expression,
    pub attributes: Vec<Attribute>,
    pub location: Location,
}

/// `edge source -> sink`
#[derive(Debug)]
pub struct CreateEdge {
    pub source: Expression,
    pub sink: Expression,
    pub location: Location,
}

/// `attr (source -> sink) name = value, ...`
#[derive(Debug)]
pub struct AddEdgeAttribute {
    pub source: Expression,
    pub sink: Expression,
    pub attributes: Vec<Attribute>,
    pub location: Location,
}

/// `scan value { arms }`
#[derive(Debug)]
pub struct Scan {
    pub value: ScanExpression,
    pub arms: Vec<ScanArm>,
    pub location: Location,
}

/// `"regex" { statements }`
#[derive(Debug)]
pub struct ScanArm {
    pub regex: String,
    pub statements: Vec<Statement>,
    pub location: Location,
}

/// `print value, ...`
#[derive(Debug)]
pub struct Print {
    pub values: Vec<Expression>,
    pub location: Location,
}

/// `if conditions { statements } elif conditions { statements } ...`
#[derive(Debug)]
pub struct If {
    pub arms: Vec<IfArm>,
    pub location: Location,
}

/// One arm of a conditional: the guards, all of which must hold, and the
/// body. An arm without guards is an `else`.
#[derive(Debug)]
pub struct IfArm {
    pub conditions: Vec<Condition>,
    pub statements: Vec<Statement>,
    pub location: Location,
}

/// A guard on the presence or the absence of optional captures.
#[derive(Debug)]
pub enum Condition {
    /// `none @capture, ...`
    Absent(Vec<Capture>),
    /// `some @capture, ...`
    Present(Vec<Capture>),
}

/// `for variable in value { statements }`
#[derive(Debug)]
pub struct ForIn {
    pub variable: UnscopedVariable,
    pub value: Expression,
    pub statements: Vec<Statement>,
    pub location: Location,
}

#[derive(Debug)]
pub enum Expression {
    FalseLiteral,
    NullLiteral,
    TrueLiteral,
    IntegerConstant(IntegerConstant),
    StringConstant(StringConstant),
    ListComprehension(ListComprehension),
    SetComprehension(SetComprehension),
    Capture(Capture),
    Variable(Variable),
    Call(Call),
    RegexCapture(RegexCapture),
}

/// The expressions that may stand as the value of a `scan`.
#[derive(Debug)]
pub enum ScanExpression {
    StringConstant(StringConstant),
    Capture(Capture),
    Variable(Variable),
    RegexCapture(RegexCapture),
}

#[derive(Debug)]
pub struct IntegerConstant {
    pub value: u32,
}

#[derive(Debug)]
pub struct StringConstant {
    pub value: String,
}

/// `[element, ...]`
#[derive(Debug)]
pub struct ListComprehension {
    pub elements: Vec<Expression>,
}

/// `{element, ...}`
#[derive(Debug)]
pub struct SetComprehension {
    pub elements: Vec<Expression>,
}

/// `@name`: a reference to a capture of the stanza's pattern. The three
/// fields after the name are filled in by the checking pass.
#[derive(Debug)]
pub struct Capture {
    pub name: Identifier,
    /// The multiplicity of the capture in the stanza's pattern.
    pub quantifier: Cardinality,
    /// The index of the capture in the file's query.
    pub file_capture_index: usize,
    /// The index of the capture in the stanza's query.
    pub stanza_capture_index: usize,
    pub location: Location,
}

/// `(function parameter ...)`
#[derive(Debug)]
pub struct Call {
    pub function: Identifier,
    pub parameters: Vec<Expression>,
}

/// `$n`: a group of the regular expression of the enclosing scan arm.
#[derive(Debug)]
pub struct RegexCapture {
    pub match_index: usize,
}

#[derive(Debug)]
pub enum Variable {
    Scoped(ScopedVariable),
    Unscoped(UnscopedVariable),
}

/// `scope.name`: a variable that lives on a syntax node.
#[derive(Debug)]
pub struct ScopedVariable {
    pub scope: Box<Expression>,
    pub name: Identifier,
    pub location: Location,
}

/// `name`: a variable of the lexical environment.
#[derive(Debug)]
pub struct UnscopedVariable {
    pub name: Identifier,
    pub location: Location,
}

/// `name = value`
#[derive(Debug)]
pub struct Attribute {
    pub name: Expression,
    pub value: Expression,
}

} // verus!
