//! Deciding whether a file can be checked.
use crate::ast::{
    Attribute, Capture, Condition, Expression, File, IfArm, ScanArm, ScanExpression, Statement,
    Variable,
};
use crate::checker::{binds_all, CheckError};
use crate::context::Context;
use crate::expressions::{all_interned, attributes_interned, unit_result};
use crate::program::FULL_MATCH;
use crate::query::{capture_index_for_name, capture_names, pattern_count, query_capture_names};
use crate::statements::{
    block_interned, captures_interned, conditions_interned, if_arms_interned, scan_arms_interned,
};
use vstd::prelude::*;

verus! {

impl Variable {
    /// Whether every name in the variable is one of the first `count` interned names.
    pub(crate) fn is_interned(&self, count: usize) -> (b: bool)
        ensures
            b == self.interned(count as nat),
        decreases self,
    {
        match self {
            Variable::Scoped(variable) => variable.name.index < count && variable.scope.is_interned(
                count,
            ),
            Variable::Unscoped(variable) => variable.name.index < count,
        }
    }
}

/// Whether every name in the elements is one of the first `count` interned names.
fn expressions_are_interned(expressions: &Vec<Expression>, count: usize) -> (b: bool)
    ensures
        b == all_interned(expressions@, count as nat),
    decreases expressions,
{
    let mut i: usize = 0;
    while i < expressions.len()
        invariant
            i <= expressions.len(),
            forall|j: int|
                #![trigger expressions@[j]]
                0 <= j < i ==> expressions@[j].interned(count as nat),
        decreases expressions.len() - i,
    {
        if !expressions[i].is_interned(count) {
            return false;
        }
        i = i + 1;
    }
    true
}

impl Expression {
    /// Whether every name in the expression is one of the first `count` interned names.
    pub(crate) fn is_interned(&self, count: usize) -> (b: bool)
        ensures
            b == self.interned(count as nat),
        decreases self,
    {
        match self {
            Expression::ListComprehension(expr) => expressions_are_interned(&expr.elements, count),
            Expression::SetComprehension(expr) => expressions_are_interned(&expr.elements, count),
            Expression::Capture(expr) => expr.name.index < count,
            Expression::Variable(expr) => expr.is_interned(count),
            Expression::Call(expr) => expr.function.index < count && expressions_are_interned(
                &expr.parameters,
                count,
            ),
            _ => true,
        }
    }
}

impl ScanExpression {
    /// Whether every name in the expression is one of the first `count` interned names.
    pub(crate) fn is_interned(&self, count: usize) -> (b: bool)
        ensures
            b == self.interned(count as nat),
    {
        match self {
            ScanExpression::Capture(expr) => expr.name.index < count,
            ScanExpression::Variable(expr) => expr.is_interned(count),
            _ => true,
        }
    }
}

/// Whether every name in the elements is one of the first `count` interned names.
fn attributes_are_interned(attributes: &Vec<Attribute>, count: usize) -> (b: bool)
    ensures
        b == attributes_interned(attributes@, count as nat),
{
    let mut i: usize = 0;
    while i < attributes.len()
        invariant
            i <= attributes.len(),
            forall|j: int|
                #![trigger attributes@[j]]
                0 <= j < i ==> attributes@[j].interned(count as nat),
        decreases attributes.len() - i,
    {
        if !(attributes[i].name.is_interned(count) && attributes[i].value.is_interned(count)) {
            return false;
        }
        i = i + 1;
    }
    true
}

/// Whether every name in the elements is one of the first `count` interned names.
fn captures_are_interned(captures: &Vec<Capture>, count: usize) -> (b: bool)
    ensures
        b == captures_interned(captures@, count as nat),
{
    let mut i: usize = 0;
    while i < captures.len()
        invariant
            i <= captures.len(),
            forall|j: int| #![trigger captures@[j]] 0 <= j < i ==> captures@[j].interned(count as nat),
        decreases captures.len() - i,
    {
        if !(captures[i].name.index < count) {
            return false;
        }
        i = i + 1;
    }
    true
}

/// Whether every name in the elements is one of the first `count` interned names.
fn conditions_are_interned(conditions: &Vec<Condition>, count: usize) -> (b: bool)
    ensures
        b == conditions_interned(conditions@, count as nat),
{
    let mut i: usize = 0;
    while i < conditions.len()
        invariant
            i <= conditions.len(),
            forall|j: int|
                #![trigger conditions@[j]]
                0 <= j < i ==> conditions@[j].interned(count as nat),
        decreases conditions.len() - i,
    {
        let interned = match &conditions[i] {
            Condition::Absent(captures) => captures_are_interned(captures, count),
            Condition::Present(captures) => captures_are_interned(captures, count),
        };
        if !interned {
            return false;
        }
        i = i + 1;
    }
    true
}

/// Whether every name in the elements is one of the first `count` interned names.
fn statements_are_interned(statements: &Vec<Statement>, count: usize) -> (b: bool)
    ensures
        b == block_interned(statements@, count as nat),
    decreases statements,
{
    let mut i: usize = 0;
    while i < statements.len()
        invariant
            i <= statements.len(),
            forall|j: int|
                #![trigger statements@[j]]
                0 <= j < i ==> statements@[j].interned(count as nat),
        decreases statements.len() - i,
    {
        if !statements[i].is_interned(count) {
            return false;
        }
        i = i + 1;
    }
    true
}

/// Whether every name in the elements is one of the first `count` interned names.
fn scan_arms_are_interned(arms: &Vec<ScanArm>, count: usize) -> (b: bool)
    ensures
        b == scan_arms_interned(arms@, count as nat),
    decreases arms,
{
    let mut i: usize = 0;
    while i < arms.len()
        invariant
            i <= arms.len(),
            forall|j: int| #![trigger arms@[j]] 0 <= j < i ==> arms@[j].interned(count as nat),
        decreases arms.len() - i,
    {
        if !statements_are_interned(&arms[i].statements, count) {
            return false;
        }
        i = i + 1;
    }
    true
}

/// Whether every name in the elements is one of the first `count` interned names.
fn if_arms_are_interned(arms: &Vec<IfArm>, count: usize) -> (b: bool)
    ensures
        b == if_arms_interned(arms@, count as nat),
    decreases arms,
{
    let mut i: usize = 0;
    while i < arms.len()
        invariant
            i <= arms.len(),
            forall|j: int| #![trigger arms@[j]] 0 <= j < i ==> arms@[j].interned(count as nat),
        decreases arms.len() - i,
    {
        if !(conditions_are_interned(&arms[i].conditions, count) && statements_are_interned(
            &arms[i].statements,
            count,
        )) {
            return false;
        }
        i = i + 1;
    }
    true
}

impl Statement {
    /// Whether every name in the statement is one of the first `count` interned names.
    pub(crate) fn is_interned(&self, count: usize) -> (b: bool)
        ensures
            b == self.interned(count as nat),
        decreases self,
    {
        match self {
            Statement::DeclareImmutable(stmt) => stmt.variable.is_interned(count)
                && stmt.value.is_interned(count),
            Statement::DeclareMutable(stmt) => stmt.variable.is_interned(count)
                && stmt.value.is_interned(count),
            Statement::Assign(stmt) => stmt.variable.is_interned(count) && stmt.value.is_interned(
                count,
            ),
            Statement::CreateGraphNode(stmt) => stmt.node.is_interned(count),
            Statement::AddGraphNodeAttribute(stmt) => stmt.node.is_interned(count)
                && attributes_are_interned(&stmt.attributes, count),
            Statement::CreateEdge(stmt) => stmt.source.is_interned(count) && stmt.sink.is_interned(
                count,
            ),
            Statement::AddEdgeAttribute(stmt) => stmt.source.is_interned(count)
                && stmt.sink.is_interned(count) && attributes_are_interned(&stmt.attributes, count),
            Statement::Scan(stmt) => stmt.value.is_interned(count) && scan_arms_are_interned(
                &stmt.arms,
                count,
            ),
            Statement::Print(stmt) => expressions_are_interned(&stmt.values, count),
            Statement::If(stmt) => if_arms_are_interned(&stmt.arms, count),
            Statement::ForIn(stmt) => stmt.variable.name.index < count && stmt.value.is_interned(
                count,
            ) && statements_are_interned(&stmt.statements, count),
        }
    }
}

/// Whether `file_query` binds every capture that `stanza_query` binds.
fn binds_captures_of(file_query: &tree_sitter::Query, stanza_query: &tree_sitter::Query) -> (b: bool)
    ensures
        b == binds_all(query_capture_names(*file_query), query_capture_names(*stanza_query)),
{
    let names = capture_names(stanza_query);
    let mut i: usize = 0;
    while i < names.len()
        invariant
            i <= names.len() == query_capture_names(*stanza_query).len(),
            forall|j: int| 0 <= j < names@.len() ==> (#[trigger] names@[j])@ == query_capture_names(
                *stanza_query,
            )[j],
            forall|j: int|
                0 <= j < i ==> query_capture_names(*file_query).contains(
                    #[trigger] query_capture_names(*stanza_query)[j],
                ),
        decreases names.len() - i,
    {
        if capture_index_for_name(file_query, names[i].as_str()).is_none() {
            assert(names@[i as int]@ == query_capture_names(*stanza_query)[i as int]);
            assert(query_capture_names(*stanza_query).contains(
                query_capture_names(*stanza_query)[i as int],
            ));
            return false;
        }
        assert(names@[i as int]@ == query_capture_names(*stanza_query)[i as int]);
        i = i + 1;
    }
    true
}

impl File {
    /// Whether the file can be checked with the names of `ctx`.
    pub fn is_checkable(&self, ctx: &Context) -> (b: bool)
        ensures
            b == self.checkable(ctx@),
    {
        let file_query = match &self.query {
            Some(query) => query,
            None => {
                return false;
            },
        };
        if self.stanzas.len() > 0 && capture_index_for_name(file_query, FULL_MATCH).is_none() {
            return false;
        }
        if self.stanzas.len() > pattern_count(file_query) {
            return false;
        }
        let count = ctx.len();
        let mut i: usize = 0;
        while i < self.stanzas.len()
            invariant
                i <= self.stanzas.len(),
                count == ctx@.len(),
                self.query == Some(*file_query),
                forall|j: int|
                    #![trigger self.stanzas[j]]
                    0 <= j < i ==> {
                        &&& self.stanzas[j].table(ctx@, *file_query, j).wf()
                        &&& self.stanzas[j].interned(ctx@.len())
                    },
            decreases self.stanzas.len() - i,
        {
            if !binds_captures_of(file_query, &self.stanzas[i].query) {
                return false;
            }
            if !statements_are_interned(&self.stanzas[i].statements, count) {
                return false;
            }
            i = i + 1;
        }
        true
    }

    /// Checks the file if it can be checked, and leaves it as it is if not.
    pub fn try_check(&mut self, ctx: &Context) -> (result: Option<Result<(), CheckError>>)
        ensures
            result is Some <==> old(self).checkable(ctx@),
            result is None ==> *final(self) == *old(self),
            result matches Some(checked) ==> {
                &&& unit_result(checked, old(self).failure(ctx@))
                &&& old(self).checked(*final(self), ctx@)
                &&& old(self).stanzas@.len() == 0 ==> *final(self) == *old(self)
            },
    {
        if self.is_checkable(ctx) {
            Some(self.check(ctx))
        } else {
            None
        }
    }
}

} // verus!
