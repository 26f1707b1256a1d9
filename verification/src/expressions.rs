//! Checking expressions, captures, variables and attributes.
use crate::ast::{
    Attribute, Call, Capture, Expression, IntegerConstant, ListComprehension, RegexCapture,
    ScanExpression, ScopedVariable, SetComprehension, StringConstant, UnscopedVariable, Variable,
};
use crate::checker::{
    result_view, CaptureTable, CheckContext, CheckError, CheckErrorView, Env, ExpressionResult,
};
use crate::query::{
    capture_index_for_name, capture_quantifier, first_index_of, lemma_first_index_unique,
    Cardinality,
};
use crate::variables::{assign, declare, lookup, VariableMap};
use vstd::prelude::*;

verus! {

/// What a statement that binds or assigns a variable owes: on success the
/// environment that the rules give, on failure their error.
pub open spec fn env_result(
    result: Result<(), CheckError>,
    after: Env,
    expected: Result<Env, CheckErrorView>,
) -> bool {
    match expected {
        Ok(env) => result is Ok && after == env,
        Err(error) => result is Err && result->Err_0@ == error,
    }
}

/// What a check without a value owes: the error of the rules, or success
/// where they give none.
pub open spec fn unit_result(result: Result<(), CheckError>, expected: Option<CheckErrorView>) -> bool {
    match expected {
        Some(error) => result is Err && result->Err_0@ == error,
        None => result is Ok,
    }
}

/// The error of the first expression that fails, among the first `upto`.
pub open spec fn first_failure(exprs: Seq<Expression>, upto: int, env: Env, t: CaptureTable) -> Option<
    CheckErrorView,
>
    decreases exprs, upto,
{
    if 0 < upto <= exprs.len() {
        match first_failure(exprs, upto - 1, env, t) {
            Some(error) => Some(error),
            None => match exprs[upto - 1].outcome(env, t) {
                Err(error) => Some(error),
                Ok(_) => None,
            },
        }
    } else {
        None
    }
}

/// `news` is `olds` after the expressions were checked in order in `env`:
/// up to the first that fails, each is as its check leaves it; those after
/// it were not touched.
pub open spec fn all_checked(olds: Seq<Expression>, news: Seq<Expression>, env: Env, t: CaptureTable) -> bool
    decreases olds, olds.len() + 1,
{
    &&& olds.len() == news.len()
    &&& forall|i: int|
        #![trigger news[i]]
        0 <= i < olds.len() ==> if first_failure(olds, i, env, t) is None {
            olds[i].checked(news[i], env, t)
        } else {
            news[i] == olds[i]
        }
}

/// A failure among the first expressions is the failure of every longer
/// run.
pub proof fn lemma_first_failure_persists(
    exprs: Seq<Expression>,
    upto: int,
    later: int,
    env: Env,
    t: CaptureTable,
)
    requires
        0 <= upto <= later <= exprs.len(),
        first_failure(exprs, upto, env, t) is Some,
    ensures
        first_failure(exprs, later, env, t) == first_failure(exprs, upto, env, t),
    decreases later - upto,
{
    if upto < later {
        lemma_first_failure_persists(exprs, upto, later - 1, env, t);
    }
}

/// Every name in the expressions is one of the first `count` interned names.
pub open spec fn all_interned(exprs: Seq<Expression>, count: nat) -> bool
    decreases exprs, 0int,
{
    forall|i: int| #![trigger exprs[i]] 0 <= i < exprs.len() ==> exprs[i].interned(count)
}

impl Capture {
    /// Every name in the capture is one of the first `count` interned names.
    pub open spec fn interned(self, count: nat) -> bool {
        self.name.index < count
    }

    /// The text of the capture's name.
    pub open spec fn text(self, t: CaptureTable) -> Seq<char> {
        t.names[self.name.index as int]
    }

    /// The pattern of the stanza binds the capture.
    pub open spec fn defined(self, t: CaptureTable) -> bool {
        t.stanza_captures.contains(self.text(t))
    }

    /// The multiplicity that the file's query records for the capture in the
    /// pattern of the stanza.
    pub open spec fn cardinality(self, t: CaptureTable) -> Cardinality {
        t.quantifiers[first_index_of(t.file_captures, self.text(t))]
    }

    /// The capture with its indices and its multiplicity filled in.
    pub open spec fn resolved(self, t: CaptureTable) -> Capture {
        Capture {
            name: self.name,
            quantifier: self.cardinality(t),
            file_capture_index: first_index_of(t.file_captures, self.text(t)) as usize,
            stanza_capture_index: first_index_of(t.stanza_captures, self.text(t)) as usize,
            location: self.location,
        }
    }

    /// A capture that the stanza's pattern binds has the multiplicity that
    /// the file's query records for it; any other is an error.
    pub open spec fn outcome(self, t: CaptureTable) -> Result<ExpressionResult, CheckErrorView> {
        if self.defined(t) {
            Ok(ExpressionResult { quantifier: self.cardinality(t) })
        } else {
            Err(CheckErrorView::UndefinedSyntaxCapture(self.text(t), self.location))
        }
    }

    /// `new` is this capture after it was checked: resolved if the pattern
    /// of the stanza binds it, untouched if not.
    pub open spec fn checked(self, new: Capture, t: CaptureTable) -> bool {
        new == if self.defined(t) {
            self.resolved(t)
        } else {
            self
        }
    }

    /// Resolves the capture in the query of the stanza and in the query of
    /// the file, and records both indices and the multiplicity on the node.
    pub(crate) fn check(&mut self, ctx: &CheckContext) -> (result: Result<ExpressionResult, CheckError>)
        requires
            ctx.wf(),
            old(self).interned(ctx@.names.len()),
        ensures
            result_view(result) == old(self).outcome(ctx@),
            old(self).checked(*final(self), ctx@),
    {
        let name = ctx.ctx.resolve(self.name);
        let stanza_capture_index = match capture_index_for_name(ctx.stanza_query, name) {
            Some(index) => index,
            None => {
                return Err(CheckError::UndefinedSyntaxCapture(name.to_owned(), self.location));
            },
        };
        proof {
            lemma_first_index_unique(ctx@.stanza_captures, name@, stanza_capture_index as int);
        }
        let found = capture_index_for_name(ctx.file_query, name);
        assert(found is Some);
        let file_capture_index = found.unwrap();
        proof {
            lemma_first_index_unique(ctx@.file_captures, name@, file_capture_index as int);
        }
        self.stanza_capture_index = stanza_capture_index as usize;
        self.file_capture_index = file_capture_index as usize;
        self.quantifier = capture_quantifier(ctx.file_query, ctx.stanza_index, self.file_capture_index);
        Ok(ExpressionResult { quantifier: self.quantifier })
    }
}

impl IntegerConstant {
    /// A constant is a single value.
    pub(crate) fn check(&mut self, ctx: &CheckContext) -> (result: Result<ExpressionResult, CheckError>)
        ensures
            result_view(result) == Ok::<_, CheckErrorView>(ExpressionResult::single()),
            *final(self) == *old(self),
    {
        Ok(ExpressionResult { quantifier: Cardinality::ExactlyOne })
    }
}

impl StringConstant {
    /// A constant is a single value.
    pub(crate) fn check(&mut self, ctx: &CheckContext) -> (result: Result<ExpressionResult, CheckError>)
        ensures
            result_view(result) == Ok::<_, CheckErrorView>(ExpressionResult::single()),
            *final(self) == *old(self),
    {
        Ok(ExpressionResult { quantifier: Cardinality::ExactlyOne })
    }
}

impl RegexCapture {
    /// A group is a single value.
    pub(crate) fn check(&mut self, ctx: &CheckContext) -> (result: Result<ExpressionResult, CheckError>)
        ensures
            result_view(result) == Ok::<_, CheckErrorView>(ExpressionResult::single()),
            *final(self) == *old(self),
    {
        Ok(ExpressionResult { quantifier: Cardinality::ExactlyOne })
    }
}

/// Checks the expressions in order and stops at the first that fails.
pub(crate) fn check_expressions(
    expressions: &mut Vec<Expression>,
    ctx: &CheckContext,
    locals: &VariableMap<ExpressionResult>,
) -> (result: Result<(), CheckError>)
    requires
        ctx.wf(),
        all_interned(old(expressions)@, ctx@.names.len()),
    ensures
        unit_result(result, first_failure(old(expressions)@, old(expressions)@.len() as int, locals@, ctx@)),
        all_checked(old(expressions)@, final(expressions)@, locals@, ctx@),
    decreases *old(expressions),
{
    let ghost olds = expressions@;
    let mut i: usize = 0;
    while i < expressions.len()
        invariant
            i <= expressions.len() == olds.len(),
            olds == old(expressions)@,
            ctx.wf(),
            all_interned(olds, ctx@.names.len()),
            first_failure(olds, i as int, locals@, ctx@) is None,
            forall|j: int|
                #![trigger expressions@[j]]
                0 <= j < i ==> if first_failure(olds, j, locals@, ctx@) is None {
                    olds[j].checked(expressions@[j], locals@, ctx@)
                } else {
                    expressions@[j] == olds[j]
                },
            forall|j: int| #![trigger expressions@[j]] i <= j < expressions.len() ==> expressions@[j] == olds[j],
        decreases expressions.len() - i,
    {
        assert(olds[i as int].interned(ctx@.names.len()));
        let ghost before = expressions@;
        let checked = expressions[i].check(ctx, locals);
        assert forall|j: int|
            #![trigger expressions@[j]]
            0 <= j < expressions.len() && j != i implies expressions@[j] == before[j] by {}
        if let Err(error) = checked {
            proof {
                lemma_first_failure_persists(olds, i + 1, olds.len() as int, locals@, ctx@);
                assert forall|j: int| #![trigger expressions@[j]] i < j < olds.len() implies first_failure(
                    olds,
                    j,
                    locals@,
                    ctx@,
                ) is Some by {
                    lemma_first_failure_persists(olds, i + 1, j, locals@, ctx@);
                }
            }
            return Err(error);
        }
        i = i + 1;
    }
    Ok(())
}

impl ListComprehension {
    /// Every name in the list is one of the first `count` interned names.
    pub open spec fn interned(self, count: nat) -> bool
        decreases self, 0int,
    {
        all_interned(self.elements@, count)
    }

    /// A list is a list whatever its elements are; it fails where one of its
    /// elements fails.
    pub open spec fn outcome(self, env: Env, t: CaptureTable) -> Result<
        ExpressionResult,
        CheckErrorView,
    >
        decreases self, 0int,
    {
        match first_failure(self.elements@, self.elements@.len() as int, env, t) {
            Some(error) => Err(error),
            None => Ok(ExpressionResult::list()),
        }
    }

    /// `new` is this list after it was checked in `env`: the captures
    /// that the check reached are resolved, and nothing else differs.
    pub open spec fn checked(self, new: ListComprehension, env: Env, t: CaptureTable) -> bool
        decreases self, 0int,
    {
        all_checked(self.elements@, new.elements@, env, t)
    }

    /// Checks the list and resolves the captures in it.
    pub(crate) fn check(&mut self, ctx: &CheckContext, locals: &VariableMap<ExpressionResult>) -> (result:
        Result<ExpressionResult, CheckError>)
        requires
            ctx.wf(),
            old(self).interned(ctx@.names.len()),
        ensures
            result_view(result) == old(self).outcome(locals@, ctx@),
            old(self).checked(*final(self), locals@, ctx@),
        decreases *old(self),
    {
        check_expressions(&mut self.elements, ctx, locals)?;
        Ok(ExpressionResult { quantifier: Cardinality::ZeroOrMore })
    }
}

impl SetComprehension {
    /// Every name in the set is one of the first `count` interned names.
    pub open spec fn interned(self, count: nat) -> bool
        decreases self, 0int,
    {
        all_interned(self.elements@, count)
    }

    /// A set counts as a list of values; it fails where one of its elements
    /// fails.
    pub open spec fn outcome(self, env: Env, t: CaptureTable) -> Result<
        ExpressionResult,
        CheckErrorView,
    >
        decreases self, 0int,
    {
        match first_failure(self.elements@, self.elements@.len() as int, env, t) {
            Some(error) => Err(error),
            None => Ok(ExpressionResult::list()),
        }
    }

    /// `new` is this set after it was checked in `env`: the captures
    /// that the check reached are resolved, and nothing else differs.
    pub open spec fn checked(self, new: SetComprehension, env: Env, t: CaptureTable) -> bool
        decreases self, 0int,
    {
        all_checked(self.elements@, new.elements@, env, t)
    }

    /// Checks the set and resolves the captures in it.
    pub(crate) fn check(&mut self, ctx: &CheckContext, locals: &VariableMap<ExpressionResult>) -> (result:
        Result<ExpressionResult, CheckError>)
        requires
            ctx.wf(),
            old(self).interned(ctx@.names.len()),
        ensures
            result_view(result) == old(self).outcome(locals@, ctx@),
            old(self).checked(*final(self), locals@, ctx@),
        decreases *old(self),
    {
        check_expressions(&mut self.elements, ctx, locals)?;
        Ok(ExpressionResult { quantifier: Cardinality::ZeroOrMore })
    }
}

impl Call {
    /// Every name in the call is one of the first `count` interned names.
    pub open spec fn interned(self, count: nat) -> bool
        decreases self, 0int,
    {
        &&& self.function.index < count
        &&& all_interned(self.parameters@, count)
    }

    /// What a function returns is not known to the checking pass, which
    /// takes it for a single value. The call fails where one of its
    /// parameters fails.
    pub open spec fn outcome(self, env: Env, t: CaptureTable) -> Result<
        ExpressionResult,
        CheckErrorView,
    >
        decreases self, 0int,
    {
        match first_failure(self.parameters@, self.parameters@.len() as int, env, t) {
            Some(error) => Err(error),
            None => Ok(ExpressionResult::single()),
        }
    }

    /// `new` is this call after it was checked in `env`: the captures
    /// that the check reached are resolved, and nothing else differs.
    pub open spec fn checked(self, new: Call, env: Env, t: CaptureTable) -> bool
        decreases self, 0int,
    {
        new.function == self.function && all_checked(self.parameters@, new.parameters@, env, t)
    }

    /// Checks the call and resolves the captures in it.
    pub(crate) fn check(&mut self, ctx: &CheckContext, locals: &VariableMap<ExpressionResult>) -> (result:
        Result<ExpressionResult, CheckError>)
        requires
            ctx.wf(),
            old(self).interned(ctx@.names.len()),
        ensures
            result_view(result) == old(self).outcome(locals@, ctx@),
            old(self).checked(*final(self), locals@, ctx@),
        decreases *old(self),
    {
        check_expressions(&mut self.parameters, ctx, locals)?;
        Ok(ExpressionResult { quantifier: Cardinality::ExactlyOne })
    }
}

impl UnscopedVariable {
    /// Every name in the variable is one of the first `count` interned names.
    pub open spec fn interned(self, count: nat) -> bool {
        self.name.index < count
    }

    /// A reference sees the binding of the innermost scope that declares the
    /// name. A name that no scope declares may be bound from outside the
    /// program, so it is no error: it counts as a single value.
    pub open spec fn get_outcome(self, env: Env) -> ExpressionResult {
        match lookup(env, self.name.index) {
            Some(value) => value,
            None => ExpressionResult::single(),
        }
    }

    /// Declaring the variable in the innermost scope of `env`.
    pub open spec fn add_outcome(
        self,
        env: Env,
        t: CaptureTable,
        value: ExpressionResult,
        mutable: bool,
    ) -> Result<Env, CheckErrorView> {
        match declare(env, self.name.index, value, mutable) {
            Ok(scopes) => Ok(scopes),
            Err(error) => Err(CheckErrorView::Variable(error, t.names[self.name.index as int])),
        }
    }

    /// Assigning to the variable in `env`.
    pub open spec fn set_outcome(self, env: Env, t: CaptureTable, value: ExpressionResult) -> Result<
        Env,
        CheckErrorView,
    > {
        match assign(env, self.name.index, value) {
            Ok(scopes) => Ok(scopes),
            Err(error) => Err(CheckErrorView::Variable(error, t.names[self.name.index as int])),
        }
    }

    /// Checks a declaration of the variable with the value `value`.
    pub(crate) fn add_check(
        &mut self,
        ctx: &CheckContext,
        locals: &mut VariableMap<ExpressionResult>,
        value: ExpressionResult,
        mutable: bool,
    ) -> (result: Result<(), CheckError>)
        requires
            old(self).interned(ctx@.names.len()),
            old(locals).wf(),
        ensures
            env_result(
                result,
                final(locals)@,
                old(self).add_outcome(old(locals)@, ctx@, value, mutable),
            ),
            final(locals)@.len() == old(locals)@.len(),
            result is Err ==> final(locals)@ == old(locals)@,
            *final(self) == *old(self),
    {
        match locals.add(self.name, value, mutable) {
            Ok(()) => Ok(()),
            Err(error) => Err(CheckError::Variable(error, ctx.ctx.resolve(self.name).to_owned())),
        }
    }

    /// Checks an assignment of the value `value` to the variable.
    pub(crate) fn set_check(
        &mut self,
        ctx: &CheckContext,
        locals: &mut VariableMap<ExpressionResult>,
        value: ExpressionResult,
    ) -> (result: Result<(), CheckError>)
        requires
            old(self).interned(ctx@.names.len()),
            old(locals).wf(),
        ensures
            env_result(result, final(locals)@, old(self).set_outcome(old(locals)@, ctx@, value)),
            final(locals)@.len() == old(locals)@.len(),
            result is Err ==> final(locals)@ == old(locals)@,
            *final(self) == *old(self),
    {
        match locals.set(self.name, value) {
            Ok(()) => Ok(()),
            Err(error) => Err(CheckError::Variable(error, ctx.ctx.resolve(self.name).to_owned())),
        }
    }

    /// Checks a reference to the variable.
    pub(crate) fn get_check(&mut self, ctx: &CheckContext, locals: &VariableMap<ExpressionResult>) -> (result:
        Result<ExpressionResult, CheckError>)
        ensures
            result_view(result) == Ok::<_, CheckErrorView>(old(self).get_outcome(locals@)),
            *final(self) == *old(self),
    {
        let value = match locals.get(self.name) {
            Some(value) => *value,
            None => ExpressionResult { quantifier: Cardinality::ExactlyOne },
        };
        Ok(value)
    }
}

impl ScopedVariable {
    /// Every name in the variable is one of the first `count` interned names.
    pub open spec fn interned(self, count: nat) -> bool
        decreases self, 0int,
    {
        &&& self.name.index < count
        &&& self.scope.interned(count)
    }

    /// The error in the expression that the variable lives on, if it has
    /// one. Which variables a syntax node carries is known only when the
    /// program runs, so nothing else is checked.
    pub open spec fn failure(self, env: Env, t: CaptureTable) -> Option<CheckErrorView>
        decreases self, 0int,
    {
        match self.scope.outcome(env, t) {
            Ok(_) => None,
            Err(error) => Some(error),
        }
    }

    /// `new` is this variable after it was checked in `env`: the captures
    /// that the check reached are resolved, and nothing else differs.
    pub open spec fn checked(self, new: ScopedVariable, env: Env, t: CaptureTable) -> bool
        decreases self, 0int,
    {
        &&& new.name == self.name
        &&& new.location == self.location
        &&& self.scope.checked(*new.scope, env, t)
    }

    /// Checks a declaration of the variable with the value `value`.
    pub(crate) fn add_check(
        &mut self,
        ctx: &CheckContext,
        locals: &VariableMap<ExpressionResult>,
        value: ExpressionResult,
        mutable: bool,
    ) -> (result: Result<(), CheckError>)
        requires
            ctx.wf(),
            old(self).interned(ctx@.names.len()),
        ensures
            unit_result(result, old(self).failure(locals@, ctx@)),
            old(self).checked(*final(self), locals@, ctx@),
        decreases *old(self),
    {
        self.scope.check(ctx, locals)?;
        Ok(())
    }

    /// Checks an assignment of the value `value` to the variable.
    pub(crate) fn set_check(
        &mut self,
        ctx: &CheckContext,
        locals: &VariableMap<ExpressionResult>,
        value: ExpressionResult,
    ) -> (result: Result<(), CheckError>)
        requires
            ctx.wf(),
            old(self).interned(ctx@.names.len()),
        ensures
            unit_result(result, old(self).failure(locals@, ctx@)),
            old(self).checked(*final(self), locals@, ctx@),
        decreases *old(self),
    {
        self.scope.check(ctx, locals)?;
        Ok(())
    }

    /// Checks a reference to the variable.
    pub(crate) fn get_check(&mut self, ctx: &CheckContext, locals: &VariableMap<ExpressionResult>) -> (result:
        Result<ExpressionResult, CheckError>)
        requires
            ctx.wf(),
            old(self).interned(ctx@.names.len()),
        ensures
            result_view(result) == match old(self).failure(locals@, ctx@) {
                Some(error) => Err::<ExpressionResult, _>(error),
                None => Ok(ExpressionResult::single()),
            },
            old(self).checked(*final(self), locals@, ctx@),
        decreases *old(self),
    {
        self.scope.check(ctx, locals)?;
        Ok(ExpressionResult { quantifier: Cardinality::ExactlyOne })
    }
}

impl Variable {
    /// Every name in the variable is one of the first `count` interned names.
    pub open spec fn interned(self, count: nat) -> bool
        decreases self, 0int,
    {
        match self {
            Variable::Scoped(variable) => variable.interned(count),
            Variable::Unscoped(variable) => variable.interned(count),
        }
    }

    /// Reading the variable.
    pub open spec fn get_outcome(self, env: Env, t: CaptureTable) -> Result<
        ExpressionResult,
        CheckErrorView,
    >
        decreases self, 0int,
    {
        match self {
            Variable::Scoped(variable) => match variable.failure(env, t) {
                Some(error) => Err(error),
                None => Ok(ExpressionResult::single()),
            },
            Variable::Unscoped(variable) => Ok(variable.get_outcome(env)),
        }
    }

    /// Declaring the variable with `value`. Only a variable of the lexical
    /// environment changes the environment.
    pub open spec fn add_outcome(
        self,
        env: Env,
        t: CaptureTable,
        value: ExpressionResult,
        mutable: bool,
    ) -> Result<Env, CheckErrorView> {
        match self {
            Variable::Scoped(variable) => match variable.failure(env, t) {
                Some(error) => Err(error),
                None => Ok(env),
            },
            Variable::Unscoped(variable) => variable.add_outcome(env, t, value, mutable),
        }
    }

    /// Assigning `value` to the variable. Only a variable of the lexical
    /// environment changes the environment.
    pub open spec fn set_outcome(self, env: Env, t: CaptureTable, value: ExpressionResult) -> Result<
        Env,
        CheckErrorView,
    > {
        match self {
            Variable::Scoped(variable) => match variable.failure(env, t) {
                Some(error) => Err(error),
                None => Ok(env),
            },
            Variable::Unscoped(variable) => variable.set_outcome(env, t, value),
        }
    }

    /// `new` is this variable after it was checked in `env`: the captures
    /// that the check reached are resolved, and nothing else differs.
    pub open spec fn checked(self, new: Variable, env: Env, t: CaptureTable) -> bool
        decreases self, 0int,
    {
        match self {
            Variable::Scoped(a) => new matches Variable::Scoped(b) && a.checked(b, env, t),
            Variable::Unscoped(_) => new == self,
        }
    }

    /// Checks a declaration of the variable with the value `value`.
    pub(crate) fn add_check(
        &mut self,
        ctx: &CheckContext,
        locals: &mut VariableMap<ExpressionResult>,
        value: ExpressionResult,
        mutable: bool,
    ) -> (result: Result<(), CheckError>)
        requires
            ctx.wf(),
            old(self).interned(ctx@.names.len()),
            old(locals).wf(),
        ensures
            env_result(
                result,
                final(locals)@,
                old(self).add_outcome(old(locals)@, ctx@, value, mutable),
            ),
            final(locals)@.len() == old(locals)@.len(),
            result is Err ==> final(locals)@ == old(locals)@,
            old(self).checked(*final(self), old(locals)@, ctx@),
    {
        match self {
            Variable::Unscoped(variable) => variable.add_check(ctx, locals, value, mutable),
            Variable::Scoped(variable) => variable.add_check(ctx, locals, value, mutable),
        }
    }

    /// Checks an assignment of the value `value` to the variable.
    pub(crate) fn set_check(
        &mut self,
        ctx: &CheckContext,
        locals: &mut VariableMap<ExpressionResult>,
        value: ExpressionResult,
    ) -> (result: Result<(), CheckError>)
        requires
            ctx.wf(),
            old(self).interned(ctx@.names.len()),
            old(locals).wf(),
        ensures
            env_result(result, final(locals)@, old(self).set_outcome(old(locals)@, ctx@, value)),
            final(locals)@.len() == old(locals)@.len(),
            result is Err ==> final(locals)@ == old(locals)@,
            old(self).checked(*final(self), old(locals)@, ctx@),
    {
        match self {
            Variable::Unscoped(variable) => variable.set_check(ctx, locals, value),
            Variable::Scoped(variable) => variable.set_check(ctx, locals, value),
        }
    }

    /// Checks a reference to the variable.
    pub(crate) fn get_check(&mut self, ctx: &CheckContext, locals: &VariableMap<ExpressionResult>) -> (result:
        Result<ExpressionResult, CheckError>)
        requires
            ctx.wf(),
            old(self).interned(ctx@.names.len()),
        ensures
            result_view(result) == old(self).get_outcome(locals@, ctx@),
            old(self).checked(*final(self), locals@, ctx@),
        decreases *old(self),
    {
        match self {
            Variable::Unscoped(variable) => variable.get_check(ctx, locals),
            Variable::Scoped(variable) => variable.get_check(ctx, locals),
        }
    }
}

impl Expression {
    /// Every name in the expression is one of the first `count` interned
    /// names.
    pub open spec fn interned(self, count: nat) -> bool
        decreases self, 0int,
    {
        match self {
            Expression::ListComprehension(expr) => expr.interned(count),
            Expression::SetComprehension(expr) => expr.interned(count),
            Expression::Capture(expr) => expr.interned(count),
            Expression::Variable(expr) => expr.interned(count),
            Expression::Call(expr) => expr.interned(count),
            _ => true,
        }
    }

    /// The summary of the expression's value in the environment `env`, or
    /// the first error in it. Literals, constants and groups of a regular
    /// expression are single values.
    pub open spec fn outcome(self, env: Env, t: CaptureTable) -> Result<
        ExpressionResult,
        CheckErrorView,
    >
        decreases self, 0int,
    {
        match self {
            Expression::ListComprehension(expr) => expr.outcome(env, t),
            Expression::SetComprehension(expr) => expr.outcome(env, t),
            Expression::Capture(expr) => expr.outcome(t),
            Expression::Variable(expr) => expr.get_outcome(env, t),
            Expression::Call(expr) => expr.outcome(env, t),
            _ => Ok(ExpressionResult::single()),
        }
    }

    /// `new` is this expression after it was checked in `env`: the captures
    /// that the check reached are resolved, and nothing else differs.
    pub open spec fn checked(self, new: Expression, env: Env, t: CaptureTable) -> bool
        decreases self, 0int,
    {
        match self {
            Expression::ListComprehension(a) => new matches Expression::ListComprehension(b)
                && a.checked(b, env, t),
            Expression::SetComprehension(a) => new matches Expression::SetComprehension(b)
                && a.checked(b, env, t),
            Expression::Capture(a) => new matches Expression::Capture(b) && a.checked(b, t),
            Expression::Variable(a) => new matches Expression::Variable(b) && a.checked(b, env, t),
            Expression::Call(a) => new matches Expression::Call(b) && a.checked(b, env, t),
            _ => new == self,
        }
    }

    /// Checks the expression and resolves the captures in it.
    pub(crate) fn check(&mut self, ctx: &CheckContext, locals: &VariableMap<ExpressionResult>) -> (result:
        Result<ExpressionResult, CheckError>)
        requires
            ctx.wf(),
            old(self).interned(ctx@.names.len()),
        ensures
            result_view(result) == old(self).outcome(locals@, ctx@),
            old(self).checked(*final(self), locals@, ctx@),
        decreases *old(self),
    {
        match self {
            Expression::FalseLiteral => Ok(ExpressionResult { quantifier: Cardinality::ExactlyOne }),
            Expression::NullLiteral => Ok(ExpressionResult { quantifier: Cardinality::ExactlyOne }),
            Expression::TrueLiteral => Ok(ExpressionResult { quantifier: Cardinality::ExactlyOne }),
            Expression::IntegerConstant(expr) => expr.check(ctx),
            Expression::StringConstant(expr) => expr.check(ctx),
            Expression::ListComprehension(expr) => expr.check(ctx, locals),
            Expression::SetComprehension(expr) => expr.check(ctx, locals),
            Expression::Capture(expr) => expr.check(ctx),
            Expression::Variable(expr) => expr.get_check(ctx, locals),
            Expression::Call(expr) => expr.check(ctx, locals),
            Expression::RegexCapture(expr) => expr.check(ctx),
        }
    }
}

impl ScanExpression {
    /// Every name in the expression is one of the first `count` interned names.
    pub open spec fn interned(self, count: nat) -> bool {
        match self {
            ScanExpression::Capture(expr) => expr.interned(count),
            ScanExpression::Variable(expr) => expr.interned(count),
            _ => true,
        }
    }

    /// As for the same forms of [`Expression`].
    pub open spec fn outcome(self, env: Env, t: CaptureTable) -> Result<
        ExpressionResult,
        CheckErrorView,
    > {
        match self {
            ScanExpression::Capture(expr) => expr.outcome(t),
            ScanExpression::Variable(expr) => expr.get_outcome(env, t),
            _ => Ok(ExpressionResult::single()),
        }
    }

    /// `new` is this expression after it was checked in `env`: the captures
    /// that the check reached are resolved, and nothing else differs.
    pub open spec fn checked(self, new: ScanExpression, env: Env, t: CaptureTable) -> bool {
        match self {
            ScanExpression::Capture(a) => new matches ScanExpression::Capture(b) && a.checked(b, t),
            ScanExpression::Variable(a) => new matches ScanExpression::Variable(b) && a.checked(
                b,
                env,
                t,
            ),
            _ => new == self,
        }
    }

    /// Checks the expression and resolves the captures in it.
    pub(crate) fn check(&mut self, ctx: &CheckContext, locals: &VariableMap<ExpressionResult>) -> (result:
        Result<ExpressionResult, CheckError>)
        requires
            ctx.wf(),
            old(self).interned(ctx@.names.len()),
        ensures
            result_view(result) == old(self).outcome(locals@, ctx@),
            old(self).checked(*final(self), locals@, ctx@),
    {
        match self {
            ScanExpression::StringConstant(expr) => expr.check(ctx),
            ScanExpression::Capture(expr) => expr.check(ctx),
            ScanExpression::Variable(expr) => expr.get_check(ctx, locals),
            ScanExpression::RegexCapture(expr) => expr.check(ctx),
        }
    }
}

impl Attribute {
    /// Every name in the attribute is one of the first `count` interned names.
    pub open spec fn interned(self, count: nat) -> bool {
        self.name.interned(count) && self.value.interned(count)
    }

    /// The error in the value of the attribute, if it has one. The name of
    /// an attribute is not checked.
    pub open spec fn failure(self, env: Env, t: CaptureTable) -> Option<CheckErrorView> {
        match self.value.outcome(env, t) {
            Ok(_) => None,
            Err(error) => Some(error),
        }
    }

    /// `new` is this attribute after it was checked in `env`: the captures
    /// that the check reached are resolved, and nothing else differs.
    pub open spec fn checked(self, new: Attribute, env: Env, t: CaptureTable) -> bool {
        new.name == self.name && self.value.checked(new.value, env, t)
    }

    /// Checks the attribute and resolves the captures in it.
    pub(crate) fn check(&mut self, ctx: &CheckContext, locals: &VariableMap<ExpressionResult>) -> (result:
        Result<(), CheckError>)
        requires
            ctx.wf(),
            old(self).interned(ctx@.names.len()),
        ensures
            unit_result(result, old(self).failure(locals@, ctx@)),
            old(self).checked(*final(self), locals@, ctx@),
    {
        self.value.check(ctx, locals)?;
        Ok(())
    }
}

/// A capture that the pattern of the stanza does not bind is refused with
/// its name and its location. What the query of the file binds plays no part
/// in this: a capture of another stanza is as undefined as one that no
/// pattern binds.
pub proof fn lemma_capture_outside_pattern(capture: Capture, env: Env, t: CaptureTable)
    requires
        !t.stanza_captures.contains(capture.text(t)),
    ensures
        capture.outcome(t) == Err::<ExpressionResult, CheckErrorView>(
            CheckErrorView::UndefinedSyntaxCapture(capture.text(t), capture.location),
        ),
        Expression::Capture(capture).outcome(env, t) == capture.outcome(t),
{
}

/// A reference to a name that no scope declares is accepted, and counts as a
/// single value.
pub proof fn lemma_undeclared_variable(variable: UnscopedVariable, env: Env, t: CaptureTable)
    requires
        lookup(env, variable.name.index) is None,
    ensures
        Expression::Variable(Variable::Unscoped(variable)).outcome(env, t) == Ok::<
            ExpressionResult,
            CheckErrorView,
        >(ExpressionResult::single()),
{
}

/// A reference to a declared name has the summary of the innermost binding.
pub proof fn lemma_declared_variable(variable: UnscopedVariable, env: Env, t: CaptureTable)
    requires
        lookup(env, variable.name.index) is Some,
    ensures
        Expression::Variable(Variable::Unscoped(variable)).outcome(env, t) == Ok::<
            ExpressionResult,
            CheckErrorView,
        >(lookup(env, variable.name.index)->Some_0),
{
}

/// The error of the first attribute that fails, among the first `upto`.
pub open spec fn attributes_failure(
    attributes: Seq<Attribute>,
    upto: int,
    env: Env,
    t: CaptureTable,
) -> Option<CheckErrorView>
    decreases upto,
{
    if 0 < upto <= attributes.len() {
        match attributes_failure(attributes, upto - 1, env, t) {
            Some(error) => Some(error),
            None => attributes[upto - 1].failure(env, t),
        }
    } else {
        None
    }
}

/// `news` is `olds` after the attributes were checked in order in `env`: up
/// to the first that fails, each is as its check leaves it; those after it
/// were not touched.
pub open spec fn attributes_checked(
    olds: Seq<Attribute>,
    news: Seq<Attribute>,
    env: Env,
    t: CaptureTable,
) -> bool {
    &&& olds.len() == news.len()
    &&& forall|i: int|
        #![trigger news[i]]
        0 <= i < olds.len() ==> if attributes_failure(olds, i, env, t) is None {
            olds[i].checked(news[i], env, t)
        } else {
            news[i] == olds[i]
        }
}

/// Every name in the elements is one of the first `count` interned names.
pub open spec fn attributes_interned(attributes: Seq<Attribute>, count: nat) -> bool {
    forall|i: int| #![trigger attributes[i]] 0 <= i < attributes.len() ==> attributes[i].interned(count)
}

/// A failure among the first attributes is the failure of every longer run.
pub proof fn lemma_attributes_failure_persists(
    attributes: Seq<Attribute>,
    upto: int,
    later: int,
    env: Env,
    t: CaptureTable,
)
    requires
        0 <= upto <= later <= attributes.len(),
        attributes_failure(attributes, upto, env, t) is Some,
    ensures
        attributes_failure(attributes, later, env, t) == attributes_failure(attributes, upto, env, t),
    decreases later - upto,
{
    if upto < later {
        lemma_attributes_failure_persists(attributes, upto, later - 1, env, t);
    }
}

/// Checks the attributes in order and stops at the first that fails.
pub(crate) fn check_attributes(
    attributes: &mut Vec<Attribute>,
    ctx: &CheckContext,
    locals: &VariableMap<ExpressionResult>,
) -> (result: Result<(), CheckError>)
    requires
        ctx.wf(),
        attributes_interned(old(attributes)@, ctx@.names.len()),
    ensures
        unit_result(result, attributes_failure(old(attributes)@, old(attributes)@.len() as int, locals@, ctx@)),
        attributes_checked(old(attributes)@, final(attributes)@, locals@, ctx@),
{
    let ghost olds = attributes@;
    let mut i: usize = 0;
    while i < attributes.len()
        invariant
            i <= attributes.len() == olds.len(),
            olds == old(attributes)@,
            ctx.wf(),
            attributes_interned(olds, ctx@.names.len()),
            attributes_failure(olds, i as int, locals@, ctx@) is None,
            forall|j: int|
                #![trigger attributes@[j]]
                0 <= j < i ==> if attributes_failure(olds, j, locals@, ctx@) is None {
                    olds[j].checked(attributes@[j], locals@, ctx@)
                } else {
                    attributes@[j] == olds[j]
                },
            forall|j: int| #![trigger attributes@[j]] i <= j < attributes.len() ==> attributes@[j] == olds[j],
        decreases attributes.len() - i,
    {
        assert(olds[i as int].interned(ctx@.names.len()));
        let ghost before = attributes@;
        let checked = attributes[i].check(ctx, locals);
        assert forall|j: int|
            #![trigger attributes@[j]]
            0 <= j < attributes.len() && j != i implies attributes@[j] == before[j] by {}
        if let Err(error) = checked {
            proof {
                lemma_attributes_failure_persists(olds, i + 1, olds.len() as int, locals@, ctx@);
                assert forall|j: int| #![trigger attributes@[j]] i < j < olds.len() implies attributes_failure(
                    olds,
                    j,
                    locals@,
                    ctx@,
                ) is Some by {
                    lemma_attributes_failure_persists(olds, i + 1, j, locals@, ctx@);
                }
            }
            return Err(error);
        }
        i = i + 1;
    }
    Ok(())
}

} // verus!
