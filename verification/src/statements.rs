//! Checking statements and blocks.
use crate::ast::{
    AddEdgeAttribute, AddGraphNodeAttribute, Assign, Capture, Condition, CreateEdge,
    CreateGraphNode, DeclareImmutable, DeclareMutable, Expression, ForIn, If, IfArm, Print, Scan,
    ScanArm, Statement,
};
use crate::checker::{
    CaptureTable, CheckContext, CheckError, CheckErrorView, Env, ExpressionResult,
};
use crate::expressions::{
    all_checked, all_interned, attributes_checked, attributes_failure, attributes_interned,
    check_attributes, check_expressions, env_result, first_failure, unit_result,
};
use crate::query::Cardinality;
use crate::variables::{
    enter, extended, leave, lemma_assign_only_assigns, lemma_declare_extends, lemma_extended_twice,
    lemma_left_scope, only_assigned, Variable, VariableMap,
};
use vstd::prelude::*;

verus! {

/// Why a capture cannot stand in a guard: the pattern of the stanza does not
/// bind it, or binds it otherwise than zero times or once.
pub open spec fn guard_failure(capture: Capture, t: CaptureTable) -> Option<CheckErrorView> {
    match capture.outcome(t) {
        Err(error) => Some(error),
        Ok(value) => if value.quantifier.is_optional() {
            None
        } else {
            Some(CheckErrorView::ExpectedOptionalValue(capture.location))
        },
    }
}

/// The error of the first capture that cannot stand in a guard, among the
/// first `upto`.
pub open spec fn captures_failure(captures: Seq<Capture>, upto: int, t: CaptureTable) -> Option<
    CheckErrorView,
>
    decreases upto,
{
    if 0 < upto <= captures.len() {
        match captures_failure(captures, upto - 1, t) {
            Some(error) => Some(error),
            None => guard_failure(captures[upto - 1], t),
        }
    } else {
        None
    }
}

/// `news` is `olds` after the captures were checked in order: up to the
/// first that fails, each is as its check leaves it; those after it were not
/// touched.
pub open spec fn captures_checked(olds: Seq<Capture>, news: Seq<Capture>, t: CaptureTable) -> bool {
    &&& olds.len() == news.len()
    &&& forall|i: int|
        #![trigger news[i]]
        0 <= i < olds.len() ==> if captures_failure(olds, i, t) is None {
            olds[i].checked(news[i], t)
        } else {
            news[i] == olds[i]
        }
}

/// Every name in the elements is one of the first `count` interned names.
pub open spec fn captures_interned(captures: Seq<Capture>, count: nat) -> bool {
    forall|i: int| #![trigger captures[i]] 0 <= i < captures.len() ==> captures[i].interned(count)
}

/// A failure among the first captures is the failure of every longer run.
pub proof fn lemma_captures_failure_persists(
    captures: Seq<Capture>,
    upto: int,
    later: int,
    t: CaptureTable,
)
    requires
        0 <= upto <= later <= captures.len(),
        captures_failure(captures, upto, t) is Some,
    ensures
        captures_failure(captures, later, t) == captures_failure(captures, upto, t),
    decreases later - upto,
{
    if upto < later {
        lemma_captures_failure_persists(captures, upto, later - 1, t);
    }
}

/// Checks that each capture is bound by the stanza's pattern and optional,
/// in order, and stops at the first that is not.
pub(crate) fn check_optional_captures(captures: &mut Vec<Capture>, ctx: &CheckContext) -> (result:
    Result<(), CheckError>)
    requires
        ctx.wf(),
        captures_interned(old(captures)@, ctx@.names.len()),
    ensures
        unit_result(result, captures_failure(old(captures)@, old(captures)@.len() as int, ctx@)),
        captures_checked(old(captures)@, final(captures)@, ctx@),
{
    let ghost olds = captures@;
    let mut i: usize = 0;
    while i < captures.len()
        invariant
            i <= captures.len() == olds.len(),
            olds == old(captures)@,
            ctx.wf(),
            captures_interned(olds, ctx@.names.len()),
            captures_failure(olds, i as int, ctx@) is None,
            forall|j: int|
                #![trigger captures@[j]]
                0 <= j < i ==> if captures_failure(olds, j, ctx@) is None {
                    olds[j].checked(captures@[j], ctx@)
                } else {
                    captures@[j] == olds[j]
                },
            forall|j: int|
                #![trigger captures@[j]]
                i <= j < captures.len() ==> captures@[j] == olds[j],
        decreases captures.len() - i,
    {
        assert(olds[i as int].interned(ctx@.names.len()));
        let ghost before = captures@;
        let checked = captures[i].check(ctx);
        assert forall|j: int|
            #![trigger captures@[j]]
            0 <= j < captures.len() && j != i implies captures@[j] == before[j] by {}
        let failure = match checked {
            Err(error) => Some(error),
            Ok(value) => if value.quantifier.is_optional() {
                None
            } else {
                Some(CheckError::ExpectedOptionalValue(captures[i].location))
            },
        };
        if let Some(error) = failure {
            proof {
                lemma_captures_failure_persists(olds, i + 1, olds.len() as int, ctx@);
                assert forall|j: int| #![trigger captures@[j]] i < j < olds.len() implies captures_failure(
                    olds,
                    j,
                    ctx@,
                ) is Some by {
                    lemma_captures_failure_persists(olds, i + 1, j, ctx@);
                }
            }
            return Err(error);
        }
        i = i + 1;
    }
    Ok(())
}

impl Condition {
    /// The captures that the guard tests.
    pub open spec fn captures(self) -> Seq<Capture> {
        match self {
            Condition::Absent(captures) => captures@,
            Condition::Present(captures) => captures@,
        }
    }

    /// Every name in the guard is one of the first `count` interned names.
    pub open spec fn interned(self, count: nat) -> bool {
        captures_interned(self.captures(), count)
    }

    /// A guard may only test captures that the stanza's pattern binds zero
    /// times or once.
    pub open spec fn failure(self, t: CaptureTable) -> Option<CheckErrorView> {
        captures_failure(self.captures(), self.captures().len() as int, t)
    }

    /// `new` is this guard after it was checked: the captures that the check
    /// reached are resolved, and nothing else differs.
    pub open spec fn checked(self, new: Condition, t: CaptureTable) -> bool {
        &&& self is Absent <==> new is Absent
        &&& captures_checked(self.captures(), new.captures(), t)
    }

    /// Checks the guard and resolves the captures in it.
    pub(crate) fn check(&mut self, ctx: &CheckContext) -> (result: Result<(), CheckError>)
        requires
            ctx.wf(),
            old(self).interned(ctx@.names.len()),
        ensures
            unit_result(result, old(self).failure(ctx@)),
            old(self).checked(*final(self), ctx@),
    {
        match self {
            Condition::Absent(captures) => check_optional_captures(captures, ctx),
            Condition::Present(captures) => check_optional_captures(captures, ctx),
        }
    }
}

/// The error of the first guard that fails, among the first `upto`.
pub open spec fn conditions_failure(conditions: Seq<Condition>, upto: int, t: CaptureTable) -> Option<
    CheckErrorView,
>
    decreases upto,
{
    if 0 < upto <= conditions.len() {
        match conditions_failure(conditions, upto - 1, t) {
            Some(error) => Some(error),
            None => conditions[upto - 1].failure(t),
        }
    } else {
        None
    }
}

/// `news` is `olds` after the guards were checked in order: up to the first
/// that fails, each is as its check leaves it; those after it were not
/// touched.
pub open spec fn conditions_checked(olds: Seq<Condition>, news: Seq<Condition>, t: CaptureTable) -> bool {
    &&& olds.len() == news.len()
    &&& forall|i: int|
        #![trigger news[i]]
        0 <= i < olds.len() ==> if conditions_failure(olds, i, t) is None {
            olds[i].checked(news[i], t)
        } else {
            news[i] == olds[i]
        }
}

/// Every name in the elements is one of the first `count` interned names.
pub open spec fn conditions_interned(conditions: Seq<Condition>, count: nat) -> bool {
    forall|i: int| #![trigger conditions[i]] 0 <= i < conditions.len() ==> conditions[i].interned(count)
}

/// A failure among the first guards is the failure of every longer run.
pub proof fn lemma_conditions_failure_persists(
    conditions: Seq<Condition>,
    upto: int,
    later: int,
    t: CaptureTable,
)
    requires
        0 <= upto <= later <= conditions.len(),
        conditions_failure(conditions, upto, t) is Some,
    ensures
        conditions_failure(conditions, later, t) == conditions_failure(conditions, upto, t),
    decreases later - upto,
{
    if upto < later {
        lemma_conditions_failure_persists(conditions, upto, later - 1, t);
    }
}

/// Checks the guards in order and stops at the first that fails.
pub(crate) fn check_conditions(conditions: &mut Vec<Condition>, ctx: &CheckContext) -> (result: Result<
    (),
    CheckError,
>)
    requires
        ctx.wf(),
        conditions_interned(old(conditions)@, ctx@.names.len()),
    ensures
        unit_result(result, conditions_failure(old(conditions)@, old(conditions)@.len() as int, ctx@)),
        conditions_checked(old(conditions)@, final(conditions)@, ctx@),
{
    let ghost olds = conditions@;
    let mut i: usize = 0;
    while i < conditions.len()
        invariant
            i <= conditions.len() == olds.len(),
            olds == old(conditions)@,
            ctx.wf(),
            conditions_interned(olds, ctx@.names.len()),
            conditions_failure(olds, i as int, ctx@) is None,
            forall|j: int|
                #![trigger conditions@[j]]
                0 <= j < i ==> if conditions_failure(olds, j, ctx@) is None {
                    olds[j].checked(conditions@[j], ctx@)
                } else {
                    conditions@[j] == olds[j]
                },
            forall|j: int|
                #![trigger conditions@[j]]
                i <= j < conditions.len() ==> conditions@[j] == olds[j],
        decreases conditions.len() - i,
    {
        assert(olds[i as int].interned(ctx@.names.len()));
        let ghost before = conditions@;
        let checked = conditions[i].check(ctx);
        assert forall|j: int|
            #![trigger conditions@[j]]
            0 <= j < conditions.len() && j != i implies conditions@[j] == before[j] by {}
        if let Err(error) = checked {
            proof {
                lemma_conditions_failure_persists(olds, i + 1, olds.len() as int, ctx@);
                assert forall|j: int| #![trigger conditions@[j]] i < j < olds.len() implies conditions_failure(
                    olds,
                    j,
                    ctx@,
                ) is Some by {
                    lemma_conditions_failure_persists(olds, i + 1, j, ctx@);
                }
            }
            return Err(error);
        }
        i = i + 1;
    }
    Ok(())
}

/// The environment after the first `upto` statements were checked in order,
/// starting in `env`; or the first error among them.
pub open spec fn block_outcome(statements: Seq<Statement>, upto: int, env: Env, t: CaptureTable) -> Result<
    Env,
    CheckErrorView,
>
    decreases statements, upto,
{
    if 0 < upto <= statements.len() {
        match block_outcome(statements, upto - 1, env, t) {
            Err(error) => Err(error),
            Ok(before) => statements[upto - 1].outcome(before, t),
        }
    } else {
        Ok(env)
    }
}

/// The environment after a block was checked in a scope of its own: what the
/// block declares is gone, what it assigns to outer variables stays.
pub open spec fn scoped_block_outcome(statements: Seq<Statement>, env: Env, t: CaptureTable) -> Result<
    Env,
    CheckErrorView,
>
    decreases statements, statements.len() + 1,
{
    match block_outcome(statements, statements.len() as int, enter(env), t) {
        Err(error) => Err(error),
        Ok(inner) => Ok(leave(inner)),
    }
}

/// The environment that the check of the first `upto` statements leaves,
/// whether it succeeds or fails: what the statements up to the first that
/// fails have made of `env`.
pub open spec fn block_leaves(statements: Seq<Statement>, upto: int, env: Env, t: CaptureTable) -> Env
    decreases statements, upto,
{
    if 0 < upto <= statements.len() {
        match block_outcome(statements, upto - 1, env, t) {
            Ok(before) => statements[upto - 1].leaves(before, t),
            Err(_) => block_leaves(statements, upto - 1, env, t),
        }
    } else {
        env
    }
}

/// The environment that the check of a block in a scope of its own leaves,
/// whether it succeeds or fails: the scope of the block is left in both
/// cases.
pub open spec fn scoped_block_leaves(statements: Seq<Statement>, env: Env, t: CaptureTable) -> Env
    decreases statements, statements.len() + 1,
{
    leave(block_leaves(statements, statements.len() as int, enter(env), t))
}

/// `news` is `olds` after the statements were checked in order, starting in
/// `env`: up to the first that fails, each is as its check leaves it in the
/// environment that the statements before it left; those after it were not
/// touched.
pub open spec fn block_checked(olds: Seq<Statement>, news: Seq<Statement>, env: Env, t: CaptureTable) -> bool
    decreases olds, olds.len() + 1,
{
    &&& olds.len() == news.len()
    &&& forall|i: int|
        #![trigger news[i]]
        0 <= i < olds.len() ==> match block_outcome(olds, i, env, t) {
            Ok(before) => olds[i].checked(news[i], before, t),
            Err(_) => news[i] == olds[i],
        }
}

/// Every name in the elements is one of the first `count` interned names.
pub open spec fn block_interned(statements: Seq<Statement>, count: nat) -> bool
    decreases statements, 0int,
{
    forall|i: int| #![trigger statements[i]] 0 <= i < statements.len() ==> statements[i].interned(count)
}

/// A failure among the first statements is the failure of every longer run.
pub proof fn lemma_block_failure_persists(
    statements: Seq<Statement>,
    upto: int,
    later: int,
    env: Env,
    t: CaptureTable,
)
    requires
        0 <= upto <= later <= statements.len(),
        block_outcome(statements, upto, env, t) is Err,
    ensures
        block_outcome(statements, later, env, t) == block_outcome(statements, upto, env, t),
        block_leaves(statements, later, env, t) == block_leaves(statements, upto, env, t),
    decreases later - upto,
{
    if upto < later {
        lemma_block_failure_persists(statements, upto, later - 1, env, t);
    }
}

/// Checks the statements in order in the current scope and stops at the
/// first that fails.
pub(crate) fn check_statements(
    statements: &mut Vec<Statement>,
    ctx: &CheckContext,
    locals: &mut VariableMap<ExpressionResult>,
) -> (result: Result<(), CheckError>)
    requires
        ctx.wf(),
        block_interned(old(statements)@, ctx@.names.len()),
        old(locals).wf(),
    ensures
        env_result(
            result,
            final(locals)@,
            block_outcome(old(statements)@, old(statements)@.len() as int, old(locals)@, ctx@),
        ),
        final(locals)@ == block_leaves(
            old(statements)@,
            old(statements)@.len() as int,
            old(locals)@,
            ctx@,
        ),
        final(locals)@.len() == old(locals)@.len(),
        extended(old(locals)@, final(locals)@),
        block_checked(old(statements)@, final(statements)@, old(locals)@, ctx@),
    decreases *old(statements), 0nat,
{
    let ghost olds = statements@;
    let ghost env = locals@;
    let mut i: usize = 0;
    while i < statements.len()
        invariant
            i <= statements.len() == olds.len(),
            olds == old(statements)@,
            env == old(locals)@,
            ctx.wf(),
            block_interned(olds, ctx@.names.len()),
            locals@.len() == env.len(),
            locals.wf(),
            extended(env, locals@),
            block_outcome(olds, i as int, env, ctx@) == Ok::<Env, CheckErrorView>(locals@),
            block_leaves(olds, i as int, env, ctx@) == locals@,
            forall|j: int|
                #![trigger statements@[j]]
                0 <= j < i ==> match block_outcome(olds, j, env, ctx@) {
                    Ok(before) => olds[j].checked(statements@[j], before, ctx@),
                    Err(_) => statements@[j] == olds[j],
                },
            forall|j: int|
                #![trigger statements@[j]]
                i <= j < statements.len() ==> statements@[j] == olds[j],
        decreases statements.len() - i,
    {
        assert(olds[i as int].interned(ctx@.names.len()));
        let ghost before = statements@;
        let ghost reached = locals@;
        let checked = statements[i].check(ctx, locals);
        assert forall|j: int|
            #![trigger statements@[j]]
            0 <= j < statements.len() && j != i implies statements@[j] == before[j] by {}
        proof {
            lemma_extended_twice(env, reached, locals@);
        }
        if let Err(error) = checked {
            proof {
                lemma_block_failure_persists(olds, i + 1, olds.len() as int, env, ctx@);
                assert forall|j: int| #![trigger statements@[j]] i < j < olds.len() implies block_outcome(
                    olds,
                    j,
                    env,
                    ctx@,
                ) is Err by {
                    lemma_block_failure_persists(olds, i + 1, j, env, ctx@);
                }
            }
            return Err(error);
        }
        i = i + 1;
    }
    Ok(())
}

/// Checks a block in a scope of its own. The scope is left when the check
/// returns, whether it succeeded or failed.
pub(crate) fn check_scoped_statements(
    statements: &mut Vec<Statement>,
    ctx: &CheckContext,
    locals: &mut VariableMap<ExpressionResult>,
) -> (result: Result<(), CheckError>)
    requires
        ctx.wf(),
        block_interned(old(statements)@, ctx@.names.len()),
        old(locals).wf(),
    ensures
        env_result(result, final(locals)@, scoped_block_outcome(old(statements)@, old(locals)@, ctx@)),
        final(locals)@ == scoped_block_leaves(old(statements)@, old(locals)@, ctx@),
        final(locals)@.len() == old(locals)@.len(),
        only_assigned(old(locals)@, final(locals)@),
        block_checked(old(statements)@, final(statements)@, enter(old(locals)@), ctx@),
    decreases *old(statements), 1nat,
{
    locals.enter_scope();
    let checked = check_statements(statements, ctx, locals);
    proof {
        lemma_left_scope(old(locals)@, locals@);
    }
    locals.leave_scope();
    checked
}

impl DeclareImmutable {
    /// Every name in the statement is one of the first `count` interned names.
    pub open spec fn interned(self, count: nat) -> bool {
        self.variable.interned(count) && self.value.interned(count)
    }

    /// The value is checked first; the variable is then declared immutable
    /// with what the value turned out to be.
    pub open spec fn outcome(self, env: Env, t: CaptureTable) -> Result<Env, CheckErrorView> {
        match self.value.outcome(env, t) {
            Err(error) => Err(error),
            Ok(value) => self.variable.add_outcome(env, t, value, false),
        }
    }

    /// `new` is this statement after it was checked in `env`: the captures
    /// that the check reached are resolved, and nothing else differs.
    pub open spec fn checked(self, new: DeclareImmutable, env: Env, t: CaptureTable) -> bool {
        &&& new.location == self.location
        &&& self.value.checked(new.value, env, t)
        &&& if self.value.outcome(env, t) is Ok {
            self.variable.checked(new.variable, env, t)
        } else {
            new.variable == self.variable
        }
    }

    /// Checks the statement and resolves the captures in it.
    pub(crate) fn check(&mut self, ctx: &CheckContext, locals: &mut VariableMap<ExpressionResult>) -> (result:
        Result<(), CheckError>)
        requires
            ctx.wf(),
            old(self).interned(ctx@.names.len()),
            old(locals).wf(),
        ensures
            env_result(result, final(locals)@, old(self).outcome(old(locals)@, ctx@)),
            final(locals)@.len() == old(locals)@.len(),
            result is Err ==> final(locals)@ == old(locals)@,
            old(self).checked(*final(self), old(locals)@, ctx@),
    {
        let value = self.value.check(ctx, locals)?;
        self.variable.add_check(ctx, locals, value, false)?;
        Ok(())
    }
}

impl DeclareMutable {
    /// Every name in the statement is one of the first `count` interned names.
    pub open spec fn interned(self, count: nat) -> bool {
        self.variable.interned(count) && self.value.interned(count)
    }

    /// The value is checked first; the variable is then declared mutable
    /// with what the value turned out to be.
    pub open spec fn outcome(self, env: Env, t: CaptureTable) -> Result<Env, CheckErrorView> {
        match self.value.outcome(env, t) {
            Err(error) => Err(error),
            Ok(value) => self.variable.add_outcome(env, t, value, true),
        }
    }

    /// `new` is this statement after it was checked in `env`: the captures
    /// that the check reached are resolved, and nothing else differs.
    pub open spec fn checked(self, new: DeclareMutable, env: Env, t: CaptureTable) -> bool {
        &&& new.location == self.location
        &&& self.value.checked(new.value, env, t)
        &&& if self.value.outcome(env, t) is Ok {
            self.variable.checked(new.variable, env, t)
        } else {
            new.variable == self.variable
        }
    }

    /// Checks the statement and resolves the captures in it.
    pub(crate) fn check(&mut self, ctx: &CheckContext, locals: &mut VariableMap<ExpressionResult>) -> (result:
        Result<(), CheckError>)
        requires
            ctx.wf(),
            old(self).interned(ctx@.names.len()),
            old(locals).wf(),
        ensures
            env_result(result, final(locals)@, old(self).outcome(old(locals)@, ctx@)),
            final(locals)@.len() == old(locals)@.len(),
            result is Err ==> final(locals)@ == old(locals)@,
            old(self).checked(*final(self), old(locals)@, ctx@),
    {
        let value = self.value.check(ctx, locals)?;
        self.variable.add_check(ctx, locals, value, true)?;
        Ok(())
    }
}

impl Assign {
    /// Every name in the statement is one of the first `count` interned names.
    pub open spec fn interned(self, count: nat) -> bool {
        self.variable.interned(count) && self.value.interned(count)
    }

    /// The value is checked first; it is then assigned to the variable,
    /// which has to exist and to be mutable.
    pub open spec fn outcome(self, env: Env, t: CaptureTable) -> Result<Env, CheckErrorView> {
        match self.value.outcome(env, t) {
            Err(error) => Err(error),
            Ok(value) => self.variable.set_outcome(env, t, value),
        }
    }

    /// `new` is this statement after it was checked in `env`: the captures
    /// that the check reached are resolved, and nothing else differs.
    pub open spec fn checked(self, new: Assign, env: Env, t: CaptureTable) -> bool {
        &&& new.location == self.location
        &&& self.value.checked(new.value, env, t)
        &&& if self.value.outcome(env, t) is Ok {
            self.variable.checked(new.variable, env, t)
        } else {
            new.variable == self.variable
        }
    }

    /// Checks the statement and resolves the captures in it.
    pub(crate) fn check(&mut self, ctx: &CheckContext, locals: &mut VariableMap<ExpressionResult>) -> (result:
        Result<(), CheckError>)
        requires
            ctx.wf(),
            old(self).interned(ctx@.names.len()),
            old(locals).wf(),
        ensures
            env_result(result, final(locals)@, old(self).outcome(old(locals)@, ctx@)),
            final(locals)@.len() == old(locals)@.len(),
            result is Err ==> final(locals)@ == old(locals)@,
            old(self).checked(*final(self), old(locals)@, ctx@),
    {
        let value = self.value.check(ctx, locals)?;
        self.variable.set_check(ctx, locals, value)?;
        Ok(())
    }
}

impl CreateGraphNode {
    /// Every name in the statement is one of the first `count` interned names.
    pub open spec fn interned(self, count: nat) -> bool {
        self.node.interned(count)
    }

    /// A new graph node is a single value, and the variable that names it is
    /// declared immutable.
    pub open spec fn outcome(self, env: Env, t: CaptureTable) -> Result<Env, CheckErrorView> {
        self.node.add_outcome(env, t, ExpressionResult::single(), false)
    }

    /// `new` is this statement after it was checked in `env`: the captures
    /// that the check reached are resolved, and nothing else differs.
    pub open spec fn checked(self, new: CreateGraphNode, env: Env, t: CaptureTable) -> bool {
        &&& new.location == self.location
        &&& self.node.checked(new.node, env, t)
    }

    /// Checks the statement and resolves the captures in it.
    pub(crate) fn check(&mut self, ctx: &CheckContext, locals: &mut VariableMap<ExpressionResult>) -> (result:
        Result<(), CheckError>)
        requires
            ctx.wf(),
            old(self).interned(ctx@.names.len()),
            old(locals).wf(),
        ensures
            env_result(result, final(locals)@, old(self).outcome(old(locals)@, ctx@)),
            final(locals)@.len() == old(locals)@.len(),
            result is Err ==> final(locals)@ == old(locals)@,
            old(self).checked(*final(self), old(locals)@, ctx@),
    {
        self.node.add_check(
            ctx,
            locals,
            ExpressionResult { quantifier: Cardinality::ExactlyOne },
            false,
        )?;
        Ok(())
    }
}

impl AddGraphNodeAttribute {
    /// Every name in the statement is one of the first `count` interned names.
    pub open spec fn interned(self, count: nat) -> bool {
        self.node.interned(count) && attributes_interned(self.attributes@, count)
    }

    /// The first error in the node or, after it, in the attributes.
    pub open spec fn failure(self, env: Env, t: CaptureTable) -> Option<CheckErrorView> {
        match self.node.outcome(env, t) {
            Err(error) => Some(error),
            Ok(_) => attributes_failure(self.attributes@, self.attributes@.len() as int, env, t),
        }
    }

    /// `new` is this statement after it was checked in `env`: the captures
    /// that the check reached are resolved, and nothing else differs.
    pub open spec fn checked(self, new: AddGraphNodeAttribute, env: Env, t: CaptureTable) -> bool {
        &&& new.location == self.location
        &&& self.node.checked(new.node, env, t)
        &&& if self.node.outcome(env, t) is Ok {
            attributes_checked(self.attributes@, new.attributes@, env, t)
        } else {
            new.attributes == self.attributes
        }
    }

    /// Checks the statement and resolves the captures in it.
    pub(crate) fn check(&mut self, ctx: &CheckContext, locals: &VariableMap<ExpressionResult>) -> (result:
        Result<(), CheckError>)
        requires
            ctx.wf(),
            old(self).interned(ctx@.names.len()),
        ensures
            unit_result(result, old(self).failure(locals@, ctx@)),
            old(self).checked(*final(self), locals@, ctx@),
    {
        self.node.check(ctx, locals)?;
        check_attributes(&mut self.attributes, ctx, locals)?;
        Ok(())
    }
}

impl CreateEdge {
    /// Every name in the statement is one of the first `count` interned names.
    pub open spec fn interned(self, count: nat) -> bool {
        self.source.interned(count) && self.sink.interned(count)
    }

    /// The first error in the source or, after it, in the sink.
    pub open spec fn failure(self, env: Env, t: CaptureTable) -> Option<CheckErrorView> {
        match self.source.outcome(env, t) {
            Err(error) => Some(error),
            Ok(_) => match self.sink.outcome(env, t) {
                Err(error) => Some(error),
                Ok(_) => None,
            },
        }
    }

    /// `new` is this statement after it was checked in `env`: the captures
    /// that the check reached are resolved, and nothing else differs.
    pub open spec fn checked(self, new: CreateEdge, env: Env, t: CaptureTable) -> bool {
        &&& new.location == self.location
        &&& self.source.checked(new.source, env, t)
        &&& if self.source.outcome(env, t) is Ok {
            self.sink.checked(new.sink, env, t)
        } else {
            new.sink == self.sink
        }
    }

    /// Checks the statement and resolves the captures in it.
    pub(crate) fn check(&mut self, ctx: &CheckContext, locals: &VariableMap<ExpressionResult>) -> (result:
        Result<(), CheckError>)
        requires
            ctx.wf(),
            old(self).interned(ctx@.names.len()),
        ensures
            unit_result(result, old(self).failure(locals@, ctx@)),
            old(self).checked(*final(self), locals@, ctx@),
    {
        self.source.check(ctx, locals)?;
        self.sink.check(ctx, locals)?;
        Ok(())
    }
}

impl AddEdgeAttribute {
    /// Every name in the statement is one of the first `count` interned names.
    pub open spec fn interned(self, count: nat) -> bool {
        &&& self.source.interned(count)
        &&& self.sink.interned(count)
        &&& attributes_interned(self.attributes@, count)
    }

    /// The first error in the source, the sink or the attributes, in this
    /// order.
    pub open spec fn failure(self, env: Env, t: CaptureTable) -> Option<CheckErrorView> {
        match self.source.outcome(env, t) {
            Err(error) => Some(error),
            Ok(_) => match self.sink.outcome(env, t) {
                Err(error) => Some(error),
                Ok(_) => attributes_failure(self.attributes@, self.attributes@.len() as int, env, t),
            },
        }
    }

    /// `new` is this statement after it was checked in `env`: the captures
    /// that the check reached are resolved, and nothing else differs.
    pub open spec fn checked(self, new: AddEdgeAttribute, env: Env, t: CaptureTable) -> bool {
        &&& new.location == self.location
        &&& self.source.checked(new.source, env, t)
        &&& if self.source.outcome(env, t) is Ok {
            self.sink.checked(new.sink, env, t)
        } else {
            new.sink == self.sink
        }
        &&& if self.source.outcome(env, t) is Ok && self.sink.outcome(env, t) is Ok {
            attributes_checked(self.attributes@, new.attributes@, env, t)
        } else {
            new.attributes == self.attributes
        }
    }

    /// Checks the statement and resolves the captures in it.
    pub(crate) fn check(&mut self, ctx: &CheckContext, locals: &VariableMap<ExpressionResult>) -> (result:
        Result<(), CheckError>)
        requires
            ctx.wf(),
            old(self).interned(ctx@.names.len()),
        ensures
            unit_result(result, old(self).failure(locals@, ctx@)),
            old(self).checked(*final(self), locals@, ctx@),
    {
        self.source.check(ctx, locals)?;
        self.sink.check(ctx, locals)?;
        check_attributes(&mut self.attributes, ctx, locals)?;
        Ok(())
    }
}

impl Print {
    /// Every name in the statement is one of the first `count` interned names.
    pub open spec fn interned(self, count: nat) -> bool {
        all_interned(self.values@, count)
    }

    /// The first error in the values.
    pub open spec fn failure(self, env: Env, t: CaptureTable) -> Option<CheckErrorView> {
        first_failure(self.values@, self.values@.len() as int, env, t)
    }

    /// `new` is this statement after it was checked in `env`: the captures
    /// that the check reached are resolved, and nothing else differs.
    pub open spec fn checked(self, new: Print, env: Env, t: CaptureTable) -> bool {
        &&& new.location == self.location
        &&& all_checked(self.values@, new.values@, env, t)
    }

    /// Checks the statement and resolves the captures in it.
    pub(crate) fn check(&mut self, ctx: &CheckContext, locals: &VariableMap<ExpressionResult>) -> (result:
        Result<(), CheckError>)
        requires
            ctx.wf(),
            old(self).interned(ctx@.names.len()),
        ensures
            unit_result(result, old(self).failure(locals@, ctx@)),
            old(self).checked(*final(self), locals@, ctx@),
    {
        check_expressions(&mut self.values, ctx, locals)
    }
}

impl ScanArm {
    /// Every name in the arm is one of the first `count` interned names.
    pub open spec fn interned(self, count: nat) -> bool
        decreases self, 0int,
    {
        block_interned(self.statements@, count)
    }

    /// The body of the arm is checked in a scope of its own.
    pub open spec fn outcome(self, env: Env, t: CaptureTable) -> Result<Env, CheckErrorView>
        decreases self, 0int,
    {
        scoped_block_outcome(self.statements@, env, t)
    }

    /// The environment that the check of the arm leaves, whether it succeeds
    /// or fails.
    pub open spec fn leaves(self, env: Env, t: CaptureTable) -> Env
        decreases self, 0int,
    {
        scoped_block_leaves(self.statements@, env, t)
    }

    /// `new` is this arm after it was checked in `env`: the captures that
    /// the check reached are resolved, and nothing else differs.
    pub open spec fn checked(self, new: ScanArm, env: Env, t: CaptureTable) -> bool
        decreases self, 0int,
    {
        &&& new.regex == self.regex
        &&& new.location == self.location
        &&& block_checked(self.statements@, new.statements@, enter(env), t)
    }

    /// Checks the arm and resolves the captures in it.
    pub(crate) fn check(&mut self, ctx: &CheckContext, locals: &mut VariableMap<ExpressionResult>) -> (result:
        Result<(), CheckError>)
        requires
            ctx.wf(),
            old(self).interned(ctx@.names.len()),
            old(locals).wf(),
        ensures
            env_result(result, final(locals)@, old(self).outcome(old(locals)@, ctx@)),
            final(locals)@ == old(self).leaves(old(locals)@, ctx@),
            final(locals)@.len() == old(locals)@.len(),
            only_assigned(old(locals)@, final(locals)@),
            old(self).checked(*final(self), old(locals)@, ctx@),
        decreases *old(self),
    {
        check_scoped_statements(&mut self.statements, ctx, locals)
    }
}

/// The environment after the first `upto` arms were checked in order, each
/// in a scope of its own; or the first error among them.
pub open spec fn scan_arms_outcome(arms: Seq<ScanArm>, upto: int, env: Env, t: CaptureTable) -> Result<
    Env,
    CheckErrorView,
>
    decreases arms, upto,
{
    if 0 < upto <= arms.len() {
        match scan_arms_outcome(arms, upto - 1, env, t) {
            Err(error) => Err(error),
            Ok(before) => arms[upto - 1].outcome(before, t),
        }
    } else {
        Ok(env)
    }
}

/// The environment that the check of the first `upto` arms leaves, whether
/// it succeeds or fails: what the arms up to the first that fails have made
/// of `env`.
pub open spec fn scan_arms_leaves(arms: Seq<ScanArm>, upto: int, env: Env, t: CaptureTable) -> Env
    decreases arms, upto,
{
    if 0 < upto <= arms.len() {
        match scan_arms_outcome(arms, upto - 1, env, t) {
            Ok(before) => arms[upto - 1].leaves(before, t),
            Err(_) => scan_arms_leaves(arms, upto - 1, env, t),
        }
    } else {
        env
    }
}

/// `news` is `olds` after the arms were checked in order, starting in `env`:
/// up to the first that fails, each is as its check leaves it in the
/// environment that the arms before it left; those after it were not
/// touched.
pub open spec fn scan_arms_checked(olds: Seq<ScanArm>, news: Seq<ScanArm>, env: Env, t: CaptureTable) -> bool
    decreases olds, olds.len() + 1,
{
    &&& olds.len() == news.len()
    &&& forall|i: int|
        #![trigger news[i]]
        0 <= i < olds.len() ==> match scan_arms_outcome(olds, i, env, t) {
            Ok(before) => olds[i].checked(news[i], before, t),
            Err(_) => news[i] == olds[i],
        }
}

/// Every name in the elements is one of the first `count` interned names.
pub open spec fn scan_arms_interned(arms: Seq<ScanArm>, count: nat) -> bool
    decreases arms, 0int,
{
    forall|i: int| #![trigger arms[i]] 0 <= i < arms.len() ==> arms[i].interned(count)
}

/// A failure among the first arms is the failure of every longer run.
pub proof fn lemma_scan_arms_failure_persists(
    arms: Seq<ScanArm>,
    upto: int,
    later: int,
    env: Env,
    t: CaptureTable,
)
    requires
        0 <= upto <= later <= arms.len(),
        scan_arms_outcome(arms, upto, env, t) is Err,
    ensures
        scan_arms_outcome(arms, later, env, t) == scan_arms_outcome(arms, upto, env, t),
        scan_arms_leaves(arms, later, env, t) == scan_arms_leaves(arms, upto, env, t),
    decreases later - upto,
{
    if upto < later {
        lemma_scan_arms_failure_persists(arms, upto, later - 1, env, t);
    }
}

/// Checks the arms of a scan in order and stops at the first that fails.
pub(crate) fn check_scan_arms(
    arms: &mut Vec<ScanArm>,
    ctx: &CheckContext,
    locals: &mut VariableMap<ExpressionResult>,
) -> (result: Result<(), CheckError>)
    requires
        ctx.wf(),
        scan_arms_interned(old(arms)@, ctx@.names.len()),
        old(locals).wf(),
    ensures
        env_result(
            result,
            final(locals)@,
            scan_arms_outcome(old(arms)@, old(arms)@.len() as int, old(locals)@, ctx@),
        ),
        final(locals)@ == scan_arms_leaves(old(arms)@, old(arms)@.len() as int, old(locals)@, ctx@),
        final(locals)@.len() == old(locals)@.len(),
        only_assigned(old(locals)@, final(locals)@),
        scan_arms_checked(old(arms)@, final(arms)@, old(locals)@, ctx@),
    decreases *old(arms),
{
    let ghost olds = arms@;
    let ghost env = locals@;
    let mut i: usize = 0;
    while i < arms.len()
        invariant
            i <= arms.len() == olds.len(),
            olds == old(arms)@,
            env == old(locals)@,
            ctx.wf(),
            scan_arms_interned(olds, ctx@.names.len()),
            locals@.len() == env.len(),
            locals.wf(),
            only_assigned(env, locals@),
            scan_arms_outcome(olds, i as int, env, ctx@) == Ok::<Env, CheckErrorView>(locals@),
            scan_arms_leaves(olds, i as int, env, ctx@) == locals@,
            forall|j: int|
                #![trigger arms@[j]]
                0 <= j < i ==> match scan_arms_outcome(olds, j, env, ctx@) {
                    Ok(before) => olds[j].checked(arms@[j], before, ctx@),
                    Err(_) => arms@[j] == olds[j],
                },
            forall|j: int| #![trigger arms@[j]] i <= j < arms.len() ==> arms@[j] == olds[j],
        decreases arms.len() - i,
    {
        assert(olds[i as int].interned(ctx@.names.len()));
        let ghost before = arms@;
        let ghost reached = locals@;
        let checked = arms[i].check(ctx, locals);
        assert forall|j: int|
            #![trigger arms@[j]]
            0 <= j < arms.len() && j != i implies arms@[j] == before[j] by {}
        proof {
            lemma_extended_twice(env, reached, locals@);
        }
        if let Err(error) = checked {
            proof {
                lemma_scan_arms_failure_persists(olds, i + 1, olds.len() as int, env, ctx@);
                assert forall|j: int| #![trigger arms@[j]] i < j < olds.len() implies scan_arms_outcome(
                    olds,
                    j,
                    env,
                    ctx@,
                ) is Err by {
                    lemma_scan_arms_failure_persists(olds, i + 1, j, env, ctx@);
                }
            }
            return Err(error);
        }
        i = i + 1;
    }
    Ok(())
}

impl Scan {
    /// Every name in the statement is one of the first `count` interned names.
    pub open spec fn interned(self, count: nat) -> bool
        decreases self, 0int,
    {
        self.value.interned(count) && scan_arms_interned(self.arms@, count)
    }

    /// The scanned value is checked in the current scope, then each arm in a
    /// scope of its own.
    pub open spec fn outcome(self, env: Env, t: CaptureTable) -> Result<Env, CheckErrorView>
        decreases self, 0int,
    {
        match self.value.outcome(env, t) {
            Err(error) => Err(error),
            Ok(_) => scan_arms_outcome(self.arms@, self.arms@.len() as int, env, t),
        }
    }

    /// The environment that the check of the statement leaves, whether it
    /// succeeds or fails: a scanned value that fails leaves `env` as it is.
    pub open spec fn leaves(self, env: Env, t: CaptureTable) -> Env
        decreases self, 0int,
    {
        if self.value.outcome(env, t) is Ok {
            scan_arms_leaves(self.arms@, self.arms@.len() as int, env, t)
        } else {
            env
        }
    }

    /// `new` is this statement after it was checked in `env`: the captures
    /// that the check reached are resolved, and nothing else differs.
    pub open spec fn checked(self, new: Scan, env: Env, t: CaptureTable) -> bool
        decreases self, 0int,
    {
        &&& new.location == self.location
        &&& self.value.checked(new.value, env, t)
        &&& if self.value.outcome(env, t) is Ok {
            scan_arms_checked(self.arms@, new.arms@, env, t)
        } else {
            new.arms == self.arms
        }
    }

    /// Checks the statement and resolves the captures in it.
    pub(crate) fn check(&mut self, ctx: &CheckContext, locals: &mut VariableMap<ExpressionResult>) -> (result:
        Result<(), CheckError>)
        requires
            ctx.wf(),
            old(self).interned(ctx@.names.len()),
            old(locals).wf(),
        ensures
            env_result(result, final(locals)@, old(self).outcome(old(locals)@, ctx@)),
            final(locals)@ == old(self).leaves(old(locals)@, ctx@),
            final(locals)@.len() == old(locals)@.len(),
            only_assigned(old(locals)@, final(locals)@),
            old(self).value.outcome(old(locals)@, ctx@) is Err ==> final(locals)@ == old(locals)@,
            old(self).checked(*final(self), old(locals)@, ctx@),
        decreases *old(self),
    {
        self.value.check(ctx, locals)?;
        check_scan_arms(&mut self.arms, ctx, locals)
    }
}

impl IfArm {
    /// Every name in the arm is one of the first `count` interned names.
    pub open spec fn interned(self, count: nat) -> bool
        decreases self, 0int,
    {
        conditions_interned(self.conditions@, count) && block_interned(self.statements@, count)
    }

    /// The guards are checked first, outside the scope of the body; the body
    /// is then checked in a scope of its own.
    pub open spec fn outcome(self, env: Env, t: CaptureTable) -> Result<Env, CheckErrorView>
        decreases self, 0int,
    {
        match conditions_failure(self.conditions@, self.conditions@.len() as int, t) {
            Some(error) => Err(error),
            None => scoped_block_outcome(self.statements@, env, t),
        }
    }

    /// One of the guards of the arm is refused.
    pub open spec fn conditions_fail(self, t: CaptureTable) -> bool {
        conditions_failure(self.conditions@, self.conditions@.len() as int, t) is Some
    }

    /// The environment that the check of the arm leaves, whether it succeeds
    /// or fails: a refused guard leaves `env` as it is.
    pub open spec fn leaves(self, env: Env, t: CaptureTable) -> Env
        decreases self, 0int,
    {
        if self.conditions_fail(t) {
            env
        } else {
            scoped_block_leaves(self.statements@, env, t)
        }
    }

    /// `new` is this arm after it was checked in `env`: the captures that
    /// the check reached are resolved, and nothing else differs.
    pub open spec fn checked(self, new: IfArm, env: Env, t: CaptureTable) -> bool
        decreases self, 0int,
    {
        &&& new.location == self.location
        &&& conditions_checked(self.conditions@, new.conditions@, t)
        &&& if conditions_failure(self.conditions@, self.conditions@.len() as int, t) is None {
            block_checked(self.statements@, new.statements@, enter(env), t)
        } else {
            new.statements == self.statements
        }
    }

    /// Checks the arm and resolves the captures in it.
    pub(crate) fn check(&mut self, ctx: &CheckContext, locals: &mut VariableMap<ExpressionResult>) -> (result:
        Result<(), CheckError>)
        requires
            ctx.wf(),
            old(self).interned(ctx@.names.len()),
            old(locals).wf(),
        ensures
            env_result(result, final(locals)@, old(self).outcome(old(locals)@, ctx@)),
            final(locals)@ == old(self).leaves(old(locals)@, ctx@),
            final(locals)@.len() == old(locals)@.len(),
            only_assigned(old(locals)@, final(locals)@),
            old(self).conditions_fail(ctx@) ==> final(locals)@ == old(locals)@,
            old(self).checked(*final(self), old(locals)@, ctx@),
        decreases *old(self),
    {
        check_conditions(&mut self.conditions, ctx)?;
        check_scoped_statements(&mut self.statements, ctx, locals)
    }
}

/// The environment after the first `upto` arms were checked in order; or the
/// first error among them.
pub open spec fn if_arms_outcome(arms: Seq<IfArm>, upto: int, env: Env, t: CaptureTable) -> Result<
    Env,
    CheckErrorView,
>
    decreases arms, upto,
{
    if 0 < upto <= arms.len() {
        match if_arms_outcome(arms, upto - 1, env, t) {
            Err(error) => Err(error),
            Ok(before) => arms[upto - 1].outcome(before, t),
        }
    } else {
        Ok(env)
    }
}

/// The environment that the check of the first `upto` arms leaves, whether
/// it succeeds or fails: what the arms up to the first that fails have made
/// of `env`.
pub open spec fn if_arms_leaves(arms: Seq<IfArm>, upto: int, env: Env, t: CaptureTable) -> Env
    decreases arms, upto,
{
    if 0 < upto <= arms.len() {
        match if_arms_outcome(arms, upto - 1, env, t) {
            Ok(before) => arms[upto - 1].leaves(before, t),
            Err(_) => if_arms_leaves(arms, upto - 1, env, t),
        }
    } else {
        env
    }
}

/// `news` is `olds` after the arms were checked in order, starting in `env`:
/// up to the first that fails, each is as its check leaves it in the
/// environment that the arms before it left; those after it were not
/// touched.
pub open spec fn if_arms_checked(olds: Seq<IfArm>, news: Seq<IfArm>, env: Env, t: CaptureTable) -> bool
    decreases olds, olds.len() + 1,
{
    &&& olds.len() == news.len()
    &&& forall|i: int|
        #![trigger news[i]]
        0 <= i < olds.len() ==> match if_arms_outcome(olds, i, env, t) {
            Ok(before) => olds[i].checked(news[i], before, t),
            Err(_) => news[i] == olds[i],
        }
}

/// Every name in the elements is one of the first `count` interned names.
pub open spec fn if_arms_interned(arms: Seq<IfArm>, count: nat) -> bool
    decreases arms, 0int,
{
    forall|i: int| #![trigger arms[i]] 0 <= i < arms.len() ==> arms[i].interned(count)
}

/// A failure among the first arms is the failure of every longer run.
pub proof fn lemma_if_arms_failure_persists(
    arms: Seq<IfArm>,
    upto: int,
    later: int,
    env: Env,
    t: CaptureTable,
)
    requires
        0 <= upto <= later <= arms.len(),
        if_arms_outcome(arms, upto, env, t) is Err,
    ensures
        if_arms_outcome(arms, later, env, t) == if_arms_outcome(arms, upto, env, t),
        if_arms_leaves(arms, later, env, t) == if_arms_leaves(arms, upto, env, t),
    decreases later - upto,
{
    if upto < later {
        lemma_if_arms_failure_persists(arms, upto, later - 1, env, t);
    }
}

/// Checks the arms of a conditional in order and stops at the first that fails.
pub(crate) fn check_if_arms(
    arms: &mut Vec<IfArm>,
    ctx: &CheckContext,
    locals: &mut VariableMap<ExpressionResult>,
) -> (result: Result<(), CheckError>)
    requires
        ctx.wf(),
        if_arms_interned(old(arms)@, ctx@.names.len()),
        old(locals).wf(),
    ensures
        env_result(
            result,
            final(locals)@,
            if_arms_outcome(old(arms)@, old(arms)@.len() as int, old(locals)@, ctx@),
        ),
        final(locals)@ == if_arms_leaves(old(arms)@, old(arms)@.len() as int, old(locals)@, ctx@),
        final(locals)@.len() == old(locals)@.len(),
        only_assigned(old(locals)@, final(locals)@),
        if_arms_checked(old(arms)@, final(arms)@, old(locals)@, ctx@),
    decreases *old(arms),
{
    let ghost olds = arms@;
    let ghost env = locals@;
    let mut i: usize = 0;
    while i < arms.len()
        invariant
            i <= arms.len() == olds.len(),
            olds == old(arms)@,
            env == old(locals)@,
            ctx.wf(),
            if_arms_interned(olds, ctx@.names.len()),
            locals@.len() == env.len(),
            locals.wf(),
            only_assigned(env, locals@),
            if_arms_outcome(olds, i as int, env, ctx@) == Ok::<Env, CheckErrorView>(locals@),
            if_arms_leaves(olds, i as int, env, ctx@) == locals@,
            forall|j: int|
                #![trigger arms@[j]]
                0 <= j < i ==> match if_arms_outcome(olds, j, env, ctx@) {
                    Ok(before) => olds[j].checked(arms@[j], before, ctx@),
                    Err(_) => arms@[j] == olds[j],
                },
            forall|j: int| #![trigger arms@[j]] i <= j < arms.len() ==> arms@[j] == olds[j],
        decreases arms.len() - i,
    {
        assert(olds[i as int].interned(ctx@.names.len()));
        let ghost before = arms@;
        let ghost reached = locals@;
        let checked = arms[i].check(ctx, locals);
        assert forall|j: int|
            #![trigger arms@[j]]
            0 <= j < arms.len() && j != i implies arms@[j] == before[j] by {}
        proof {
            lemma_extended_twice(env, reached, locals@);
        }
        if let Err(error) = checked {
            proof {
                lemma_if_arms_failure_persists(olds, i + 1, olds.len() as int, env, ctx@);
                assert forall|j: int| #![trigger arms@[j]] i < j < olds.len() implies if_arms_outcome(
                    olds,
                    j,
                    env,
                    ctx@,
                ) is Err by {
                    lemma_if_arms_failure_persists(olds, i + 1, j, env, ctx@);
                }
            }
            return Err(error);
        }
        i = i + 1;
    }
    Ok(())
}

impl If {
    /// Every name in the statement is one of the first `count` interned names.
    pub open spec fn interned(self, count: nat) -> bool
        decreases self, 0int,
    {
        if_arms_interned(self.arms@, count)
    }

    /// Every arm is checked, whichever would run.
    pub open spec fn outcome(self, env: Env, t: CaptureTable) -> Result<Env, CheckErrorView>
        decreases self, 0int,
    {
        if_arms_outcome(self.arms@, self.arms@.len() as int, env, t)
    }

    /// The environment that the check of the statement leaves, whether it
    /// succeeds or fails.
    pub open spec fn leaves(self, env: Env, t: CaptureTable) -> Env
        decreases self, 0int,
    {
        if_arms_leaves(self.arms@, self.arms@.len() as int, env, t)
    }

    /// `new` is this statement after it was checked in `env`: the captures
    /// that the check reached are resolved, and nothing else differs.
    pub open spec fn checked(self, new: If, env: Env, t: CaptureTable) -> bool
        decreases self, 0int,
    {
        &&& new.location == self.location
        &&& if_arms_checked(self.arms@, new.arms@, env, t)
    }

    /// Checks the statement and resolves the captures in it.
    pub(crate) fn check(&mut self, ctx: &CheckContext, locals: &mut VariableMap<ExpressionResult>) -> (result:
        Result<(), CheckError>)
        requires
            ctx.wf(),
            old(self).interned(ctx@.names.len()),
            old(locals).wf(),
        ensures
            env_result(result, final(locals)@, old(self).outcome(old(locals)@, ctx@)),
            final(locals)@ == old(self).leaves(old(locals)@, ctx@),
            final(locals)@.len() == old(locals)@.len(),
            only_assigned(old(locals)@, final(locals)@),
            old(self).checked(*final(self), old(locals)@, ctx@),
        decreases *old(self),
    {
        check_if_arms(&mut self.arms, ctx, locals)
    }
}

impl ForIn {
    /// Every name in the loop is one of the first `count` interned names.
    pub open spec fn interned(self, count: nat) -> bool
        decreases self, 0int,
    {
        &&& self.variable.interned(count)
        &&& self.value.interned(count)
        &&& block_interned(self.statements@, count)
    }

    /// The scope in which the body of the loop is checked: a child of the
    /// innermost scope of `env` that declares the loop variable and nothing
    /// else. The loop variable is immutable and a single value.
    pub open spec fn loop_scope(self, env: Env) -> Env {
        env.push(
            Map::empty().insert(
                self.variable.name.index,
                Variable { value: ExpressionResult::single(), mutable: false },
            ),
        )
    }

    /// Declaring the loop variable in a scope that was just entered gives
    /// the scope of the loop; it cannot fail.
    pub proof fn lemma_loop_scope(self, env: Env, t: CaptureTable)
        ensures
            self.variable.add_outcome(enter(env), t, ExpressionResult::single(), false) == Ok::<
                Env,
                CheckErrorView,
            >(self.loop_scope(env)),
    {
        let declared = self.variable.add_outcome(enter(env), t, ExpressionResult::single(), false);
        assert(declared is Ok);
        assert(declared->Ok_0 =~= self.loop_scope(env));
    }

    /// The value that the loop runs over has to be a list. The body is then
    /// checked in the scope of the loop, which is left afterwards.
    pub open spec fn outcome(self, env: Env, t: CaptureTable) -> Result<Env, CheckErrorView>
        decreases self, 0int,
    {
        match self.value.outcome(env, t) {
            Err(error) => Err(error),
            Ok(value) => if !value.quantifier.is_list() {
                Err(CheckErrorView::ExpectedListValue(self.location))
            } else {
                match block_outcome(
                    self.statements@,
                    self.statements@.len() as int,
                    self.loop_scope(env),
                    t,
                ) {
                    Err(error) => Err(error),
                    Ok(last) => Ok(leave(last)),
                }
            },
        }
    }

    /// The check of the loop reaches its body.
    pub open spec fn enters(self, env: Env, t: CaptureTable) -> bool {
        self.value.outcome(env, t) matches Ok(value) && value.quantifier.is_list()
    }

    /// The environment that the check of the loop leaves, whether it
    /// succeeds or fails: a loop whose body is not reached leaves `env` as
    /// it is, and the scope of the loop is left in both cases.
    pub open spec fn leaves(self, env: Env, t: CaptureTable) -> Env
        decreases self, 0int,
    {
        if self.enters(env, t) {
            leave(block_leaves(self.statements@, self.statements@.len() as int, self.loop_scope(env), t))
        } else {
            env
        }
    }

    /// `new` is this loop after it was checked in `env`: the captures that
    /// the check reached are resolved, and nothing else differs.
    pub open spec fn checked(self, new: ForIn, env: Env, t: CaptureTable) -> bool
        decreases self, 0int,
    {
        &&& new.location == self.location
        &&& new.variable == self.variable
        &&& self.value.checked(new.value, env, t)
        &&& if self.enters(env, t) {
            block_checked(self.statements@, new.statements@, self.loop_scope(env), t)
        } else {
            new.statements == self.statements
        }
    }

    /// Checks the loop and resolves the captures in it. The scope of the loop
    /// is left when the check returns, whether it succeeded or failed.
    pub(crate) fn check(&mut self, ctx: &CheckContext, locals: &mut VariableMap<ExpressionResult>) -> (result:
        Result<(), CheckError>)
        requires
            ctx.wf(),
            old(self).interned(ctx@.names.len()),
            old(locals).wf(),
        ensures
            env_result(result, final(locals)@, old(self).outcome(old(locals)@, ctx@)),
            final(locals)@ == old(self).leaves(old(locals)@, ctx@),
            final(locals)@.len() == old(locals)@.len(),
            only_assigned(old(locals)@, final(locals)@),
            !old(self).enters(old(locals)@, ctx@) ==> final(locals)@ == old(locals)@,
            old(self).checked(*final(self), old(locals)@, ctx@),
        decreases *old(self),
    {
        let value = self.value.check(ctx, locals)?;
        if !value.quantifier.is_list() {
            return Err(CheckError::ExpectedListValue(self.location));
        }
        proof {
            self.lemma_loop_scope(locals@, ctx@);
        }
        locals.enter_scope();
        let declared = self.variable.add_check(
            ctx,
            locals,
            ExpressionResult { quantifier: Cardinality::ExactlyOne },
            false,
        );
        let ghost inner = locals@;
        let checked = match declared {
            Ok(()) => check_statements(&mut self.statements, ctx, locals),
            Err(error) => Err(error),
        };
        proof {
            lemma_extended_twice(enter(old(locals)@), inner, locals@);
            lemma_left_scope(old(locals)@, locals@);
        }
        locals.leave_scope();
        checked
    }
}

/// Checking a statement can declare names in the innermost scope and assign
/// to mutable variables, and nothing else: it leaves as many scopes as it
/// found, with every binding that was there, and what a block inside the
/// statement declared is gone.
pub proof fn lemma_statement_extends(stmt: Statement, env: Env, t: CaptureTable)
    requires
        env.len() > 0,
    ensures
        stmt.outcome(env, t) is Ok ==> extended(env, stmt.outcome(env, t)->Ok_0),
    decreases stmt, 0int,
{
    if let Ok(after) = stmt.outcome(env, t) {
        match stmt {
            Statement::DeclareImmutable(declaration) => {
                if let crate::ast::Variable::Unscoped(variable) = declaration.variable {
                    let value = declaration.value.outcome(env, t)->Ok_0;
                    lemma_declare_extends(env, variable.name.index, value, false);
                }
            },
            Statement::DeclareMutable(declaration) => {
                if let crate::ast::Variable::Unscoped(variable) = declaration.variable {
                    let value = declaration.value.outcome(env, t)->Ok_0;
                    lemma_declare_extends(env, variable.name.index, value, true);
                }
            },
            Statement::Assign(assignment) => {
                if let crate::ast::Variable::Unscoped(variable) = assignment.variable {
                    let value = assignment.value.outcome(env, t)->Ok_0;
                    lemma_assign_only_assigns(env, variable.name.index, value);
                }
            },
            Statement::CreateGraphNode(node) => {
                if let crate::ast::Variable::Unscoped(variable) = node.node {
                    lemma_declare_extends(env, variable.name.index, ExpressionResult::single(), false);
                }
            },
            Statement::Scan(scan) => {
                lemma_scan_arms_only_assign(scan.arms@, scan.arms@.len() as int, env, t);
            },
            Statement::If(conditional) => {
                lemma_if_arms_only_assign(conditional.arms@, conditional.arms@.len() as int, env, t);
            },
            Statement::ForIn(stmt) => {
                lemma_for_in_only_assigns(stmt, env, t);
            },
            _ => {},
        }
    }
}

/// Checking a loop can assign to mutable variables around it, and nothing
/// else: the loop variable and what the body declared are gone.
pub proof fn lemma_for_in_only_assigns(stmt: ForIn, env: Env, t: CaptureTable)
    requires
        env.len() > 0,
    ensures
        stmt.outcome(env, t) is Ok ==> only_assigned(env, stmt.outcome(env, t)->Ok_0),
    decreases stmt, 0int,
{
    if stmt.outcome(env, t) is Ok {
        stmt.lemma_loop_scope(env, t);
        let inner = stmt.loop_scope(env);
        let count = stmt.statements@.len() as int;
        lemma_declare_extends(enter(env), stmt.variable.name.index, ExpressionResult::single(), false);
        lemma_block_extends(stmt.statements@, count, inner, t);
        let last = block_outcome(stmt.statements@, count, inner, t)->Ok_0;
        lemma_extended_twice(enter(env), inner, last);
        lemma_left_scope(env, last);
    }
}

/// Checking a block can declare names in the innermost scope and assign to
/// mutable variables, and nothing else.
pub proof fn lemma_block_extends(statements: Seq<Statement>, upto: int, env: Env, t: CaptureTable)
    requires
        env.len() > 0,
        0 <= upto <= statements.len(),
    ensures
        block_outcome(statements, upto, env, t) is Ok ==> extended(
            env,
            block_outcome(statements, upto, env, t)->Ok_0,
        ),
    decreases statements, upto,
{
    if 0 < upto {
        lemma_block_extends(statements, upto - 1, env, t);
        if let Ok(before) = block_outcome(statements, upto - 1, env, t) {
            lemma_statement_extends(statements[upto - 1], before, t);
            if let Ok(after) = statements[upto - 1].outcome(before, t) {
                lemma_extended_twice(env, before, after);
            }
        }
    }
}

/// Checking a block in a scope of its own can assign to mutable variables
/// around it, and nothing else: what the block declared is gone, and no
/// binding around it was lost, shadowed for good, or made mutable.
pub proof fn lemma_scoped_block_only_assigns(statements: Seq<Statement>, env: Env, t: CaptureTable)
    requires
        env.len() > 0,
    ensures
        scoped_block_outcome(statements, env, t) is Ok ==> only_assigned(
            env,
            scoped_block_outcome(statements, env, t)->Ok_0,
        ),
    decreases statements, statements.len() + 1,
{
    let count = statements.len() as int;
    lemma_block_extends(statements, count, enter(env), t);
    if let Ok(inner) = block_outcome(statements, count, enter(env), t) {
        lemma_left_scope(env, inner);
    }
}

/// Checking the arms of a scan can assign to mutable variables, and nothing
/// else.
proof fn lemma_scan_arms_only_assign(arms: Seq<ScanArm>, upto: int, env: Env, t: CaptureTable)
    requires
        env.len() > 0,
        0 <= upto <= arms.len(),
    ensures
        scan_arms_outcome(arms, upto, env, t) is Ok ==> only_assigned(
            env,
            scan_arms_outcome(arms, upto, env, t)->Ok_0,
        ),
    decreases arms, upto,
{
    if 0 < upto {
        lemma_scan_arms_only_assign(arms, upto - 1, env, t);
        if let Ok(before) = scan_arms_outcome(arms, upto - 1, env, t) {
            lemma_scoped_block_only_assigns(arms[upto - 1].statements@, before, t);
            if let Ok(after) = arms[upto - 1].outcome(before, t) {
                lemma_extended_twice(env, before, after);
            }
        }
    }
}

/// Checking the arms of a conditional can assign to mutable variables, and
/// nothing else.
proof fn lemma_if_arms_only_assign(arms: Seq<IfArm>, upto: int, env: Env, t: CaptureTable)
    requires
        env.len() > 0,
        0 <= upto <= arms.len(),
    ensures
        if_arms_outcome(arms, upto, env, t) is Ok ==> only_assigned(
            env,
            if_arms_outcome(arms, upto, env, t)->Ok_0,
        ),
    decreases arms, upto,
{
    if 0 < upto {
        lemma_if_arms_only_assign(arms, upto - 1, env, t);
        if let Ok(before) = if_arms_outcome(arms, upto - 1, env, t) {
            lemma_scoped_block_only_assigns(arms[upto - 1].statements@, before, t);
            if let Ok(after) = arms[upto - 1].outcome(before, t) {
                lemma_extended_twice(env, before, after);
            }
        }
    }
}

/// A loop over a capture that the pattern of the stanza binds is refused
/// with `ExpectedListValue` at the location of the loop unless the capture
/// binds zero or more, or one or more, values. Over such a capture the loop
/// is accepted where its body is: the body is checked in a scope of its own
/// that declares the loop variable, and nothing that the body declares
/// outlives the loop.
pub proof fn lemma_for_in_over_capture(stmt: ForIn, capture: Capture, env: Env, t: CaptureTable)
    requires
        env.len() > 0,
        stmt.value == Expression::Capture(capture),
        capture.defined(t),
        capture.cardinality(t).is_list() ==> block_outcome(
            stmt.statements@,
            stmt.statements@.len() as int,
            stmt.loop_scope(env),
            t,
        ) is Ok,
    ensures
        stmt.outcome(env, t) is Ok <==> capture.cardinality(t) == Cardinality::ZeroOrMore
            || capture.cardinality(t) == Cardinality::OneOrMore,
        stmt.outcome(env, t) is Err ==> stmt.outcome(env, t) == Err::<Env, CheckErrorView>(
            CheckErrorView::ExpectedListValue(stmt.location),
        ),
        stmt.outcome(env, t) is Ok ==> only_assigned(env, stmt.outcome(env, t)->Ok_0),
{
    lemma_for_in_only_assigns(stmt, env, t);
}

/// A guard on one capture that the pattern of the stanza binds is accepted
/// if the capture binds zero values or one, and refused with
/// `ExpectedOptionalValue` at the location of the capture otherwise.
pub proof fn lemma_condition_over_capture(condition: Condition, capture: Capture, t: CaptureTable)
    requires
        condition.captures() == seq![capture],
        capture.defined(t),
    ensures
        condition.failure(t) is None <==> capture.cardinality(t) == Cardinality::ZeroOrOne,
        condition.failure(t) is Some ==> condition.failure(t) == Some(
            CheckErrorView::ExpectedOptionalValue(capture.location),
        ),
{
    let captures = condition.captures();
    assert(captures[0] == capture);
    assert(captures_failure(captures, 0, t) is None);
    assert(captures_failure(captures, 1, t) == guard_failure(capture, t));
}

/// A guard is accepted exactly when the pattern of the stanza binds every
/// capture it names, and binds each zero times or once.
pub proof fn lemma_condition_accepted(captures: Seq<Capture>, upto: int, t: CaptureTable)
    requires
        0 <= upto <= captures.len(),
    ensures
        captures_failure(captures, upto, t) is None <==> forall|i: int|
            #![trigger captures[i]]
            0 <= i < upto ==> captures[i].defined(t) && captures[i].cardinality(t)
                == Cardinality::ZeroOrOne,
    decreases upto,
{
    if 0 < upto {
        lemma_condition_accepted(captures, upto - 1, t);
        if captures_failure(captures, upto, t) is None {
            assert forall|i: int| #![trigger captures[i]] 0 <= i < upto implies captures[i].defined(t)
                && captures[i].cardinality(t) == Cardinality::ZeroOrOne by {
                if i == upto - 1 {
                    assert(guard_failure(captures[i], t) is None);
                }
            }
        } else {
            if captures_failure(captures, upto - 1, t) is None {
                assert(guard_failure(captures[upto - 1], t) is Some);
            }
        }
    }
}

/// The outcome of a statement that leaves the environment as it is.
pub open spec fn unchanged(failure: Option<CheckErrorView>, env: Env) -> Result<Env, CheckErrorView> {
    match failure {
        Some(error) => Err(error),
        None => Ok(env),
    }
}

impl Statement {
    /// Every name in the statement is one of the first `count` interned
    /// names.
    pub open spec fn interned(self, count: nat) -> bool
        decreases self, 0int,
    {
        match self {
            Statement::DeclareImmutable(stmt) => stmt.interned(count),
            Statement::DeclareMutable(stmt) => stmt.interned(count),
            Statement::Assign(stmt) => stmt.interned(count),
            Statement::CreateGraphNode(stmt) => stmt.interned(count),
            Statement::AddGraphNodeAttribute(stmt) => stmt.interned(count),
            Statement::CreateEdge(stmt) => stmt.interned(count),
            Statement::AddEdgeAttribute(stmt) => stmt.interned(count),
            Statement::Scan(stmt) => stmt.interned(count),
            Statement::Print(stmt) => stmt.interned(count),
            Statement::If(stmt) => stmt.interned(count),
            Statement::ForIn(stmt) => stmt.interned(count),
        }
    }

    /// The environment after the statement was checked in `env`, or the
    /// first error in it.
    pub open spec fn outcome(self, env: Env, t: CaptureTable) -> Result<Env, CheckErrorView>
        decreases self, 0int,
    {
        match self {
            Statement::DeclareImmutable(stmt) => stmt.outcome(env, t),
            Statement::DeclareMutable(stmt) => stmt.outcome(env, t),
            Statement::Assign(stmt) => stmt.outcome(env, t),
            Statement::CreateGraphNode(stmt) => stmt.outcome(env, t),
            Statement::AddGraphNodeAttribute(stmt) => unchanged(stmt.failure(env, t), env),
            Statement::CreateEdge(stmt) => unchanged(stmt.failure(env, t), env),
            Statement::AddEdgeAttribute(stmt) => unchanged(stmt.failure(env, t), env),
            Statement::Scan(stmt) => stmt.outcome(env, t),
            Statement::Print(stmt) => unchanged(stmt.failure(env, t), env),
            Statement::If(stmt) => stmt.outcome(env, t),
            Statement::ForIn(stmt) => stmt.outcome(env, t),
        }
    }

    /// The environment that the check of the statement leaves, whether it
    /// succeeds or fails. A statement without blocks that fails leaves `env`
    /// as it is.
    pub open spec fn leaves(self, env: Env, t: CaptureTable) -> Env
        decreases self, 0int,
    {
        match self {
            Statement::Scan(stmt) => stmt.leaves(env, t),
            Statement::If(stmt) => stmt.leaves(env, t),
            Statement::ForIn(stmt) => stmt.leaves(env, t),
            _ => match self.outcome(env, t) {
                Ok(after) => after,
                Err(_) => env,
            },
        }
    }

    /// `new` is this statement after it was checked in `env`: the captures
    /// that the check reached are resolved, and nothing else differs.
    pub open spec fn checked(self, new: Statement, env: Env, t: CaptureTable) -> bool
        decreases self, 0int,
    {
        match self {
            Statement::DeclareImmutable(a) => new matches Statement::DeclareImmutable(b) && a.checked(
                b,
                env,
                t,
            ),
            Statement::DeclareMutable(a) => new matches Statement::DeclareMutable(b) && a.checked(
                b,
                env,
                t,
            ),
            Statement::Assign(a) => new matches Statement::Assign(b) && a.checked(b, env, t),
            Statement::CreateGraphNode(a) => new matches Statement::CreateGraphNode(b) && a.checked(
                b,
                env,
                t,
            ),
            Statement::AddGraphNodeAttribute(a) => new matches Statement::AddGraphNodeAttribute(b)
                && a.checked(b, env, t),
            Statement::CreateEdge(a) => new matches Statement::CreateEdge(b) && a.checked(b, env, t),
            Statement::AddEdgeAttribute(a) => new matches Statement::AddEdgeAttribute(b) && a.checked(
                b,
                env,
                t,
            ),
            Statement::Scan(a) => new matches Statement::Scan(b) && a.checked(b, env, t),
            Statement::Print(a) => new matches Statement::Print(b) && a.checked(b, env, t),
            Statement::If(a) => new matches Statement::If(b) && a.checked(b, env, t),
            Statement::ForIn(a) => new matches Statement::ForIn(b) && a.checked(b, env, t),
        }
    }

    /// Checks the statement and resolves the captures in it.
    pub(crate) fn check(&mut self, ctx: &CheckContext, locals: &mut VariableMap<ExpressionResult>) -> (result:
        Result<(), CheckError>)
        requires
            ctx.wf(),
            old(self).interned(ctx@.names.len()),
            old(locals).wf(),
        ensures
            env_result(result, final(locals)@, old(self).outcome(old(locals)@, ctx@)),
            final(locals)@ == old(self).leaves(old(locals)@, ctx@),
            final(locals)@.len() == old(locals)@.len(),
            extended(old(locals)@, final(locals)@),
            result is Err ==> only_assigned(old(locals)@, final(locals)@),
            old(self).checked(*final(self), old(locals)@, ctx@),
        decreases *old(self),
    {
        proof {
            lemma_statement_extends(*old(self), locals@, ctx@);
        }
        match self {
            Statement::DeclareImmutable(stmt) => stmt.check(ctx, locals),
            Statement::DeclareMutable(stmt) => stmt.check(ctx, locals),
            Statement::Assign(stmt) => stmt.check(ctx, locals),
            Statement::CreateGraphNode(stmt) => stmt.check(ctx, locals),
            Statement::AddGraphNodeAttribute(stmt) => stmt.check(ctx, locals),
            Statement::CreateEdge(stmt) => stmt.check(ctx, locals),
            Statement::AddEdgeAttribute(stmt) => stmt.check(ctx, locals),
            Statement::Scan(stmt) => stmt.check(ctx, locals),
            Statement::Print(stmt) => stmt.check(ctx, locals),
            Statement::If(stmt) => stmt.check(ctx, locals),
            Statement::ForIn(stmt) => stmt.check(ctx, locals),
        }
    }
}

} // verus!
