use graph_checker::ast::{
    AddEdgeAttribute, AddGraphNodeAttribute, Assign, Attribute, Call, Capture, Condition,
    CreateEdge, CreateGraphNode, DeclareImmutable, DeclareMutable, Expression, File, ForIn, If,
    IfArm, IntegerConstant, ListComprehension, Print, RegexCapture, Scan, ScanArm, ScanExpression,
    ScopedVariable, SetComprehension, Stanza, Statement, StringConstant, UnscopedVariable,
    Variable,
};
use graph_checker::checker::CheckError;
use graph_checker::context::{Context, Identifier};
use graph_checker::location::Location;
use graph_checker::program::FULL_MATCH;
use graph_checker::query::Cardinality;
use graph_checker::variables::VariableError;

const ONE: &str = "(array (number) @child) @__tsg__full_match";
const OPTIONAL: &str = "(array (number)? @child) @__tsg__full_match";
const MANY: &str = "(array (number)* @child) @__tsg__full_match";
const SOME: &str = "(array (number)+ @child) @__tsg__full_match";

fn at(row: usize, column: usize) -> Location {
    Location { row, column }
}

fn query(source: &str) -> tree_sitter::Query {
    tree_sitter::Query::new(tree_sitter_json::language(), source).unwrap()
}

fn stanza(pattern: &str, statements: Vec<Statement>) -> Stanza {
    Stanza {
        query: query(pattern),
        statements,
        full_match_stanza_capture_index: 0,
        full_match_file_capture_index: usize::MAX,
        location: at(0, 0),
    }
}

fn file_of(stanzas: Vec<(&str, Vec<Statement>)>) -> File {
    let patterns: Vec<&str> = stanzas.iter().map(|(pattern, _)| *pattern).collect();
    let combined = patterns.join("\n");
    File {
        query: Some(query(&combined)),
        stanzas: stanzas.into_iter().map(|(pattern, body)| stanza(pattern, body)).collect(),
    }
}

fn capture(name: &str, location: Location, ctx: &mut Context) -> Capture {
    Capture {
        name: ctx.add_identifier(name),
        quantifier: Cardinality::Zero,
        file_capture_index: usize::MAX,
        stanza_capture_index: usize::MAX,
        location,
    }
}

fn capture_expr(name: &str, location: Location, ctx: &mut Context) -> Expression {
    Expression::Capture(capture(name, location, ctx))
}

fn unscoped(name: &str, ctx: &mut Context) -> UnscopedVariable {
    UnscopedVariable { name: ctx.add_identifier(name), location: at(9, 9) }
}

fn variable(name: &str, ctx: &mut Context) -> Variable {
    Variable::Unscoped(unscoped(name, ctx))
}

fn variable_expr(name: &str, ctx: &mut Context) -> Expression {
    Expression::Variable(variable(name, ctx))
}

fn integer(value: u32) -> Expression {
    Expression::IntegerConstant(IntegerConstant { value })
}

fn let_(name: &str, value: Expression, ctx: &mut Context) -> Statement {
    Statement::DeclareImmutable(DeclareImmutable {
        variable: variable(name, ctx),
        value,
        location: at(1, 0),
    })
}

fn var_(name: &str, value: Expression, ctx: &mut Context) -> Statement {
    Statement::DeclareMutable(DeclareMutable {
        variable: variable(name, ctx),
        value,
        location: at(1, 0),
    })
}

fn set_(name: &str, value: Expression, ctx: &mut Context) -> Statement {
    Statement::Assign(Assign { variable: variable(name, ctx), value, location: at(1, 0) })
}

fn for_(name: &str,
    value: Expression,
    statements: Vec<Statement>,
    location: Location, ctx: &mut Context) -> Statement {
    Statement::ForIn(ForIn { variable: unscoped(name, ctx), value, statements, location })
}

fn if_(arms: Vec<(Vec<Condition>, Vec<Statement>)>) -> Statement {
    Statement::If(If {
        arms: arms
            .into_iter()
            .map(|(conditions, statements)| IfArm { conditions, statements, location: at(2, 0) })
            .collect(),
        location: at(2, 0),
    })
}

fn print_(values: Vec<Expression>) -> Statement {
    Statement::Print(Print { values, location: at(3, 0) })
}

fn check(file: &mut File, ctx: &Context) -> Result<(), CheckError> {
    assert!(file.is_checkable(ctx));
    file.check(ctx)
}

fn variable_error(kind: VariableError, name: &str) -> Result<(), CheckError> {
    Err(CheckError::Variable(kind, name.to_string()))
}

fn for_over_capture(pattern: &str) -> Result<(), CheckError> {
    let mut ctx = Context::new();
    let body = vec![for_("n", capture_expr("child", at(4, 9), &mut ctx), vec![], at(4, 0), &mut ctx)];
    let mut file = file_of(vec![(pattern, body)]);
    check(&mut file, &ctx)
}

fn condition_over_capture(pattern: &str, present: bool) -> Result<(), CheckError> {
    let mut ctx = Context::new();
    let captures = vec![capture("child", at(5, 8), &mut ctx)];
    let condition = if present { Condition::Present(captures) } else { Condition::Absent(captures) };
    let mut file = file_of(vec![(pattern, vec![if_(vec![(vec![condition], vec![])])])]);
    check(&mut file, &ctx)
}

#[test]
fn for_loop_over_zero_or_more_is_accepted() {
    assert_eq!(for_over_capture(MANY), Ok(()));
}

#[test]
fn for_loop_over_one_or_more_is_accepted() {
    assert_eq!(for_over_capture(SOME), Ok(()));
}

#[test]
fn for_loop_over_exactly_one_is_refused() {
    assert_eq!(for_over_capture(ONE), Err(CheckError::ExpectedListValue(at(4, 0))));
}

#[test]
fn for_loop_over_zero_or_one_is_refused() {
    assert_eq!(for_over_capture(OPTIONAL), Err(CheckError::ExpectedListValue(at(4, 0))));
}

#[test]
fn condition_over_zero_or_one_is_accepted() {
    assert_eq!(condition_over_capture(OPTIONAL, true), Ok(()));
    assert_eq!(condition_over_capture(OPTIONAL, false), Ok(()));
}

#[test]
fn condition_over_exactly_one_is_refused() {
    assert_eq!(
        condition_over_capture(ONE, true),
        Err(CheckError::ExpectedOptionalValue(at(5, 8)))
    );
    assert_eq!(
        condition_over_capture(ONE, false),
        Err(CheckError::ExpectedOptionalValue(at(5, 8)))
    );
}

#[test]
fn condition_over_zero_or_more_is_refused() {
    assert_eq!(
        condition_over_capture(MANY, false),
        Err(CheckError::ExpectedOptionalValue(at(5, 8)))
    );
}

#[test]
fn condition_over_one_or_more_is_refused() {
    assert_eq!(
        condition_over_capture(SOME, true),
        Err(CheckError::ExpectedOptionalValue(at(5, 8)))
    );
}

#[test]
fn condition_reports_the_first_capture_that_is_not_optional() {
    let mut ctx = Context::new();
    let captures = vec![
        capture("maybe", at(5, 8), &mut ctx),
        capture("many", at(5, 16), &mut ctx),
        capture("one", at(5, 24), &mut ctx),
    ];
    let pattern = "(array (number)? @maybe (string)* @many (null) @one) @__tsg__full_match";
    let mut file = file_of(vec![(pattern, vec![if_(vec![(vec![Condition::Present(captures)], vec![])])])]);
    assert_eq!(check(&mut file, &ctx), Err(CheckError::ExpectedOptionalValue(at(5, 16))));
}

#[test]
fn declaring_a_variable_twice_is_refused() {
    let mut ctx = Context::new();
    let body = vec![let_("x", integer(1), &mut ctx), let_("x", integer(2), &mut ctx)];
    let mut file = file_of(vec![(ONE, body)]);
    assert_eq!(check(&mut file, &ctx), variable_error(VariableError::VariableAlreadyDefined, "x"));
}

#[test]
fn declaring_var_then_let_is_refused() {
    let mut ctx = Context::new();
    let body = vec![var_("y", integer(1), &mut ctx), let_("y", integer(2), &mut ctx)];
    let mut file = file_of(vec![(ONE, body)]);
    assert_eq!(check(&mut file, &ctx), variable_error(VariableError::VariableAlreadyDefined, "y"));
}

#[test]
fn declaring_in_a_nested_scope_shadows() {
    let mut ctx = Context::new();
    let body = vec![
        let_("x", integer(1), &mut ctx),
        for_("n",
            capture_expr("child", at(4, 9), &mut ctx),
            vec![let_("x", capture_expr("child", at(5, 9), &mut ctx), &mut ctx)],
            at(4, 0), &mut ctx),
        for_("m", variable_expr("x", &mut ctx), vec![], at(6, 0), &mut ctx),
    ];
    let mut file = file_of(vec![(MANY, body)]);
    // Inside the loop `x` is a list; outside it is still the single value.
    assert_eq!(check(&mut file, &ctx), Err(CheckError::ExpectedListValue(at(6, 0))));
}

#[test]
fn assigning_to_an_immutable_variable_is_refused() {
    let mut ctx = Context::new();
    let body = vec![let_("x", integer(1), &mut ctx), set_("x", integer(2), &mut ctx)];
    let mut file = file_of(vec![(ONE, body)]);
    assert_eq!(
        check(&mut file, &ctx),
        variable_error(VariableError::CannotAssignImmutableVariable, "x")
    );
}

#[test]
fn assigning_to_an_undeclared_variable_is_refused() {
    let mut ctx = Context::new();
    let body = vec![set_("ghost", integer(2), &mut ctx)];
    let mut file = file_of(vec![(ONE, body)]);
    assert_eq!(check(&mut file, &ctx), variable_error(VariableError::UndefinedVariable, "ghost"));
}

#[test]
fn assignment_changes_the_cardinality_that_later_reads_see() {
    let mut ctx = Context::new();
    let body = vec![
        var_("x", integer(1), &mut ctx),
        set_("x", capture_expr("child", at(2, 8), &mut ctx), &mut ctx),
        for_("n", variable_expr("x", &mut ctx), vec![], at(3, 0), &mut ctx),
    ];
    let mut file = file_of(vec![(MANY, body)]);
    assert_eq!(check(&mut file, &ctx), Ok(()));
}

#[test]
fn without_the_assignment_the_variable_is_no_list() {
    let mut ctx = Context::new();
    let body = vec![
        var_("x", integer(1), &mut ctx),
        for_("n", variable_expr("x", &mut ctx), vec![], at(3, 0), &mut ctx),
    ];
    let mut file = file_of(vec![(MANY, body)]);
    assert_eq!(check(&mut file, &ctx), Err(CheckError::ExpectedListValue(at(3, 0))));
}

#[test]
fn assignment_in_a_nested_scope_reaches_the_outer_variable() {
    let mut ctx = Context::new();
    let body = vec![
        var_("x", integer(1), &mut ctx),
        if_(vec![(vec![], vec![set_("x", capture_expr("child", at(2, 8), &mut ctx), &mut ctx)])]),
        for_("n", variable_expr("x", &mut ctx), vec![], at(3, 0), &mut ctx),
    ];
    let mut file = file_of(vec![(SOME, body)]);
    assert_eq!(check(&mut file, &ctx), Ok(()));
}

#[test]
fn undefined_capture_is_refused_with_its_name() {
    let mut ctx = Context::new();
    let body = vec![print_(vec![capture_expr("missing", at(7, 6), &mut ctx)])];
    let mut file = file_of(vec![(ONE, body)]);
    assert_eq!(
        check(&mut file, &ctx),
        Err(CheckError::UndefinedSyntaxCapture("missing".to_string(), at(7, 6)))
    );
}

#[test]
fn capture_of_a_sibling_stanza_is_refused() {
    let mut ctx = Context::new();
    let first = vec![print_(vec![capture_expr("child", at(1, 6), &mut ctx)])];
    let second = vec![print_(vec![capture_expr("child", at(8, 6), &mut ctx)])];
    let other = "(object (pair) @other) @__tsg__full_match";
    let mut file = file_of(vec![(MANY, first), (other, second)]);
    assert_eq!(
        check(&mut file, &ctx),
        Err(CheckError::UndefinedSyntaxCapture("child".to_string(), at(8, 6)))
    );
}

#[test]
fn undeclared_variable_is_accepted_as_a_single_value() {
    let mut ctx = Context::new();
    let body = vec![print_(vec![variable_expr("global", &mut ctx)])];
    let mut file = file_of(vec![(ONE, body)]);
    assert_eq!(check(&mut file, &ctx), Ok(()));
    // A single value is no list.
    let mut ctx = Context::new();
    let body = vec![for_("n", variable_expr("global", &mut ctx), vec![], at(3, 0), &mut ctx)];
    let mut file = file_of(vec![(ONE, body)]);
    assert_eq!(check(&mut file, &ctx), Err(CheckError::ExpectedListValue(at(3, 0))));
}

#[test]
fn loop_over_a_variable_bound_to_a_list_capture() {
    let mut ctx = Context::new();
    let body = vec![
        let_("x", capture_expr("child", at(1, 8), &mut ctx), &mut ctx),
        for_("n",
            variable_expr("x", &mut ctx),
            vec![print_(vec![variable_expr("n", &mut ctx)])],
            at(2, 0), &mut ctx),
        // `n` is gone after the loop, so it can be declared.
        let_("n", integer(1), &mut ctx),
    ];
    let mut file = file_of(vec![(MANY, body)]);
    assert_eq!(check(&mut file, &ctx), Ok(()));
}

#[test]
fn loop_variable_cannot_be_declared_again_in_the_body() {
    let mut ctx = Context::new();
    let body = vec![for_("n",
        capture_expr("child", at(2, 9), &mut ctx),
        vec![let_("n", integer(1), &mut ctx)],
        at(2, 0), &mut ctx)];
    let mut file = file_of(vec![(MANY, body)]);
    assert_eq!(check(&mut file, &ctx), variable_error(VariableError::VariableAlreadyDefined, "n"));
}

#[test]
fn loop_variable_is_immutable() {
    let mut ctx = Context::new();
    let body = vec![for_("n",
        capture_expr("child", at(2, 9), &mut ctx),
        vec![set_("n", integer(1), &mut ctx)],
        at(2, 0), &mut ctx)];
    let mut file = file_of(vec![(MANY, body)]);
    assert_eq!(
        check(&mut file, &ctx),
        variable_error(VariableError::CannotAssignImmutableVariable, "n")
    );
}

#[test]
fn loop_variable_is_a_single_value() {
    let mut ctx = Context::new();
    let body = vec![for_("n",
        capture_expr("child", at(2, 9), &mut ctx),
        vec![for_("m", variable_expr("n", &mut ctx), vec![], at(3, 4), &mut ctx)],
        at(2, 0), &mut ctx)];
    let mut file = file_of(vec![(MANY, body)]);
    assert_eq!(check(&mut file, &ctx), Err(CheckError::ExpectedListValue(at(3, 4))));
}

#[test]
fn condition_over_a_list_capture_is_refused() {
    let mut ctx = Context::new();
    let body = vec![
        let_("x", capture_expr("child", at(1, 8), &mut ctx), &mut ctx),
        if_(vec![(vec![Condition::Absent(vec![capture("child", at(2, 8), &mut ctx)])], vec![])]),
    ];
    let mut file = file_of(vec![(MANY, body)]);
    assert_eq!(check(&mut file, &ctx), Err(CheckError::ExpectedOptionalValue(at(2, 8))));
}

#[test]
fn arms_of_a_conditional_do_not_share_bindings() {
    let mut ctx = Context::new();
    let body = vec![
        if_(vec![
            (
                vec![Condition::Present(vec![capture("child", at(1, 8), &mut ctx)])],
                vec![let_("x", integer(1), &mut ctx)],
            ),
            (vec![], vec![let_("x", integer(2), &mut ctx)]),
        ]),
        let_("x", integer(3), &mut ctx),
    ];
    let mut file = file_of(vec![(OPTIONAL, body)]);
    assert_eq!(check(&mut file, &ctx), Ok(()));
}

#[test]
fn arms_of_a_scan_do_not_share_bindings() {
    let mut ctx = Context::new();
    let arm = |ctx: &mut Context| ScanArm {
        regex: "a+".to_string(),
        statements: vec![
            let_("x", Expression::RegexCapture(RegexCapture { match_index: 0 }), ctx),
        ],
        location: at(2, 0),
    };
    let body = vec![
        Statement::Scan(Scan {
            value: ScanExpression::Capture(capture("child", at(1, 5), &mut ctx)),
            arms: vec![arm(&mut ctx), arm(&mut ctx)],
            location: at(1, 0),
        }),
        let_("x", integer(3), &mut ctx),
    ];
    let mut file = file_of(vec![(ONE, body)]);
    assert_eq!(check(&mut file, &ctx), Ok(()));
}

#[test]
fn scan_checks_its_value_and_its_arms() {
    let mut ctx = Context::new();
    let body = vec![Statement::Scan(Scan {
        value: ScanExpression::Capture(capture("missing", at(1, 5), &mut ctx)),
        arms: vec![],
        location: at(1, 0),
    })];
    let mut file = file_of(vec![(ONE, body)]);
    assert_eq!(
        check(&mut file, &ctx),
        Err(CheckError::UndefinedSyntaxCapture("missing".to_string(), at(1, 5)))
    );
    let mut ctx = Context::new();
    let body = vec![Statement::Scan(Scan {
        value: ScanExpression::StringConstant(StringConstant { value: "text".to_string() }),
        arms: vec![ScanArm {
            regex: "a+".to_string(),
            statements: vec![set_("x", integer(1), &mut ctx)],
            location: at(2, 0),
        }],
        location: at(1, 0),
    })];
    let mut file = file_of(vec![(ONE, body)]);
    assert_eq!(check(&mut file, &ctx), variable_error(VariableError::UndefinedVariable, "x"));
}

#[test]
fn stanzas_do_not_share_variables() {
    let mut ctx = Context::new();
    let first = vec![var_("x", integer(1), &mut ctx)];
    let second = vec![set_("x", integer(2), &mut ctx)];
    let mut file = file_of(vec![(ONE, first), (MANY, second)]);
    assert_eq!(check(&mut file, &ctx), variable_error(VariableError::UndefinedVariable, "x"));
    let mut ctx = Context::new();
    let first = vec![let_("x", integer(1), &mut ctx)];
    let second = vec![let_("x", integer(2), &mut ctx)];
    let mut file = file_of(vec![(ONE, first), (MANY, second)]);
    assert_eq!(check(&mut file, &ctx), Ok(()));
}

#[test]
fn lists_sets_and_calls() {
    let mut ctx = Context::new();
    let list = Expression::ListComprehension(ListComprehension {
        elements: vec![integer(1), capture_expr("child", at(1, 9), &mut ctx)],
    });
    let set = Expression::SetComprehension(SetComprehension { elements: vec![] });
    let call = Expression::Call(Call {
        function: ctx.add_identifier("f"),
        parameters: vec![capture_expr("child", at(3, 9), &mut ctx)],
    });
    let body = vec![
        for_("a", list, vec![], at(1, 0), &mut ctx),
        for_("b", set, vec![], at(2, 0), &mut ctx),
        for_("c", call, vec![], at(3, 0), &mut ctx),
    ];
    let mut file = file_of(vec![(MANY, body)]);
    // A list and a set are lists; what a call returns counts as one value.
    assert_eq!(check(&mut file, &ctx), Err(CheckError::ExpectedListValue(at(3, 0))));
}

#[test]
fn errors_inside_lists_and_calls_are_found() {
    let mut ctx = Context::new();
    let call = Expression::Call(Call {
        function: ctx.add_identifier("f"),
        parameters: vec![
            integer(1),
            Expression::SetComprehension(SetComprehension {
                elements: vec![capture_expr("nowhere", at(1, 20), &mut ctx)],
            }),
            capture_expr("later", at(1, 30), &mut ctx),
        ],
    });
    let body = vec![print_(vec![Expression::TrueLiteral, call])];
    let mut file = file_of(vec![(MANY, body)]);
    assert_eq!(
        check(&mut file, &ctx),
        Err(CheckError::UndefinedSyntaxCapture("nowhere".to_string(), at(1, 20)))
    );
}

#[test]
fn graph_statements() {
    let mut ctx = Context::new();
    let attribute = |value: Expression, ctx: &mut Context| Attribute {
        name: capture_expr("not_checked", at(0, 0), ctx),
        value,
    };
    let body = vec![
        Statement::CreateGraphNode(CreateGraphNode { node: variable("a", &mut ctx), location: at(1, 0) }),
        Statement::CreateGraphNode(CreateGraphNode { node: variable("b", &mut ctx), location: at(2, 0) }),
        Statement::AddGraphNodeAttribute(AddGraphNodeAttribute {
            node: variable_expr("a", &mut ctx),
            attributes: vec![attribute(capture_expr("child", at(3, 9), &mut ctx), &mut ctx)],
            location: at(3, 0),
        }),
        Statement::CreateEdge(CreateEdge {
            source: variable_expr("a", &mut ctx),
            sink: variable_expr("b", &mut ctx),
            location: at(4, 0),
        }),
        Statement::AddEdgeAttribute(AddEdgeAttribute {
            source: variable_expr("a", &mut ctx),
            sink: variable_expr("b", &mut ctx),
            attributes: vec![attribute(Expression::NullLiteral, &mut ctx)],
            location: at(5, 0),
        }),
    ];
    let mut file = file_of(vec![(MANY, body)]);
    assert_eq!(check(&mut file, &ctx), Ok(()));
}

#[test]
fn graph_node_is_an_immutable_single_value() {
    let mut ctx = Context::new();
    let node = |ctx: &mut Context| {
        Statement::CreateGraphNode(CreateGraphNode { node: variable("a", ctx), location: at(1, 0) })
    };
    let mut one = file_of(vec![(MANY, vec![node(&mut ctx), node(&mut ctx)])]);
    assert_eq!(check(&mut one, &ctx), variable_error(VariableError::VariableAlreadyDefined, "a"));
    let body = vec![node(&mut ctx), set_("a", integer(1), &mut ctx)];
    let mut two = file_of(vec![(MANY, body)]);
    assert_eq!(
        check(&mut two, &ctx),
        variable_error(VariableError::CannotAssignImmutableVariable, "a")
    );
    let body = vec![node(&mut ctx), for_("n", variable_expr("a", &mut ctx), vec![], at(2, 0), &mut ctx)];
    let mut three = file_of(vec![(MANY, body)]);
    assert_eq!(check(&mut three, &ctx), Err(CheckError::ExpectedListValue(at(2, 0))));
}

#[test]
fn errors_in_graph_statements_come_in_order() {
    let mut ctx = Context::new();
    let body = vec![Statement::AddEdgeAttribute(AddEdgeAttribute {
        source: variable_expr("a", &mut ctx),
        sink: capture_expr("sink", at(1, 10), &mut ctx),
        attributes: vec![Attribute {
            name: Expression::NullLiteral,
            value: capture_expr("value", at(1, 20), &mut ctx),
        }],
        location: at(1, 0),
    })];
    let mut file = file_of(vec![(MANY, body)]);
    assert_eq!(
        check(&mut file, &ctx),
        Err(CheckError::UndefinedSyntaxCapture("sink".to_string(), at(1, 10)))
    );
    let mut ctx = Context::new();
    let body = vec![Statement::AddGraphNodeAttribute(AddGraphNodeAttribute {
        node: capture_expr("child", at(1, 6), &mut ctx),
        attributes: vec![
            Attribute { name: Expression::NullLiteral, value: integer(1) },
            Attribute {
                name: Expression::NullLiteral,
                value: capture_expr("value", at(1, 20), &mut ctx),
            },
        ],
        location: at(1, 0),
    })];
    let mut file = file_of(vec![(MANY, body)]);
    assert_eq!(
        check(&mut file, &ctx),
        Err(CheckError::UndefinedSyntaxCapture("value".to_string(), at(1, 20)))
    );
    let mut ctx = Context::new();
    let body = vec![Statement::CreateEdge(CreateEdge {
        source: capture_expr("source", at(1, 5), &mut ctx),
        sink: capture_expr("sink", at(1, 15), &mut ctx),
        location: at(1, 0),
    })];
    let mut file = file_of(vec![(MANY, body)]);
    assert_eq!(
        check(&mut file, &ctx),
        Err(CheckError::UndefinedSyntaxCapture("source".to_string(), at(1, 5)))
    );
}

#[test]
fn scoped_variables_only_check_their_scope() {
    let mut ctx = Context::new();
    let scoped = |ctx: &mut Context, capture_name: &str| {
        Variable::Scoped(ScopedVariable {
            scope: Box::new(capture_expr(capture_name, at(1, 4), ctx)),
            name: ctx.add_identifier("field"),
            location: at(1, 4),
        })
    };
    let body = vec![
        Statement::DeclareImmutable(DeclareImmutable {
            variable: scoped(&mut ctx, "child"),
            value: integer(1),
            location: at(1, 0),
        }),
        Statement::DeclareImmutable(DeclareImmutable {
            variable: scoped(&mut ctx, "child"),
            value: integer(2),
            location: at(2, 0),
        }),
        Statement::Assign(Assign {
            variable: scoped(&mut ctx, "child"),
            value: integer(3),
            location: at(3, 0),
        }),
        print_(vec![Expression::Variable(scoped(&mut ctx, "child"))]),
    ];
    let mut file = file_of(vec![(ONE, body)]);
    assert_eq!(check(&mut file, &ctx), Ok(()));
    let body = vec![for_("n",
        Expression::Variable(scoped(&mut ctx, "child")),
        vec![],
        at(4, 0), &mut ctx)];
    let mut file = file_of(vec![(MANY, body)]);
    assert_eq!(check(&mut file, &ctx), Err(CheckError::ExpectedListValue(at(4, 0))));
    let body = vec![Statement::Assign(Assign {
        variable: scoped(&mut ctx, "missing"),
        value: integer(3),
        location: at(3, 0),
    })];
    let mut file = file_of(vec![(ONE, body)]);
    assert_eq!(
        check(&mut file, &ctx),
        Err(CheckError::UndefinedSyntaxCapture("missing".to_string(), at(1, 4)))
    );
}

#[test]
fn value_is_checked_before_the_variable() {
    let mut ctx = Context::new();
    let body = vec![
        let_("x", integer(1), &mut ctx),
        let_("x", capture_expr("missing", at(2, 8), &mut ctx), &mut ctx),
    ];
    let mut file = file_of(vec![(ONE, body)]);
    assert_eq!(
        check(&mut file, &ctx),
        Err(CheckError::UndefinedSyntaxCapture("missing".to_string(), at(2, 8)))
    );
}

#[test]
fn captures_are_annotated_with_both_indices() {
    let mut ctx = Context::new();
    let first = vec![print_(vec![capture_expr("child", at(1, 6), &mut ctx)])];
    let second = vec![
        print_(vec![capture_expr("other", at(2, 6), &mut ctx)]),
        for_("n",
            capture_expr("more", at(3, 9), &mut ctx),
            vec![print_(vec![capture_expr("other", at(4, 6), &mut ctx)])],
            at(3, 0), &mut ctx),
    ];
    let other = "(object (pair)? @other (pair)+ @more) @__tsg__full_match";
    let mut file = file_of(vec![(MANY, first), (other, second)]);
    assert_eq!(check(&mut file, &ctx), Ok(()));

    let file_query = file.query.as_ref().unwrap();
    assert_eq!(file_query.capture_names().to_vec(), vec!["child", FULL_MATCH, "other", "more"]);
    assert_eq!(file.stanzas[0].full_match_file_capture_index, 1);
    assert_eq!(file.stanzas[1].full_match_file_capture_index, 1);
    assert_eq!(file.stanzas[1].full_match_stanza_capture_index, 0);

    let Statement::Print(print) = &file.stanzas[0].statements[0] else { panic!() };
    let Expression::Capture(child) = &print.values[0] else { panic!() };
    assert_eq!(child.stanza_capture_index, 0);
    assert_eq!(child.file_capture_index, 0);
    assert_eq!(child.quantifier, Cardinality::ZeroOrMore);
    assert_eq!(child.location, at(1, 6));

    let Statement::Print(print) = &file.stanzas[1].statements[0] else { panic!() };
    let Expression::Capture(other) = &print.values[0] else { panic!() };
    assert_eq!(other.stanza_capture_index, 0);
    assert_eq!(other.file_capture_index, 2);
    assert_eq!(other.quantifier, Cardinality::ZeroOrOne);

    let Statement::ForIn(for_in) = &file.stanzas[1].statements[1] else { panic!() };
    let Expression::Capture(more) = &for_in.value else { panic!() };
    assert_eq!(more.stanza_capture_index, 1);
    assert_eq!(more.file_capture_index, 3);
    assert_eq!(more.quantifier, Cardinality::OneOrMore);
    let Statement::Print(print) = &for_in.statements[0] else { panic!() };
    let Expression::Capture(inner) = &print.values[0] else { panic!() };
    assert_eq!(inner.stanza_capture_index, 0);
    assert_eq!(inner.file_capture_index, 2);
    assert_eq!(inner.quantifier, Cardinality::ZeroOrOne);
}

#[test]
fn exactly_one_capture_is_annotated_as_such() {
    let mut ctx = Context::new();
    let body = vec![print_(vec![capture_expr("child", at(1, 6), &mut ctx)])];
    let mut file = file_of(vec![(ONE, body)]);
    assert_eq!(check(&mut file, &ctx), Ok(()));
    let Statement::Print(print) = &file.stanzas[0].statements[0] else { panic!() };
    let Expression::Capture(child) = &print.values[0] else { panic!() };
    assert_eq!(child.quantifier, Cardinality::ExactlyOne);
}

#[test]
fn capture_after_the_failure_is_left_alone() {
    let mut ctx = Context::new();
    let body = vec![
        print_(vec![capture_expr("child", at(1, 6), &mut ctx)]),
        print_(vec![capture_expr("missing", at(2, 6), &mut ctx)]),
        print_(vec![capture_expr("child", at(3, 6), &mut ctx)]),
    ];
    let mut file = file_of(vec![(SOME, body)]);
    assert_eq!(
        check(&mut file, &ctx),
        Err(CheckError::UndefinedSyntaxCapture("missing".to_string(), at(2, 6)))
    );
    let Statement::Print(print) = &file.stanzas[0].statements[0] else { panic!() };
    let Expression::Capture(first) = &print.values[0] else { panic!() };
    assert_eq!(first.quantifier, Cardinality::OneOrMore);
    assert_eq!(first.file_capture_index, 0);
    let Statement::Print(print) = &file.stanzas[0].statements[2] else { panic!() };
    let Expression::Capture(last) = &print.values[0] else { panic!() };
    assert_eq!(last.quantifier, Cardinality::Zero);
    assert_eq!(last.file_capture_index, usize::MAX);
}

#[test]
fn empty_file_is_accepted() {
    let ctx = Context::new();
    let mut file = File { query: Some(query("(array) @__tsg__full_match")), stanzas: vec![] };
    assert_eq!(check(&mut file, &ctx), Ok(()));
    assert_eq!(file.try_check(&ctx), Some(Ok(())));
}

#[test]
fn file_without_a_query_is_not_checkable() {
    let ctx = Context::new();
    let mut file = File { query: None, stanzas: vec![] };
    assert!(!file.is_checkable(&ctx));
    assert_eq!(file.try_check(&ctx), None);
}

#[test]
fn file_without_the_full_match_capture_is_not_checkable() {
    let ctx = Context::new();
    let mut file = File {
        query: Some(query("(array) @all")),
        stanzas: vec![stanza("(array) @all", vec![])],
    };
    assert!(!file.is_checkable(&ctx));
    assert_eq!(file.try_check(&ctx), None);
    assert_eq!(file.stanzas[0].full_match_file_capture_index, usize::MAX);
}

#[test]
fn empty_file_is_accepted_whatever_its_query_binds() {
    let ctx = Context::new();
    let mut file = File { query: Some(query("(array) @all")), stanzas: vec![] };
    assert!(file.is_checkable(&ctx));
    assert_eq!(file.check(&ctx), Ok(()));
    assert_eq!(file.try_check(&ctx), Some(Ok(())));
    assert!(file.stanzas.is_empty());
}

#[test]
fn file_with_more_stanzas_than_patterns_is_not_checkable() {
    let ctx = Context::new();
    let file = File {
        query: Some(query(ONE)),
        stanzas: vec![stanza(ONE, vec![]), stanza(ONE, vec![])],
    };
    assert!(!file.is_checkable(&ctx));
    let file = File { query: Some(query(ONE)), stanzas: vec![stanza(ONE, vec![])] };
    assert!(file.is_checkable(&ctx));
}

#[test]
fn stanza_with_a_capture_unknown_to_the_file_is_not_checkable() {
    let ctx = Context::new();
    let file = File {
        query: Some(query(ONE)),
        stanzas: vec![stanza("(array (number) @stray) @__tsg__full_match", vec![])],
    };
    assert!(!file.is_checkable(&ctx));
}

#[test]
fn file_with_a_foreign_identifier_is_not_checkable() {
    let ctx = Context::new();
    let foreign = Identifier { index: 5 };
    let body = vec![print_(vec![Expression::Variable(Variable::Unscoped(UnscopedVariable {
        name: foreign,
        location: at(1, 6),
    }))])];
    let mut file = file_of(vec![(ONE, body)]);
    assert!(!file.is_checkable(&ctx));
    assert_eq!(file.try_check(&ctx), None);
    let mut other = Context::new();
    for name in ["a", "b", "c", "d", "e", "f"] {
        other.add_identifier(name);
    }
    assert!(file.is_checkable(&other));
    assert_eq!(file.try_check(&other), Some(Ok(())));
}

#[test]
fn try_check_reports_what_check_reports() {
    let mut ctx = Context::new();
    let body = vec![let_("x", integer(1), &mut ctx), let_("x", integer(2), &mut ctx)];
    let mut file = file_of(vec![(ONE, body)]);
    assert_eq!(
        file.try_check(&ctx),
        Some(variable_error(VariableError::VariableAlreadyDefined, "x"))
    );
}

#[test]
fn cardinality_classes() {
    assert!(Cardinality::ZeroOrMore.is_list());
    assert!(Cardinality::OneOrMore.is_list());
    assert!(!Cardinality::ExactlyOne.is_list());
    assert!(!Cardinality::ZeroOrOne.is_list());
    assert!(!Cardinality::Zero.is_list());
    assert!(Cardinality::ZeroOrOne.is_optional());
    assert!(!Cardinality::ExactlyOne.is_optional());
    assert!(!Cardinality::ZeroOrMore.is_optional());
    assert!(!Cardinality::OneOrMore.is_optional());
    assert!(!Cardinality::Zero.is_optional());
}
