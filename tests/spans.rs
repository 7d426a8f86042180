use full_moon::ast;
use full_moon::tokenizer::{TokenReference, TokenType};
use lua_function_at_line::index::SpanIndex;
use lua_function_at_line::names::{decimal_string, WalkError, WalkErrorKind};
use lua_function_at_line::syntax::{
    Block, Call, Expression, Field, FunctionArgs, FunctionBody, FunctionCall, FunctionName, Index,
    Position, Prefix, Stmt, Suffix, TableConstructor, Token, TokenKind, Value, Var, VarExpression,
};
use lua_function_at_line::walk::{gather_function_line_spans, FunctionSpan};

fn position(t: &TokenReference) -> Position {
    let p = t.start_position();
    Position { line: p.line(), column: p.character() }
}

fn token(t: &TokenReference) -> Token {
    let kind = match t.token_type() {
        TokenType::Identifier { .. } => TokenKind::Identifier,
        _ => TokenKind::Other,
    };
    Token { kind, text: t.token().to_string(), position: position(t) }
}

fn block(b: &ast::Block) -> Result<Block, String> {
    Ok(Block { stmts: b.stmts().map(stmt).collect::<Result<_, _>>()? })
}

fn body(b: &ast::FunctionBody) -> Result<FunctionBody, String> {
    Ok(FunctionBody { block: block(b.block())?, end_line: b.end_token().end_position().line() })
}

fn expressions(list: &ast::punctuated::Punctuated<ast::Expression>) -> Result<Vec<Expression>, String> {
    list.iter().map(expression).collect()
}

fn stmt(s: &ast::Stmt) -> Result<Stmt, String> {
    Ok(match s {
        ast::Stmt::LocalFunction(f) => Stmt::LocalFunction {
            start_line: f.local_token().start_position().line(),
            name: token(f.name()),
            body: body(f.body())?,
        },
        ast::Stmt::FunctionDeclaration(f) => {
            let mut names = f.name().names().iter().map(token);
            let first = names.next().ok_or_else(|| "a function name without names".to_string())?;
            Stmt::FunctionDeclaration {
                start_line: f.function_token().start_position().line(),
                function_name: FunctionName {
                    first,
                    rest: names.collect(),
                    method: f.name().method_name().map(token),
                },
                body: body(f.body())?,
            }
        }
        ast::Stmt::Assignment(a) => Stmt::Assignment {
            targets: a.variables().iter().map(var).collect::<Result<_, _>>()?,
            values: expressions(a.expressions())?,
        },
        ast::Stmt::LocalAssignment(a) => Stmt::LocalAssignment {
            names: a.names().iter().map(token).collect(),
            values: expressions(a.expressions())?,
        },
        ast::Stmt::FunctionCall(c) => Stmt::FunctionCall(call(c)?),
        ast::Stmt::Do(d) => Stmt::Do(block(d.block())?),
        ast::Stmt::While(w) => Stmt::While(block(w.block())?),
        ast::Stmt::Repeat(r) => Stmt::Repeat(block(r.block())?),
        ast::Stmt::NumericFor(f) => Stmt::NumericFor(block(f.block())?),
        ast::Stmt::GenericFor(f) => Stmt::GenericFor(block(f.block())?),
        ast::Stmt::If(i) => Stmt::If {
            then_block: block(i.block())?,
            else_if_blocks: match i.else_if() {
                Some(list) => list.iter().map(|e| block(e.block())).collect::<Result<_, _>>()?,
                None => Vec::new(),
            },
            else_block: i.else_block().map(block).transpose()?,
        },
        other => return Err(format!("unsupported statement `{}`", other)),
    })
}

fn expression(e: &ast::Expression) -> Result<Expression, String> {
    Ok(match e {
        ast::Expression::Parentheses { contained, expression: inner } => Expression::Parentheses {
            open: position(contained.tokens().0),
            inner: Box::new(expression(inner)?),
        },
        ast::Expression::UnaryOperator { unop, expression: operand } => Expression::UnaryOperator {
            operator: token(unop.token()),
            operand: Box::new(expression(operand)?),
        },
        ast::Expression::BinaryOperator { lhs, binop, rhs } => Expression::BinaryOperator {
            lhs: Box::new(value(lhs)?),
            operator: token(binop.token()),
            rhs: Box::new(expression(rhs)?),
        },
        other => Expression::Value(Box::new(value(other)?)),
    })
}

fn value(e: &ast::Expression) -> Result<Value, String> {
    Ok(match e {
        ast::Expression::Function(f) => Value::Function {
            keyword: position(f.function_token()),
            body: body(f.body())?,
        },
        ast::Expression::FunctionCall(c) => Value::FunctionCall(call(c)?),
        ast::Expression::TableConstructor(t) => Value::TableConstructor(table(t)?),
        ast::Expression::Number(t) | ast::Expression::String(t) | ast::Expression::Symbol(t) => {
            Value::Literal(token(t))
        }
        ast::Expression::Var(v) => Value::Var(var(v)?),
        ast::Expression::Parentheses { .. }
        | ast::Expression::UnaryOperator { .. }
        | ast::Expression::BinaryOperator { .. } => Value::ParseExpression(Box::new(expression(e)?)),
        other => return Err(format!("unsupported expression `{}`", other)),
    })
}

fn var(v: &ast::Var) -> Result<Var, String> {
    Ok(match v {
        ast::Var::Name(t) => Var::Name(token(t)),
        ast::Var::Expression(ve) => Var::Expression(VarExpression {
            prefix: prefix(ve.prefix())?,
            suffixes: ve.suffixes().map(suffix).collect::<Result<_, _>>()?,
        }),
        other => return Err(format!("unsupported variable `{}`", other)),
    })
}

fn prefix(p: &ast::Prefix) -> Result<Prefix, String> {
    Ok(match p {
        ast::Prefix::Name(t) => Prefix::Name(token(t)),
        ast::Prefix::Expression(e) => Prefix::Expression(Box::new(expression(e)?)),
        other => return Err(format!("unsupported prefix `{}`", other)),
    })
}

fn suffix(s: &ast::Suffix) -> Result<Suffix, String> {
    Ok(match s {
        ast::Suffix::Call(ast::Call::AnonymousCall(a)) => Suffix::Call(Call::AnonymousCall(args(a)?)),
        ast::Suffix::Call(ast::Call::MethodCall(m)) => Suffix::Call(Call::MethodCall {
            name: token(m.name()),
            args: args(m.args())?,
        }),
        ast::Suffix::Index(ast::Index::Brackets { expression: e, .. }) => Suffix::Index(Index::Brackets {
            expression: Box::new(expression(e)?),
            source: e.to_string(),
        }),
        ast::Suffix::Index(ast::Index::Dot { name, .. }) => Suffix::Index(Index::Dot { name: token(name) }),
        other => return Err(format!("unsupported suffix `{}`", other)),
    })
}

fn args(a: &ast::FunctionArgs) -> Result<FunctionArgs, String> {
    Ok(match a {
        ast::FunctionArgs::Parentheses { parentheses, arguments } => FunctionArgs::Parentheses {
            open: position(parentheses.tokens().0),
            arguments: expressions(arguments)?,
        },
        ast::FunctionArgs::String(t) => FunctionArgs::String(token(t)),
        ast::FunctionArgs::TableConstructor(t) => FunctionArgs::TableConstructor(table(t)?),
        other => return Err(format!("unsupported call arguments `{}`", other)),
    })
}

fn table(t: &ast::TableConstructor) -> Result<TableConstructor, String> {
    Ok(TableConstructor {
        open: position(t.braces().tokens().0),
        fields: t.fields().iter().map(field).collect::<Result<_, _>>()?,
    })
}

fn field(f: &ast::Field) -> Result<Field, String> {
    Ok(match f {
        ast::Field::ExpressionKey { key, value, .. } => Field::ExpressionKey {
            key: expression(key)?,
            key_source: key.to_string(),
            value: expression(value)?,
        },
        ast::Field::NameKey { key, value, .. } => Field::NameKey { name: token(key), value: expression(value)? },
        ast::Field::NoKey(v) => Field::NoKey(expression(v)?),
        other => return Err(format!("unsupported table field `{}`", other)),
    })
}

fn call(c: &ast::FunctionCall) -> Result<FunctionCall, String> {
    Ok(FunctionCall {
        prefix: prefix(c.prefix())?,
        suffixes: c.suffixes().map(suffix).collect::<Result<_, _>>()?,
    })
}

#[derive(Debug, Eq, PartialEq)]
struct Function {
    start: usize,
    end: usize,
    name: Option<String>,
}

fn named(name: &str, start: usize, end: usize) -> Function {
    Function { start, end, name: Some(name.to_string()) }
}

fn unnamed(start: usize, end: usize) -> Function {
    Function { start, end, name: None }
}

fn tree(code: &str) -> Block {
    let parsed = full_moon::parse(code).unwrap();
    block(parsed.nodes()).unwrap()
}

fn walk(code: &str) -> Result<Vec<Function>, WalkError> {
    let mut function_spans: Vec<FunctionSpan> = Vec::new();
    gather_function_line_spans(&tree(code), &mut function_spans)?;
    Ok(function_spans
        .iter()
        .map(|span| Function { start: span.start, end: span.end, name: span.display_name() })
        .collect())
}

fn check_result(code: &str, expected: &[Function]) {
    let functions = walk(code).unwrap();
    assert_eq!(&functions[..], expected);
}

#[test]
fn top_level_functions() {
    check_result(
        "local function first_do() end
        function then_do() end",
        &[named("first_do", 1, 1), named("then_do", 2, 2)],
    );
}

#[test]
fn local_function_in_local_function() {
    check_result(
        "local function add(y)
            local function inner()
            end
            return x + y
        end",
        &[named("add", 1, 5), named("inner", 2, 3)],
    );
}

#[test]
fn function_with_fields_in_function_with_fields() {
    check_result(
        "function x.y:z()
            function a.b.c()
                local var = const;
            end
        end",
        &[named("x.y:z", 1, 5), named("a.b.c", 2, 4)],
    );
}

#[test]
fn spread_out_method_or_function_calls_are_compacted() {
    check_result(
        "function
        
        very
        .
        spread
        :
        out()
        end
        
        function
        
            very
                .
                    indented
                        ()
                    end",
        &[named("very.spread:out", 1, 8), named("very.indented", 10, 16)],
    );
}

#[test]
fn anonymous_function_in_local_variable() {
    check_result(
        "local compact = function()
        local body = false
    end
    local
    spread
    =
    function()
        function inner()
            hello_world()
        end
    end
    
    local parenthesized = (((function() end)))",
        &[
            named("compact", 1, 3),
            named("spread", 7, 11),
            named("inner", 8, 10),
            named("parenthesized", 13, 13),
        ],
    );
}

#[test]
fn anonymous_function_in_variable() {
    check_result(
        "global =
    
    function()
        function inner()
            hello_world()
        end
    end",
        &[named("global", 3, 7), named("inner", 4, 6)],
    );
}

#[test]
fn anonymous_function_in_field() {
    check_result(
        r#"x.y = function()
        local field = true
    end
    
    x
        [
            "y"
        ]
        =
        function()
        end
    
    t[1] = function() end
    t[true] = function() end"#,
        &[
            named("x.y", 1, 3),
            named(r#"x["y"]"#, 10, 11),
            named("t[1]", 13, 13),
            named("t[true]", 14, 14),
        ],
    );
}

#[test]
fn anonymous_functions_binopped() {
    check_result(
        "_ = (function()

    end) + (function()
    
    end)
    
    local _ = (function()

    end) - (function()
    
    end)",
        &[unnamed(1, 3), unnamed(3, 5), unnamed(7, 9), unnamed(9, 11)],
    );
}

#[test]
fn anonymous_functions_unopped() {
    check_result(
        "local _ = -function()

    end
    
    _ = #function()

    end",
        &[unnamed(1, 3), unnamed(5, 7)],
    );
}

#[test]
fn anonymous_function_in_assignment_without_variable() {
    check_result(
        "local x, y = 1, 2,
    function()
    end
    
    x, y = 1, 2,
    function()
    end",
        &[unnamed(2, 3), unnamed(6, 7)],
    );
}

// A positional entry of a table literal is named by its position, for a
// global assignment as for a local one; each span runs from the line of its
// `function` keyword to the line of its `end`.
#[test]
fn function_in_table_literal() {
    check_result(
        r#"t = {
        function()
        end,
        get = function()
        end
    }
    
    local mt = {
        function()
        end,
        __newindex = function(self, k, v)
            rawset(self, k, v)
        end,
        __index = {
            get = function(self, k)
            end,
            ["set"] = function(self, k, v)
            end,
        },
    }
    
    ({ "value", get = function(self, k) return rawget(self, k) end }):get(1)"#,
        &[
            named("t[1]", 2, 3),
            named("t.get", 4, 5),
            named("mt[1]", 9, 10),
            named("mt.__newindex", 11, 13),
            named("mt.__index.get", 15, 16),
            named(r#"mt.__index["set"]"#, 17, 18),
            named("?.get", 22, 22),
        ],
    );
}

#[test]
fn function_in_function_arguments() {
    check_result(
        "local _ = call(
        function()
            do_something(function()
            end)
        end
    )
    
    result = use_function(function()
    end)",
        &[unnamed(2, 5), unnamed(3, 4), unnamed(8, 9)],
    );
}

// A table passed as call arguments is walked as a table with no name of its
// own: its fields still contribute their keys.
#[test]
fn function_in_table_constructor_as_function_argument() {
    check_result(
        r#"local _ = call {
        function()
            do_something(function()
            end)
        end,
        identifier = function()
        end,
        ["string"] = function()
        end,
    }
    
    result = use_function{function()
    end}
    
    use_function{function()
    end}"#,
        &[
            named("?[1]", 2, 5),
            unnamed(3, 4),
            named("?.identifier", 6, 7),
            named(r#"?["string"]"#, 8, 9),
            named("?[1]", 12, 13),
            named("?[1]", 15, 16),
        ],
    );
}

fn index_of(code: &str) -> SpanIndex {
    SpanIndex::from_block(&tree(code)).unwrap()
}

fn plain_token(kind: TokenKind, text: &str, line: usize, column: usize) -> Token {
    Token { kind, text: text.to_string(), position: Position { line, column } }
}

fn anonymous_function_value(line: usize) -> Expression {
    Expression::Value(Box::new(Value::Function {
        keyword: Position { line, column: 1 },
        body: FunctionBody { block: Block { stmts: Vec::new() }, end_line: line },
    }))
}

#[test]
fn two_top_level_functions_one_per_line() {
    check_result(
        "local function first_do() end\nfunction then_do() end",
        &[named("first_do", 1, 1), named("then_do", 2, 2)],
    );
}

#[test]
fn nested_local_function_spans_its_own_lines() {
    check_result(
        "local function add(y)\n  local function inner()\n  end\n  return x + y\nend",
        &[named("add", 1, 5), named("inner", 2, 3)],
    );
}

#[test]
fn method_and_dotted_declarations() {
    check_result(
        "function x.y:z()\n  function a.b.c()\n  end\nend",
        &[named("x.y:z", 1, 4), named("a.b.c", 2, 3)],
    );
}

#[test]
fn bracket_and_name_keys_in_field_order() {
    check_result(
        "t = { [1] = function() end, get = function() end }",
        &[named("t[1]", 1, 1), named("t.get", 1, 1)],
    );
}

#[test]
fn operands_of_a_binary_operator_have_no_name() {
    check_result("_ = (function() end) + (function() end)", &[unnamed(1, 1), unnamed(1, 1)]);
}

#[test]
fn query_finds_innermost_function() {
    let index = index_of("local function add(y)\n  local function inner()\n  end\n  return x + y\nend");
    assert_eq!(index.len(), 2);
    assert_eq!(index.enclosing_function_name(3), Some("inner"));
    assert_eq!(index.enclosing_function_name(2), Some("inner"));
    assert_eq!(index.enclosing_function_name(4), Some("add"));
    assert_eq!(index.enclosing_function_name(1), Some("add"));
    assert_eq!(index.enclosing_function_name(10), None);
    assert_eq!(index.enclosing_function_name(0), None);
}

#[test]
fn query_on_one_line_prefers_the_nested_function() {
    let index = index_of("local f = function() local g = function() end end\nlocal h = 1");
    assert_eq!(index.enclosing_function_name(1), Some("g"));
    assert_eq!(index.enclosing_function_name(2), None);
}

#[test]
fn query_names_an_anonymous_function() {
    let index = index_of("call(function()\nx = 1\nend)");
    assert_eq!(index.enclosing_function_name(2), Some("?"));
}

#[test]
fn walking_twice_gives_the_same_spans() {
    let block = tree("local t = { a = function() end }\nfunction t.b() return function() end end");
    let mut first: Vec<FunctionSpan> = Vec::new();
    let mut second: Vec<FunctionSpan> = Vec::new();
    gather_function_line_spans(&block, &mut first).unwrap();
    gather_function_line_spans(&block, &mut second).unwrap();
    assert_eq!(first, second);
    assert_eq!(first.len(), 2);
}

#[test]
fn walking_appends_to_what_is_there() {
    let mut spans: Vec<FunctionSpan> = Vec::new();
    gather_function_line_spans(&tree("local function a() end"), &mut spans).unwrap();
    gather_function_line_spans(&tree("\nlocal function b() end"), &mut spans).unwrap();
    let found: Vec<(usize, usize, Option<String>)> =
        spans.iter().map(|s| (s.start, s.end, s.display_name())).collect();
    assert_eq!(found, vec![(1, 1, Some("a".to_string())), (2, 2, Some("b".to_string()))]);
}

#[test]
fn operator_hides_the_assigned_name() {
    check_result(
        "x = -function() end\ny = (function() end) .. \"s\"\nz = not { f = function() end }",
        &[unnamed(1, 1), unnamed(2, 2), named("?.f", 3, 3)],
    );
}

#[test]
fn nested_spans_lie_within_their_parent() {
    let functions = walk(
        "local function outer()\n  local t = {\n    f = function()\n    end,\n  }\n  do\n    local function g() end\n  end\nend",
    )
    .unwrap();
    assert_eq!(
        functions,
        vec![named("outer", 1, 9), named("t.f", 3, 4), named("g", 7, 7)]
    );
    for inner in &functions[1..] {
        assert!(functions[0].start <= inner.start && inner.end <= functions[0].end);
        assert!(inner.start <= inner.end);
    }
}

#[test]
fn functions_in_control_statement_bodies_are_found() {
    check_result(
        "if a then\n  f = function() end\nelseif b then\n  g = function() end\nelse\n  h = function() end\nend\nwhile c do local function w() end end\nfor i = 1, 2 do local function n() end end\nfor k, v in pairs(t) do local function p() end end\nrepeat local function r() end until d",
        &[
            named("f", 2, 2),
            named("g", 4, 4),
            named("h", 6, 6),
            named("w", 8, 8),
            named("n", 9, 9),
            named("p", 10, 10),
            named("r", 11, 11),
        ],
    );
}

#[test]
fn method_call_arguments_and_indexed_results_are_walked() {
    check_result(
        "obj:method(function() end)\nx = a.b(function() end).c\nf \"string\"",
        &[unnamed(1, 1), unnamed(2, 2)],
    );
}

#[test]
fn tenth_positional_entry_is_named_by_its_position() {
    check_result(
        "t = { 1, 2, 3, 4, 5, 6, 7, 8, 9, function() end, k = 0, function() end }",
        &[named("t[10]", 1, 1), named("t[11]", 1, 1)],
    );
}

#[test]
fn computed_key_is_walked_before_its_value() {
    check_result(
        "t = { [f(function() end)] = function() end, [a + b] = function() end }",
        &[unnamed(1, 1), named("t[f(function() end)]", 1, 1), named("t[a + b]", 1, 1)],
    );
}

#[test]
fn targets_without_values_are_not_resolved() {
    check_result("a, f().x = function() end", &[named("a", 1, 1)]);
}

#[test]
fn values_without_targets_have_no_name() {
    check_result("a = 1, function() end, function() end", &[unnamed(1, 1), unnamed(1, 1)]);
}

#[test]
fn call_in_an_assignment_target_fails() {
    let err = walk("local function ok() end\nf().x = function() end").unwrap_err();
    assert_eq!(err.kind, WalkErrorKind::UnexpectedCall);
    assert_eq!(err.position.line, 2);
}

#[test]
fn parenthesized_prefix_in_an_assignment_target_fails() {
    let err = walk("\n(a).b = function() end").unwrap_err();
    assert_eq!(err.kind, WalkErrorKind::ExpectedIdentifierPrefix);
    assert_eq!(err.position.line, 2);
}

#[test]
fn non_identifier_function_name_fails() {
    let block = Block {
        stmts: vec![Stmt::LocalFunction {
            start_line: 4,
            name: plain_token(TokenKind::Other, "1", 4, 16),
            body: FunctionBody { block: Block { stmts: Vec::new() }, end_line: 5 },
        }],
    };
    let mut spans: Vec<FunctionSpan> = Vec::new();
    let err = gather_function_line_spans(&block, &mut spans).unwrap_err();
    assert_eq!(
        err,
        WalkError { kind: WalkErrorKind::NotAnIdentifier, position: Position { line: 4, column: 16 } }
    );
}

#[test]
fn non_identifier_dot_index_in_a_target_fails() {
    let target = Var::Expression(VarExpression {
        prefix: Prefix::Name(plain_token(TokenKind::Identifier, "x", 3, 1)),
        suffixes: vec![Suffix::Index(Index::Dot { name: plain_token(TokenKind::Other, "2", 3, 3) })],
    });
    let block = Block {
        stmts: vec![Stmt::Assignment { targets: vec![target], values: vec![anonymous_function_value(3)] }],
    };
    let mut spans: Vec<FunctionSpan> = Vec::new();
    let err = gather_function_line_spans(&block, &mut spans).unwrap_err();
    assert_eq!(
        err,
        WalkError { kind: WalkErrorKind::ExpectedIdentifierSuffix, position: Position { line: 3, column: 3 } }
    );
}

#[test]
fn non_identifier_table_key_fails() {
    let table = TableConstructor {
        open: Position { line: 1, column: 5 },
        fields: vec![Field::NameKey { name: plain_token(TokenKind::Other, "+", 1, 7), value: anonymous_function_value(1) }],
    };
    let call = FunctionCall {
        prefix: Prefix::Name(plain_token(TokenKind::Identifier, "f", 1, 1)),
        suffixes: vec![Suffix::Call(Call::AnonymousCall(FunctionArgs::TableConstructor(table)))],
    };
    let block = Block { stmts: vec![Stmt::FunctionCall(call)] };
    let mut spans: Vec<FunctionSpan> = Vec::new();
    let err = gather_function_line_spans(&block, &mut spans).unwrap_err();
    assert_eq!(err.kind, WalkErrorKind::NotAnIdentifier);
    assert_eq!(err.position, Position { line: 1, column: 7 });
}

#[test]
fn failed_walk_gives_no_index() {
    assert!(SpanIndex::from_block(&tree("local function a() end\nf().x = 1")).is_err());
}

#[test]
fn declaration_name_with_method_renders_every_part() {
    let block = Block {
        stmts: vec![Stmt::FunctionDeclaration {
            start_line: 1,
            function_name: FunctionName {
                first: plain_token(TokenKind::Identifier, "a", 1, 10),
                rest: vec![plain_token(TokenKind::Identifier, "b", 1, 12)],
                method: Some(plain_token(TokenKind::Identifier, "c", 1, 14)),
            },
            body: FunctionBody { block: Block { stmts: Vec::new() }, end_line: 2 },
        }],
    };
    let mut spans: Vec<FunctionSpan> = Vec::new();
    gather_function_line_spans(&block, &mut spans).unwrap();
    assert_eq!(spans[0].name.render(), "a.b:c");
    assert!(!spans[0].name.is_anonymous());
}

#[test]
fn decimal_strings() {
    assert_eq!(decimal_string(0), "0");
    assert_eq!(decimal_string(7), "7");
    assert_eq!(decimal_string(10), "10");
    assert_eq!(decimal_string(1234), "1234");
}

#[test]
fn first_position_of_expressions() {
    let e = Expression::Parentheses {
        open: Position { line: 2, column: 3 },
        inner: Box::new(anonymous_function_value(2)),
    };
    assert_eq!(e.first_position(), Position { line: 2, column: 3 });
    assert_eq!(anonymous_function_value(5).first_position(), Position { line: 5, column: 1 });
}
