//! The Lua syntax tree that the span walker reads.
//!
//! A parser builds it once per source file; the walker only reads it. Every
//! node keeps the source positions that the walker reports: the line of each
//! function's keyword and of its closing `end`, and the position of each token
//! that a name error can point at.
use vstd::prelude::*;

verus! {

/// Where a token starts in the source: 1-based line and column.
#[derive(Clone, Copy, Debug, PartialEq, Eq, Structural)]
pub struct Position {
    pub line: usize,
    pub column: usize,
}

/// Whether a token is lexically an identifier.
#[derive(Clone, Copy, Debug, PartialEq, Eq, Structural)]
pub enum TokenKind {
    Identifier,
    Other,
}

/// One token: its kind, its text without surrounding whitespace or comments,
/// and where it starts.
#[derive(Clone, Debug)]
pub struct Token {
    pub kind: TokenKind,
    pub text: String,
    pub position: Position,
}

/// A sequence of statements.
pub struct Block {
    pub stmts: Vec<Stmt>,
}

/// The parameters-and-body part of a function, up to its closing `end`.
pub struct FunctionBody {
    pub block: Block,
    /// Line of the `end` token that closes the function.
    pub end_line: usize,
}

/// The name of a `function a.b.c:d()` declaration: `first`, then each
/// dot-separated name of `rest`, then the optional method name.
pub struct FunctionName {
    pub first: Token,
    pub rest: Vec<Token>,
    pub method: Option<Token>,
}

pub enum Stmt {
    /// `local function name() ... end`; `start_line` is the line of `local`.
    LocalFunction { start_line: usize, name: Token, body: FunctionBody },
    /// `function a.b:c() ... end`; `start_line` is the line of `function`.
    FunctionDeclaration { start_line: usize, function_name: FunctionName, body: FunctionBody },
    /// `targets = values`
    Assignment { targets: Vec<Var>, values: Vec<Expression> },
    /// `local names = values`
    LocalAssignment { names: Vec<Token>, values: Vec<Expression> },
    /// A call standing as a statement.
    FunctionCall(FunctionCall),
    Do(Block),
    While(Block),
    Repeat(Block),
    NumericFor(Block),
    GenericFor(Block),
    If { then_block: Block, else_if_blocks: Vec<Block>, else_block: Option<Block> },
}

pub enum Expression {
    /// `( inner )`; `open` is the position of the opening parenthesis.
    Parentheses { open: Position, inner: Box<Expression> },
    /// `operator operand`, such as `-x`, `not x` or `#x`.
    UnaryOperator { operator: Token, operand: Box<Expression> },
    /// `lhs operator rhs`.
    BinaryOperator { lhs: Box<Value>, operator: Token, rhs: Box<Expression> },
    Value(Box<Value>),
}

pub enum Value {
    /// `function(...) ... end`; `keyword` is the position of `function`.
    Function { keyword: Position, body: FunctionBody },
    /// An expression standing where a value is expected.
    ParseExpression(Box<Expression>),
    FunctionCall(FunctionCall),
    TableConstructor(TableConstructor),
    Var(Var),
    /// A number, a string or a symbol such as `true` or `nil`.
    Literal(Token),
}

/// `prefix suffix*` where at least one suffix is a call.
pub struct FunctionCall {
    pub prefix: Prefix,
    pub suffixes: Vec<Suffix>,
}

pub enum Prefix {
    Name(Token),
    Expression(Box<Expression>),
}

pub enum Suffix {
    Call(Call),
    Index(Index),
}

pub enum Call {
    /// `(args)`, `"string"` or `{ table }` after a value.
    AnonymousCall(FunctionArgs),
    /// `:name(args)`
    MethodCall { name: Token, args: FunctionArgs },
}

pub enum FunctionArgs {
    /// `( arguments )`; `open` is the position of the opening parenthesis.
    Parentheses { open: Position, arguments: Vec<Expression> },
    String(Token),
    TableConstructor(TableConstructor),
}

pub enum Index {
    /// `[ expression ]`; `source` is the expression's own source text.
    Brackets { expression: Box<Expression>, source: String },
    /// `.name`
    Dot { name: Token },
}

/// `{ fields }`; `open` is the position of the opening brace.
pub struct TableConstructor {
    pub open: Position,
    pub fields: Vec<Field>,
}

pub enum Field {
    /// `[key] = value`; `key_source` is the key expression's own source text.
    ExpressionKey { key: Expression, key_source: String, value: Expression },
    /// `name = value`
    NameKey { name: Token, value: Expression },
    /// A positional entry.
    NoKey(Expression),
}

pub enum Var {
    Name(Token),
    Expression(VarExpression),
}

/// `prefix suffix*` ending in an index.
pub struct VarExpression {
    pub prefix: Prefix,
    pub suffixes: Vec<Suffix>,
}

/// Position of the first token of an expression.
pub open spec fn expression_first(e: Expression) -> Position
    decreases e,
{
    match e {
        Expression::Parentheses { open, .. } => open,
        Expression::UnaryOperator { operator, .. } => operator.position,
        Expression::BinaryOperator { lhs, .. } => value_first(*lhs),
        Expression::Value(v) => value_first(*v),
    }
}

/// Position of the first token of a value.
pub open spec fn value_first(v: Value) -> Position
    decreases v,
{
    match v {
        Value::Function { keyword, .. } => keyword,
        Value::ParseExpression(e) => expression_first(*e),
        Value::FunctionCall(call) => prefix_first(call.prefix),
        Value::TableConstructor(table) => table.open,
        Value::Var(Var::Name(name)) => name.position,
        Value::Var(Var::Expression(var)) => prefix_first(var.prefix),
        Value::Literal(token) => token.position,
    }
}

/// Position of the first token of a prefix.
pub open spec fn prefix_first(p: Prefix) -> Position
    decreases p,
{
    match p {
        Prefix::Name(name) => name.position,
        Prefix::Expression(e) => expression_first(*e),
    }
}

/// Position of the first token of call arguments.
pub open spec fn args_first(a: FunctionArgs) -> Position {
    match a {
        FunctionArgs::Parentheses { open, .. } => open,
        FunctionArgs::String(token) => token.position,
        FunctionArgs::TableConstructor(table) => table.open,
    }
}

/// Position of the token that a call is reported at: its arguments for a plain
/// call, its method name for a method call.
pub open spec fn call_first(c: Call) -> Position {
    match c {
        Call::AnonymousCall(args) => args_first(args),
        Call::MethodCall { name, .. } => name.position,
    }
}

impl Expression {
    pub fn first_position(&self) -> (r: Position)
        ensures
            r == expression_first(*self),
        decreases self,
    {
        match self {
            Expression::Parentheses { open, .. } => *open,
            Expression::UnaryOperator { operator, .. } => operator.position,
            Expression::BinaryOperator { lhs, .. } => lhs.first_position(),
            Expression::Value(v) => v.first_position(),
        }
    }
}

impl Value {
    pub fn first_position(&self) -> (r: Position)
        ensures
            r == value_first(*self),
        decreases self,
    {
        match self {
            Value::Function { keyword, .. } => *keyword,
            Value::ParseExpression(e) => e.first_position(),
            Value::FunctionCall(call) => call.prefix.first_position(),
            Value::TableConstructor(table) => table.open,
            Value::Var(Var::Name(name)) => name.position,
            Value::Var(Var::Expression(var)) => var.prefix.first_position(),
            Value::Literal(token) => token.position,
        }
    }
}

impl Prefix {
    pub fn first_position(&self) -> (r: Position)
        ensures
            r == prefix_first(*self),
        decreases self,
    {
        match self {
            Prefix::Name(name) => name.position,
            Prefix::Expression(e) => e.first_position(),
        }
    }
}

impl FunctionArgs {
    pub fn first_position(&self) -> (r: Position)
        ensures
            r == args_first(*self),
    {
        match self {
            FunctionArgs::Parentheses { open, .. } => *open,
            FunctionArgs::String(token) => token.position,
            FunctionArgs::TableConstructor(table) => table.open,
        }
    }
}

impl Call {
    pub fn first_position(&self) -> (r: Position)
        ensures
            r == call_first(*self),
    {
        match self {
            Call::AnonymousCall(args) => args.first_position(),
            Call::MethodCall { name, .. } => name.position,
        }
    }
}

} // verus!
