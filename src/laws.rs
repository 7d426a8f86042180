//! What holds of every walk: span lines nest as the functions do, a walk
//! depends on the tree alone, and an operator's operands are never named.
use vstd::prelude::*;
use crate::names::{anonymous_view, NameView, WalkError};
use crate::syntax::{Block, Call, Expression, Field, FunctionArgs, FunctionCall, Prefix, Stmt, Suffix, Value, Var};
use crate::walk::{
    args_spans, arguments_spans, assignment_spans, block_spans, blocks_spans, call_spans,
    expression_spans, fields_spans, function_spans, last_field_spans, lemma_useful_spans,
    prefix_spans, spans_view, stmt_spans, stmts_spans, suffixes_spans, useful_of, value_spans,
    walk_outcome, AssignmentTargets, FunctionSpan, SpanView, WalkResult,
};

verus! {

/// Every span starts no later than it ends, and lies within lines `lo..=hi`.
pub open spec fn spans_within(s: Seq<SpanView>, lo: int, hi: int) -> bool {
    forall|k: int|
        0 <= k < s.len() ==> lo <= (#[trigger] s[k]).start && s[k].start <= s[k].end && s[k].end
            <= hi
}

/// The walk succeeded and its spans lie within `lo..=hi`.
pub open spec fn walked_within(w: WalkResult, lo: int, hi: int) -> bool {
    w matches Ok(s) && spans_within(s, lo, hi)
}

/// A function whose lines run from `start` to `end` lies within `lo..=hi`,
/// and so does, within its own lines, every function in its body. A tree
/// that a parser builds from source has this shape.
pub open spec fn function_within(start: usize, end: usize, body: Block, lo: int, hi: int) -> bool
    decreases body, 1nat,
{
    lo <= start && start <= end && end <= hi && block_within(body, start as int, end as int)
}

pub open spec fn block_within(b: Block, lo: int, hi: int) -> bool
    decreases b, 0nat,
{
    stmts_within(b.stmts@, lo, hi)
}

pub open spec fn stmts_within(s: Seq<Stmt>, lo: int, hi: int) -> bool
    decreases s, 0nat,
{
    s.len() == 0 || (stmts_within(s.subrange(0, s.len() - 1), lo, hi) && stmt_within(
        s[s.len() - 1],
        lo,
        hi,
    ))
}

pub open spec fn blocks_within(s: Seq<Block>, lo: int, hi: int) -> bool
    decreases s, 0nat,
{
    s.len() == 0 || (blocks_within(s.subrange(0, s.len() - 1), lo, hi) && block_within(
        s[s.len() - 1],
        lo,
        hi,
    ))
}

pub open spec fn stmt_within(st: Stmt, lo: int, hi: int) -> bool
    decreases st, 0nat,
{
    match st {
        Stmt::LocalFunction { start_line, body, .. } => function_within(
            start_line,
            body.end_line,
            body.block,
            lo,
            hi,
        ),
        Stmt::FunctionDeclaration { start_line, body, .. } => function_within(
            start_line,
            body.end_line,
            body.block,
            lo,
            hi,
        ),
        Stmt::Assignment { values, .. } => expressions_within(values@, lo, hi),
        Stmt::LocalAssignment { values, .. } => expressions_within(values@, lo, hi),
        Stmt::FunctionCall(call) => call_within(call, lo, hi),
        Stmt::Do(b) => block_within(b, lo, hi),
        Stmt::While(b) => block_within(b, lo, hi),
        Stmt::Repeat(b) => block_within(b, lo, hi),
        Stmt::NumericFor(b) => block_within(b, lo, hi),
        Stmt::GenericFor(b) => block_within(b, lo, hi),
        Stmt::If { then_block, else_if_blocks, else_block } => block_within(then_block, lo, hi)
            && blocks_within(else_if_blocks@, lo, hi) && match else_block {
            None => true,
            Some(b) => block_within(b, lo, hi),
        },
    }
}

pub open spec fn expressions_within(s: Seq<Expression>, lo: int, hi: int) -> bool
    decreases s, 0nat,
{
    s.len() == 0 || (expressions_within(s.subrange(0, s.len() - 1), lo, hi) && expression_within(
        s[s.len() - 1],
        lo,
        hi,
    ))
}

pub open spec fn expression_within(e: Expression, lo: int, hi: int) -> bool
    decreases e, 0nat,
{
    match e {
        Expression::Parentheses { inner, .. } => expression_within(*inner, lo, hi),
        Expression::UnaryOperator { operand, .. } => expression_within(*operand, lo, hi),
        Expression::BinaryOperator { lhs, rhs, .. } => value_within(*lhs, lo, hi)
            && expression_within(*rhs, lo, hi),
        Expression::Value(v) => value_within(*v, lo, hi),
    }
}

pub open spec fn value_within(v: Value, lo: int, hi: int) -> bool
    decreases v, 0nat,
{
    match v {
        Value::Function { keyword, body } => function_within(
            keyword.line,
            body.end_line,
            body.block,
            lo,
            hi,
        ),
        Value::ParseExpression(e) => expression_within(*e, lo, hi),
        Value::FunctionCall(call) => call_within(call, lo, hi),
        Value::TableConstructor(table) => fields_within(table.fields@, lo, hi),
        Value::Var(Var::Expression(var)) => suffixes_within(var.suffixes@, lo, hi),
        Value::Var(Var::Name(_)) => true,
        Value::Literal(_) => true,
    }
}

pub open spec fn call_within(c: FunctionCall, lo: int, hi: int) -> bool
    decreases c, 0nat,
{
    prefix_within(c.prefix, lo, hi) && suffixes_within(c.suffixes@, lo, hi)
}

pub open spec fn prefix_within(p: Prefix, lo: int, hi: int) -> bool
    decreases p, 0nat,
{
    match p {
        Prefix::Expression(e) => expression_within(*e, lo, hi),
        Prefix::Name(_) => true,
    }
}

pub open spec fn suffixes_within(s: Seq<Suffix>, lo: int, hi: int) -> bool
    decreases s, 0nat,
{
    s.len() == 0 || (suffixes_within(s.subrange(0, s.len() - 1), lo, hi) && match s[s.len() - 1] {
        Suffix::Call(Call::AnonymousCall(args)) => args_within(args, lo, hi),
        Suffix::Call(Call::MethodCall { args, .. }) => args_within(args, lo, hi),
        Suffix::Index(_) => true,
    })
}

pub open spec fn args_within(a: FunctionArgs, lo: int, hi: int) -> bool
    decreases a, 0nat,
{
    match a {
        FunctionArgs::Parentheses { arguments, .. } => expressions_within(arguments@, lo, hi),
        FunctionArgs::String(_) => true,
        FunctionArgs::TableConstructor(table) => fields_within(table.fields@, lo, hi),
    }
}

pub open spec fn fields_within(s: Seq<Field>, lo: int, hi: int) -> bool
    decreases s, 0nat,
{
    s.len() == 0 || (fields_within(s.subrange(0, s.len() - 1), lo, hi) && match s[s.len() - 1] {
        Field::ExpressionKey { key, value, .. } => expression_within(key, lo, hi)
            && expression_within(value, lo, hi),
        Field::NameKey { value, .. } => expression_within(value, lo, hi),
        Field::NoKey(value) => expression_within(value, lo, hi),
    })
}

proof fn lemma_sequenced_within(a: WalkResult, b: WalkResult, lo: int, hi: int)
    requires
        a is Ok ==> walked_within(a, lo, hi),
        (a is Ok && b is Ok) ==> walked_within(b, lo, hi),
        crate::walk::sequenced(a, b) is Ok,
    ensures
        walked_within(crate::walk::sequenced(a, b), lo, hi),
{
    let x = a->Ok_0;
    let y = b->Ok_0;
    assert forall|k: int| 0 <= k < (x + y).len() implies lo <= (#[trigger] (x + y)[k]).start
        && (x + y)[k].start <= (x + y)[k].end && (x + y)[k].end <= hi by {
        if k < x.len() {
            assert((x + y)[k] == x[k]);
        } else {
            assert((x + y)[k] == y[k - x.len()]);
        }
    }
}

proof fn lemma_function_within(start: usize, end: usize, name: NameView, body: Block, lo: int, hi: int)
    requires
        function_within(start, end, body, lo, hi),
        function_spans(start, end, name, body) is Ok,
    ensures
        walked_within(function_spans(start, end, name, body), lo, hi),
    decreases body, 1nat,
{
    lemma_block_within(body, start as int, end as int);
    let own = seq![SpanView { start, end, name }];
    let inner = block_spans(body)->Ok_0;
    assert(spans_within(inner, lo, hi));
    lemma_sequenced_within(Ok::<Seq<SpanView>, WalkError>(own), block_spans(body), lo, hi);
}

proof fn lemma_block_within(b: Block, lo: int, hi: int)
    requires
        block_within(b, lo, hi),
        block_spans(b) is Ok,
    ensures
        walked_within(block_spans(b), lo, hi),
    decreases b, 0nat,
{
    lemma_stmts_within(b.stmts@, lo, hi);
}

proof fn lemma_stmts_within(s: Seq<Stmt>, lo: int, hi: int)
    requires
        stmts_within(s, lo, hi),
        stmts_spans(s) is Ok,
    ensures
        walked_within(stmts_spans(s), lo, hi),
    decreases s, 0nat,
{
    if s.len() == 0 {
    } else {
        let p = s.subrange(0, s.len() - 1);
        lemma_stmts_within(p, lo, hi);
        lemma_stmt_within(s[s.len() - 1], lo, hi);
        lemma_sequenced_within(stmts_spans(p), stmt_spans(s[s.len() - 1]), lo, hi);
    }
}

proof fn lemma_blocks_within(s: Seq<Block>, lo: int, hi: int)
    requires
        blocks_within(s, lo, hi),
        blocks_spans(s) is Ok,
    ensures
        walked_within(blocks_spans(s), lo, hi),
    decreases s, 0nat,
{
    if s.len() == 0 {
    } else {
        let p = s.subrange(0, s.len() - 1);
        lemma_blocks_within(p, lo, hi);
        lemma_block_within(s[s.len() - 1], lo, hi);
        lemma_sequenced_within(blocks_spans(p), block_spans(s[s.len() - 1]), lo, hi);
    }
}

proof fn lemma_stmt_within(st: Stmt, lo: int, hi: int)
    requires
        stmt_within(st, lo, hi),
        stmt_spans(st) is Ok,
    ensures
        walked_within(stmt_spans(st), lo, hi),
    decreases st, 0nat,
{
    match st {
        Stmt::LocalFunction { start_line, name, body } => {
            let n = crate::names::single_view(crate::names::token_segment(name)->Ok_0);
            lemma_function_within(start_line, body.end_line, n, body.block, lo, hi);
        },
        Stmt::FunctionDeclaration { start_line, function_name, body } => {
            let n = crate::names::function_name_view(function_name)->Ok_0;
            lemma_function_within(start_line, body.end_line, n, body.block, lo, hi);
        },
        Stmt::Assignment { targets, values } => {
            lemma_assignment_within(AssignmentTargets::Vars(&targets), values@, lo, hi);
        },
        Stmt::LocalAssignment { names, values } => {
            lemma_assignment_within(AssignmentTargets::Names(&names), values@, lo, hi);
        },
        Stmt::FunctionCall(call) => lemma_call_within(call, lo, hi),
        Stmt::Do(b) => lemma_block_within(b, lo, hi),
        Stmt::While(b) => lemma_block_within(b, lo, hi),
        Stmt::Repeat(b) => lemma_block_within(b, lo, hi),
        Stmt::NumericFor(b) => lemma_block_within(b, lo, hi),
        Stmt::GenericFor(b) => lemma_block_within(b, lo, hi),
        Stmt::If { then_block, else_if_blocks, else_block } => {
            lemma_block_within(then_block, lo, hi);
            lemma_blocks_within(else_if_blocks@, lo, hi);
            let first = crate::walk::sequenced(block_spans(then_block), blocks_spans(else_if_blocks@));
            lemma_sequenced_within(block_spans(then_block), blocks_spans(else_if_blocks@), lo, hi);
            match else_block {
                None => {
                    lemma_sequenced_within(first, crate::walk::no_spans(), lo, hi);
                },
                Some(b) => {
                    lemma_block_within(b, lo, hi);
                    lemma_sequenced_within(first, block_spans(b), lo, hi);
                },
            }
        },
    }
}

proof fn lemma_assignment_within(t: AssignmentTargets, s: Seq<Expression>, lo: int, hi: int)
    requires
        expressions_within(s, lo, hi),
        assignment_spans(t, s) is Ok,
    ensures
        walked_within(assignment_spans(t, s), lo, hi),
    decreases s, 0nat,
{
    if s.len() > 0 {
        let k = s.len() - 1;
        let p = s.subrange(0, k);
        lemma_assignment_within(t, p, lo, hi);
        let n = if k < crate::walk::targets_len(t) {
            crate::walk::target_name(t, k)->Ok_0
        } else {
            anonymous_view()
        };
        lemma_expression_within(n, s[k], lo, hi);
        let last = if k < crate::walk::targets_len(t) {
            match crate::walk::target_name(t, k) {
                Err(e) => Err(e),
                Ok(n) => expression_spans(n, s[k]),
            }
        } else {
            expression_spans(anonymous_view(), s[k])
        };
        lemma_sequenced_within(assignment_spans(t, p), last, lo, hi);
    }
}

proof fn lemma_expressions_within_arguments(s: Seq<Expression>, lo: int, hi: int)
    requires
        expressions_within(s, lo, hi),
        arguments_spans(s) is Ok,
    ensures
        walked_within(arguments_spans(s), lo, hi),
    decreases s, 0nat,
{
    if s.len() > 0 {
        let p = s.subrange(0, s.len() - 1);
        lemma_expressions_within_arguments(p, lo, hi);
        lemma_expression_within(anonymous_view(), s[s.len() - 1], lo, hi);
        lemma_sequenced_within(
            arguments_spans(p),
            expression_spans(anonymous_view(), s[s.len() - 1]),
            lo,
            hi,
        );
    }
}

proof fn lemma_expression_within(name: NameView, e: Expression, lo: int, hi: int)
    requires
        expression_within(e, lo, hi),
        expression_spans(name, e) is Ok,
    ensures
        walked_within(expression_spans(name, e), lo, hi),
    decreases e, 0nat,
{
    match e {
        Expression::Parentheses { inner, .. } => lemma_expression_within(name, *inner, lo, hi),
        Expression::UnaryOperator { operand, .. } => lemma_expression_within(
            anonymous_view(),
            *operand,
            lo,
            hi,
        ),
        Expression::BinaryOperator { lhs, rhs, .. } => {
            lemma_value_within(anonymous_view(), *lhs, lo, hi);
            lemma_expression_within(anonymous_view(), *rhs, lo, hi);
            lemma_sequenced_within(
                value_spans(anonymous_view(), *lhs),
                expression_spans(anonymous_view(), *rhs),
                lo,
                hi,
            );
        },
        Expression::Value(v) => lemma_value_within(name, *v, lo, hi),
    }
}

proof fn lemma_value_within(name: NameView, v: Value, lo: int, hi: int)
    requires
        value_within(v, lo, hi),
        value_spans(name, v) is Ok,
    ensures
        walked_within(value_spans(name, v), lo, hi),
    decreases v, 0nat,
{
    match v {
        Value::Function { keyword, body } => lemma_function_within(
            keyword.line,
            body.end_line,
            name,
            body.block,
            lo,
            hi,
        ),
        Value::ParseExpression(e) => lemma_expression_within(name, *e, lo, hi),
        Value::FunctionCall(call) => lemma_call_within(call, lo, hi),
        Value::TableConstructor(table) => lemma_fields_within(name, table.fields@, lo, hi),
        Value::Var(Var::Expression(var)) => lemma_suffixes_within(var.suffixes@, lo, hi),
        Value::Var(Var::Name(_)) => {},
        Value::Literal(_) => {},
    }
}

proof fn lemma_call_within(c: FunctionCall, lo: int, hi: int)
    requires
        call_within(c, lo, hi),
        call_spans(c) is Ok,
    ensures
        walked_within(call_spans(c), lo, hi),
    decreases c, 0nat,
{
    match c.prefix {
        Prefix::Expression(e) => lemma_expression_within(anonymous_view(), *e, lo, hi),
        Prefix::Name(_) => {},
    }
    lemma_suffixes_within(c.suffixes@, lo, hi);
    lemma_sequenced_within(prefix_spans(c.prefix), suffixes_spans(c.suffixes@), lo, hi);
}

proof fn lemma_suffixes_within(s: Seq<Suffix>, lo: int, hi: int)
    requires
        suffixes_within(s, lo, hi),
        suffixes_spans(s) is Ok,
    ensures
        walked_within(suffixes_spans(s), lo, hi),
    decreases s, 0nat,
{
    if s.len() > 0 {
        let p = s.subrange(0, s.len() - 1);
        lemma_suffixes_within(p, lo, hi);
        let last = match s[s.len() - 1] {
            Suffix::Call(Call::AnonymousCall(args)) => {
                lemma_args_within(args, lo, hi);
                args_spans(args)
            },
            Suffix::Call(Call::MethodCall { args, .. }) => {
                lemma_args_within(args, lo, hi);
                args_spans(args)
            },
            Suffix::Index(_) => crate::walk::no_spans(),
        };
        lemma_sequenced_within(suffixes_spans(p), last, lo, hi);
    }
}

proof fn lemma_args_within(a: FunctionArgs, lo: int, hi: int)
    requires
        args_within(a, lo, hi),
        args_spans(a) is Ok,
    ensures
        walked_within(args_spans(a), lo, hi),
    decreases a, 0nat,
{
    match a {
        FunctionArgs::Parentheses { arguments, .. } => lemma_expressions_within_arguments(
            arguments@,
            lo,
            hi,
        ),
        FunctionArgs::String(_) => {},
        FunctionArgs::TableConstructor(table) => lemma_fields_within(
            anonymous_view(),
            table.fields@,
            lo,
            hi,
        ),
    }
}

proof fn lemma_fields_within(name: NameView, s: Seq<Field>, lo: int, hi: int)
    requires
        fields_within(s, lo, hi),
        fields_spans(name, s) is Ok,
    ensures
        walked_within(fields_spans(name, s), lo, hi),
    decreases s, 1nat,
{
    if s.len() > 0 {
        let p = s.subrange(0, s.len() - 1);
        lemma_fields_within(name, p, lo, hi);
        lemma_last_field_within(name, s, lo, hi);
        lemma_sequenced_within(fields_spans(name, p), last_field_spans(name, s), lo, hi);
    }
}

proof fn lemma_last_field_within(name: NameView, s: Seq<Field>, lo: int, hi: int)
    requires
        s.len() > 0,
        fields_within(s, lo, hi),
        last_field_spans(name, s) is Ok,
    ensures
        walked_within(last_field_spans(name, s), lo, hi),
    decreases s, 0nat,
{
    match s[s.len() - 1] {
        Field::ExpressionKey { key, key_source, value } => {
            let n = crate::names::pushed_view(
                name,
                crate::names::SegmentView::Expression(
                    crate::names::expression_text(key, key_source@),
                ),
            );
            lemma_expression_within(anonymous_view(), key, lo, hi);
            lemma_expression_within(n, value, lo, hi);
            lemma_sequenced_within(
                expression_spans(anonymous_view(), key),
                expression_spans(n, value),
                lo,
                hi,
            );
        },
        Field::NameKey { name: key, value } => {
            let n = crate::names::pushed_view(name, crate::names::token_segment(key)->Ok_0);
            lemma_expression_within(n, value, lo, hi);
        },
        Field::NoKey(value) => {
            let n = crate::names::pushed_view(
                name,
                crate::names::SegmentView::Expression(
                    crate::names::decimal(crate::walk::positional_count(s)),
                ),
            );
            lemma_expression_within(n, value, lo, hi);
        },
    }
}

/// Every span that a walk finds starts no later than it ends: its start
/// and end are the lines of the function's keyword and of its `end`, and a
/// parsed tree has each function's lines in order.
pub proof fn lemma_span_lines_in_order(b: Block, lo: int, hi: int)
    requires
        block_within(b, lo, hi),
    ensures
        block_spans(b) matches Ok(s) ==> forall|k: int|
            0 <= k < s.len() ==> (#[trigger] s[k]).start <= s[k].end,
{
    if block_spans(b) is Ok {
        lemma_block_within(b, lo, hi);
    }
}

/// A function's span comes first among the spans found while walking it,
/// and every span found inside its body comes after it and lies within its
/// lines.
pub proof fn lemma_nested_spans_follow_and_lie_within(
    start: usize,
    end: usize,
    name: NameView,
    body: Block,
)
    requires
        start <= end,
        block_within(body, start as int, end as int),
    ensures
        function_spans(start, end, name, body) matches Ok(s) ==> {
            &&& s[0] == (SpanView { start, end, name })
            &&& forall|k: int|
                1 <= k < s.len() ==> start <= (#[trigger] s[k]).start && s[k].end <= end
        },
{
    if function_spans(start, end, name, body) is Ok {
        lemma_block_within(body, start as int, end as int);
        let inner = block_spans(body)->Ok_0;
        let s = seq![SpanView { start, end, name }] + inner;
        assert forall|k: int| 1 <= k < s.len() implies start <= (#[trigger] s[k]).start && s[k].end
            <= end by {
            assert(s[k] == inner[k - 1]);
        }
    }
}

/// Two walks of the same tree end alike: the same error, or the same spans.
pub proof fn lemma_walk_is_repeatable(
    b: Block,
    r1: Result<(), WalkError>,
    after1: Seq<FunctionSpan>,
    r2: Result<(), WalkError>,
    after2: Seq<FunctionSpan>,
)
    requires
        walk_outcome(r1, block_spans(b), Seq::empty(), after1),
        walk_outcome(r2, block_spans(b), Seq::empty(), after2),
    ensures
        r1 is Ok <==> r2 is Ok,
        r1 is Err ==> r1 == r2,
        r1 is Ok ==> spans_view(after1) == spans_view(after2),
{
    if block_spans(b) is Ok {
        assert(spans_view(Seq::<FunctionSpan>::empty()) =~= Seq::<SpanView>::empty());
    }
}

/// The operand of a unary or binary operator is walked with no name: an
/// expression whose useful part is an operator gives the same spans whatever
/// name it is assigned to.
pub proof fn lemma_operands_get_no_name(name: NameView, e: Expression)
    requires
        useful_of(e) is UnaryOperator || useful_of(e) is BinaryOperator,
    ensures
        expression_spans(name, e) == expression_spans(anonymous_view(), e),
{
    lemma_useful_spans(name, e);
    lemma_useful_spans(anonymous_view(), e);
}

} // verus!
