//! The span walker: finds every function in a syntax tree, names it, and
//! records the lines it spans.
//!
//! The walk is stated twice: as spec functions (`block_spans` and the
//! functions it calls), which say what spans a tree has, and as the executable
//! walk, whose contracts say that it appends exactly those spans, or fails with
//! exactly the error that the spec functions give.
use itertools::{EitherOrBoth, Itertools};
use vstd::prelude::*;
use crate::names::{
    anonymous_view, decimal, decimal_string, expression_segment_text, expression_text,
    function_name_view, pushed_view, single_view, token_segment, var_name_view,
    FunctionNameSegment, FunctionNameStack, NameView, SegmentView, WalkError,
};
use crate::syntax::{
    Block, Call, Expression, Field, FunctionArgs, FunctionBody, FunctionCall, Prefix, Stmt, Suffix,
    TableConstructor, Token, Value, Var,
};

verus! {

/// One function: the line of its `function` (or `local`) keyword, the line of
/// its closing `end`, and its name.
#[derive(Clone, Debug, PartialEq, Eq)]
pub struct FunctionSpan {
    pub start: usize,
    pub end: usize,
    pub name: FunctionNameStack,
}

/// What a [`FunctionSpan`] holds.
pub struct SpanView {
    pub start: usize,
    pub end: usize,
    pub name: NameView,
}

impl View for FunctionSpan {
    type V = SpanView;

    open spec fn view(&self) -> SpanView {
        SpanView { start: self.start, end: self.end, name: self.name@ }
    }
}

pub open spec fn spans_view(s: Seq<FunctionSpan>) -> Seq<SpanView> {
    s.map_values(|x: FunctionSpan| x@)
}

/// The spans found in a part of the tree, in the order they are found, or the
/// first error met.
pub type WalkResult = Result<Seq<SpanView>, WalkError>;

pub open spec fn no_spans() -> WalkResult {
    Ok(Seq::empty())
}

/// Two parts walked one after the other: the first error wins.
pub open spec fn sequenced(a: WalkResult, b: WalkResult) -> WalkResult {
    match a {
        Err(e) => Err(e),
        Ok(x) => match b {
            Err(e) => Err(e),
            Ok(y) => Ok(x + y),
        },
    }
}

/// A function's own span followed by those found in its body.
pub open spec fn function_spans(start: usize, end: usize, name: NameView, body: Block) -> WalkResult
    decreases body, 1nat,
{
    sequenced(Ok(seq![SpanView { start, end, name }]), block_spans(body))
}

pub open spec fn block_spans(b: Block) -> WalkResult
    decreases b, 0nat,
{
    stmts_spans(b.stmts@)
}

pub open spec fn stmts_spans(s: Seq<Stmt>) -> WalkResult
    decreases s, 0nat,
{
    if s.len() == 0 {
        no_spans()
    } else {
        sequenced(stmts_spans(s.subrange(0, s.len() - 1)), stmt_spans(s[s.len() - 1]))
    }
}

pub open spec fn blocks_spans(s: Seq<Block>) -> WalkResult
    decreases s, 0nat,
{
    if s.len() == 0 {
        no_spans()
    } else {
        sequenced(blocks_spans(s.subrange(0, s.len() - 1)), block_spans(s[s.len() - 1]))
    }
}

pub open spec fn stmt_spans(st: Stmt) -> WalkResult
    decreases st, 0nat,
{
    match st {
        Stmt::LocalFunction { start_line, name, body } => match token_segment(name) {
            Err(e) => Err(e),
            Ok(s) => function_spans(start_line, body.end_line, single_view(s), body.block),
        },
        Stmt::FunctionDeclaration { start_line, function_name, body } => match function_name_view(
            function_name,
        ) {
            Err(e) => Err(e),
            Ok(n) => function_spans(start_line, body.end_line, n, body.block),
        },
        Stmt::Assignment { targets, values } => assignment_spans(
            AssignmentTargets::Vars(&targets),
            values@,
        ),
        Stmt::LocalAssignment { names, values } => assignment_spans(
            AssignmentTargets::Names(&names),
            values@,
        ),
        Stmt::FunctionCall(call) => call_spans(call),
        Stmt::Do(b) => block_spans(b),
        Stmt::While(b) => block_spans(b),
        Stmt::Repeat(b) => block_spans(b),
        Stmt::NumericFor(b) => block_spans(b),
        Stmt::GenericFor(b) => block_spans(b),
        Stmt::If { then_block, else_if_blocks, else_block } => sequenced(
            sequenced(block_spans(then_block), blocks_spans(else_if_blocks@)),
            match else_block {
                None => no_spans(),
                Some(b) => block_spans(b),
            },
        ),
    }
}

/// The left-hand side of an assignment.
pub enum AssignmentTargets<'a> {
    Vars(&'a Vec<Var>),
    Names(&'a Vec<Token>),
}

pub open spec fn targets_len(t: AssignmentTargets) -> int {
    match t {
        AssignmentTargets::Vars(v) => v@.len() as int,
        AssignmentTargets::Names(n) => n@.len() as int,
    }
}

/// The name that target `k` gives the value assigned to it.
pub open spec fn target_name(t: AssignmentTargets, k: int) -> Result<NameView, WalkError> {
    match t {
        AssignmentTargets::Vars(v) => var_name_view(v@[k]),
        AssignmentTargets::Names(n) => match token_segment(n@[k]) {
            Err(e) => Err(e),
            Ok(s) => Ok(single_view(s)),
        },
    }
}

/// Each value walked under the name of the target at its position; values
/// past the last target are anonymous, and targets past the last value are
/// never resolved.
pub open spec fn assignment_spans(t: AssignmentTargets, values: Seq<Expression>) -> WalkResult
    decreases values, 0nat,
{
    if values.len() == 0 {
        no_spans()
    } else {
        let k = values.len() - 1;
        sequenced(
            assignment_spans(t, values.subrange(0, k)),
            if k < targets_len(t) {
                match target_name(t, k) {
                    Err(e) => Err(e),
                    Ok(n) => expression_spans(n, values[k]),
                }
            } else {
                expression_spans(anonymous_view(), values[k])
            },
        )
    }
}

pub open spec fn expression_spans(name: NameView, e: Expression) -> WalkResult
    decreases e, 0nat,
{
    match e {
        Expression::Parentheses { inner, .. } => expression_spans(name, *inner),
        Expression::UnaryOperator { operand, .. } => expression_spans(anonymous_view(), *operand),
        Expression::BinaryOperator { lhs, rhs, .. } => sequenced(
            value_spans(anonymous_view(), *lhs),
            expression_spans(anonymous_view(), *rhs),
        ),
        Expression::Value(v) => value_spans(name, *v),
    }
}

pub open spec fn value_spans(name: NameView, v: Value) -> WalkResult
    decreases v, 0nat,
{
    match v {
        Value::Function { keyword, body } => function_spans(
            keyword.line,
            body.end_line,
            name,
            body.block,
        ),
        Value::ParseExpression(e) => expression_spans(name, *e),
        Value::FunctionCall(call) => call_spans(call),
        Value::TableConstructor(table) => fields_spans(name, table.fields@),
        Value::Var(Var::Expression(var)) => suffixes_spans(var.suffixes@),
        Value::Var(Var::Name(_)) => no_spans(),
        Value::Literal(_) => no_spans(),
    }
}

pub open spec fn call_spans(c: FunctionCall) -> WalkResult
    decreases c, 0nat,
{
    sequenced(prefix_spans(c.prefix), suffixes_spans(c.suffixes@))
}

/// A callee in parentheses is walked anonymously.
pub open spec fn prefix_spans(p: Prefix) -> WalkResult
    decreases p, 0nat,
{
    match p {
        Prefix::Expression(e) => expression_spans(anonymous_view(), *e),
        Prefix::Name(_) => no_spans(),
    }
}

pub open spec fn suffixes_spans(s: Seq<Suffix>) -> WalkResult
    decreases s, 0nat,
{
    if s.len() == 0 {
        no_spans()
    } else {
        sequenced(
            suffixes_spans(s.subrange(0, s.len() - 1)),
            match s[s.len() - 1] {
                Suffix::Call(Call::AnonymousCall(args)) => args_spans(args),
                Suffix::Call(Call::MethodCall { args, .. }) => args_spans(args),
                Suffix::Index(_) => no_spans(),
            },
        )
    }
}

pub open spec fn args_spans(a: FunctionArgs) -> WalkResult
    decreases a, 0nat,
{
    match a {
        FunctionArgs::Parentheses { arguments, .. } => arguments_spans(arguments@),
        FunctionArgs::String(_) => no_spans(),
        FunctionArgs::TableConstructor(table) => fields_spans(anonymous_view(), table.fields@),
    }
}

pub open spec fn arguments_spans(s: Seq<Expression>) -> WalkResult
    decreases s, 0nat,
{
    if s.len() == 0 {
        no_spans()
    } else {
        sequenced(
            arguments_spans(s.subrange(0, s.len() - 1)),
            expression_spans(anonymous_view(), s[s.len() - 1]),
        )
    }
}

/// How many positional entries `s` holds.
pub open spec fn positional_count(s: Seq<Field>) -> nat
    decreases s.len(),
{
    if s.len() == 0 {
        0
    } else {
        positional_count(s.drop_last()) + if s.last() is NoKey {
            1nat
        } else {
            0nat
        }
    }
}

/// The fields of a table constructor, each value walked under `name` with its
/// key appended; a computed key is walked first, anonymously.
pub open spec fn fields_spans(name: NameView, s: Seq<Field>) -> WalkResult
    decreases s, 1nat,
{
    if s.len() == 0 {
        no_spans()
    } else {
        sequenced(fields_spans(name, s.subrange(0, s.len() - 1)), last_field_spans(name, s))
    }
}

/// The spans of the last field of `s`, whose position among the positional
/// entries is counted over the whole of `s`.
pub open spec fn last_field_spans(name: NameView, s: Seq<Field>) -> WalkResult
    decreases s, 0nat,
{
    if s.len() == 0 {
        no_spans()
    } else {
            match s[s.len() - 1] {
                Field::ExpressionKey { key, key_source, value } => sequenced(
                    expression_spans(anonymous_view(), key),
                    expression_spans(
                        pushed_view(name, SegmentView::Expression(expression_text(key, key_source@))),
                        value,
                    ),
                ),
                Field::NameKey { name: key, value } => match token_segment(key) {
                    Err(e) => Err(e),
                    Ok(seg) => expression_spans(pushed_view(name, seg), value),
                },
                Field::NoKey(value) => expression_spans(
                    pushed_view(name, SegmentView::Expression(decimal(positional_count(s)))),
                    value,
                ),
            }
    }
}

/// `after` holds `before` unchanged, followed by any number of spans.
pub open spec fn extends(before: Seq<FunctionSpan>, after: Seq<FunctionSpan>) -> bool {
    &&& before.len() <= after.len()
    &&& forall|k: int| 0 <= k < before.len() ==> #[trigger] after[k] == before[k]
}

/// How a walk step ended: on `Ok` spans it succeeded and appended exactly
/// those spans; on `Err` it failed with exactly that error. Either way it
/// only appended.
pub open spec fn walk_outcome(
    r: Result<(), WalkError>,
    w: WalkResult,
    before: Seq<FunctionSpan>,
    after: Seq<FunctionSpan>,
) -> bool {
    &&& extends(before, after)
    &&& match w {
        Ok(s) => r is Ok && spans_view(after) == spans_view(before) + s,
        Err(e) => r == Err::<(), WalkError>(e),
    }
}

proof fn lemma_spans_view_push(s: Seq<FunctionSpan>, x: FunctionSpan)
    ensures
        spans_view(s.push(x)) == spans_view(s).push(x@),
{
    assert(spans_view(s.push(x)) =~= spans_view(s).push(x@));
}

proof fn lemma_append_assoc(a: Seq<SpanView>, b: Seq<SpanView>, c: Seq<SpanView>)
    ensures
        a + b + c == a + (b + c),
{
    assert(a + b + c =~= a + (b + c));
}

proof fn lemma_stmts_err(s: Seq<Stmt>, k: int)
    requires
        0 <= k <= s.len(),
        stmts_spans(s.subrange(0, k)) is Err,
    ensures
        stmts_spans(s) == stmts_spans(s.subrange(0, k)),
    decreases s.len(),
{
    if k < s.len() {
        assert(s.subrange(0, s.len() - 1).subrange(0, k) =~= s.subrange(0, k));
        lemma_stmts_err(s.subrange(0, s.len() - 1), k);
    } else {
        assert(s.subrange(0, k) =~= s);
    }
}

proof fn lemma_blocks_err(s: Seq<Block>, k: int)
    requires
        0 <= k <= s.len(),
        blocks_spans(s.subrange(0, k)) is Err,
    ensures
        blocks_spans(s) == blocks_spans(s.subrange(0, k)),
    decreases s.len(),
{
    if k < s.len() {
        assert(s.subrange(0, s.len() - 1).subrange(0, k) =~= s.subrange(0, k));
        lemma_blocks_err(s.subrange(0, s.len() - 1), k);
    } else {
        assert(s.subrange(0, k) =~= s);
    }
}

proof fn lemma_assignment_err(t: AssignmentTargets, s: Seq<Expression>, k: int)
    requires
        0 <= k <= s.len(),
        assignment_spans(t, s.subrange(0, k)) is Err,
    ensures
        assignment_spans(t, s) == assignment_spans(t, s.subrange(0, k)),
    decreases s.len(),
{
    if k < s.len() {
        assert(s.subrange(0, s.len() - 1).subrange(0, k) =~= s.subrange(0, k));
        lemma_assignment_err(t, s.subrange(0, s.len() - 1), k);
    } else {
        assert(s.subrange(0, k) =~= s);
    }
}

proof fn lemma_suffixes_err(s: Seq<Suffix>, k: int)
    requires
        0 <= k <= s.len(),
        suffixes_spans(s.subrange(0, k)) is Err,
    ensures
        suffixes_spans(s) == suffixes_spans(s.subrange(0, k)),
    decreases s.len(),
{
    if k < s.len() {
        assert(s.subrange(0, s.len() - 1).subrange(0, k) =~= s.subrange(0, k));
        lemma_suffixes_err(s.subrange(0, s.len() - 1), k);
    } else {
        assert(s.subrange(0, k) =~= s);
    }
}

proof fn lemma_arguments_err(s: Seq<Expression>, k: int)
    requires
        0 <= k <= s.len(),
        arguments_spans(s.subrange(0, k)) is Err,
    ensures
        arguments_spans(s) == arguments_spans(s.subrange(0, k)),
    decreases s.len(),
{
    if k < s.len() {
        assert(s.subrange(0, s.len() - 1).subrange(0, k) =~= s.subrange(0, k));
        lemma_arguments_err(s.subrange(0, s.len() - 1), k);
    } else {
        assert(s.subrange(0, k) =~= s);
    }
}

proof fn lemma_fields_err(name: NameView, s: Seq<Field>, k: int)
    requires
        0 <= k <= s.len(),
        fields_spans(name, s.subrange(0, k)) is Err,
    ensures
        fields_spans(name, s) == fields_spans(name, s.subrange(0, k)),
    decreases s.len(),
{
    if k < s.len() {
        assert(s.subrange(0, s.len() - 1).subrange(0, k) =~= s.subrange(0, k));
        lemma_fields_err(name, s.subrange(0, s.len() - 1), k);
    } else {
        assert(s.subrange(0, k) =~= s);
    }
}

/// Relies on itertools' `Itertools::zip_longest` over the index ranges `0..n`
/// and `0..m`: element `k` holds `k` on each side that has an index `k`, and
/// there are as many elements as the longer range has.
#[verifier::external_body]
fn zip_longest_indices(n: usize, m: usize) -> (r: Vec<(Option<usize>, Option<usize>)>)
    ensures
        r@.len() == if n >= m { n } else { m },
        forall|k: int|
            0 <= k < r@.len() ==> #[trigger] r@[k] == (
                if k < n { Some(k as usize) } else { None::<usize> },
                if k < m { Some(k as usize) } else { None::<usize> },
            ),
{
    (0..n).zip_longest(0..m).map(|pair| match pair {
        EitherOrBoth::Both(i, j) => (Some(i), Some(j)),
        EitherOrBoth::Left(i) => (Some(i), None),
        EitherOrBoth::Right(j) => (None, Some(j)),
    }).collect()
}

impl<'a> AssignmentTargets<'a> {
    pub fn len(&self) -> (r: usize)
        ensures
            r == targets_len(*self),
    {
        match self {
            AssignmentTargets::Vars(v) => v.len(),
            AssignmentTargets::Names(n) => n.len(),
        }
    }

    /// The name that target `k` gives.
    pub fn name_at(&self, k: usize) -> (r: Result<FunctionNameStack, WalkError>)
        requires
            k < targets_len(*self),
        ensures
            match target_name(*self, k as int) {
                Ok(n) => r matches Ok(x) && x@ == n,
                Err(e) => r == Err::<FunctionNameStack, WalkError>(e),
            },
    {
        match self {
            AssignmentTargets::Vars(v) => FunctionNameStack::from_var(&v[k]),
            AssignmentTargets::Names(n) => FunctionNameStack::from_token(&n[k]),
        }
    }
}

/// Records a function's own span, then walks its body.
fn process_function(
    start: usize,
    name: &FunctionNameStack,
    body: &FunctionBody,
    functions: &mut Vec<FunctionSpan>,
) -> (r: Result<(), WalkError>)
    ensures
        walk_outcome(
            r,
            function_spans(start, body.end_line, name@, body.block),
            old(functions)@,
            final(functions)@,
        ),
    decreases body,
{
    let span = FunctionSpan { start, end: body.end_line, name: name.duplicate() };
    proof { lemma_spans_view_push(functions@, span); }
    functions.push(span);
    let ghost middle = functions@;
    let r = gather_function_line_spans(&body.block, functions);
    proof {
        if r is Ok {
            lemma_append_assoc(spans_view(old(functions)@), seq![span@],
                block_spans(body.block)->Ok_0);
            assert(spans_view(middle) =~= spans_view(old(functions)@) + seq![span@]);
        }
    }
    r
}

/// Walks every statement of `block` and appends the spans of the functions it
/// holds to `functions`, in the order they are found: a function before those
/// nested in it. Fails on the first naming construct that does not resolve;
/// what was appended before the failure is then no result.
pub fn gather_function_line_spans(block: &Block, functions: &mut Vec<FunctionSpan>) -> (r: Result<
    (),
    WalkError,
>)
    ensures
        walk_outcome(r, block_spans(*block), old(functions)@, final(functions)@),
    decreases block,
{
    let ghost mut acc: Seq<SpanView> = Seq::empty();
    let mut i: usize = 0;
    assert(block.stmts@.subrange(0, 0) =~= Seq::<Stmt>::empty());
    while i < block.stmts.len()
        invariant
            i <= block.stmts.len(),
            stmts_spans(block.stmts@.subrange(0, i as int)) == Ok::<Seq<SpanView>, WalkError>(acc),
            extends(old(functions)@, functions@),
            spans_view(functions@) == spans_view(old(functions)@) + acc,
        decreases block.stmts.len() - i,
    {
        let r = process_statement(&block.stmts[i], functions);
        assert(block.stmts@.subrange(0, i + 1).subrange(0, i as int) =~= block.stmts@.subrange(0, i as int));
        assert(block.stmts@.subrange(0, i + 1)[i as int] == block.stmts@[i as int]);
        if r.is_err() {
            proof { lemma_stmts_err(block.stmts@, i + 1); }
            return r;
        }
        proof {
            let s = stmt_spans(block.stmts@[i as int])->Ok_0;
            lemma_append_assoc(spans_view(old(functions)@), acc, s);
            acc = acc + s;
        }
        i = i + 1;
    }
    assert(block.stmts@.subrange(0, i as int) =~= block.stmts@);
    Ok(())
}

fn process_statement(stmt: &Stmt, functions: &mut Vec<FunctionSpan>) -> (r: Result<(), WalkError>)
    ensures
        walk_outcome(r, stmt_spans(*stmt), old(functions)@, final(functions)@),
    decreases stmt,
{
    match stmt {
        Stmt::LocalFunction { start_line, name, body } => {
            let name = match FunctionNameStack::from_token(name) {
                Ok(n) => n,
                Err(e) => return Err(e),
            };
            process_function(*start_line, &name, body, functions)
        },
        Stmt::FunctionDeclaration { start_line, function_name, body } => {
            let name = match FunctionNameStack::from_function_name(function_name) {
                Ok(n) => n,
                Err(e) => return Err(e),
            };
            process_function(*start_line, &name, body, functions)
        },
        Stmt::Assignment { targets, values } => process_assignment(
            AssignmentTargets::Vars(targets),
            values,
            functions,
        ),
        Stmt::LocalAssignment { names, values } => process_assignment(
            AssignmentTargets::Names(names),
            values,
            functions,
        ),
        Stmt::FunctionCall(call) => process_function_call(call, functions),
        Stmt::Do(b) => gather_function_line_spans(b, functions),
        Stmt::While(b) => gather_function_line_spans(b, functions),
        Stmt::Repeat(b) => gather_function_line_spans(b, functions),
        Stmt::NumericFor(b) => gather_function_line_spans(b, functions),
        Stmt::GenericFor(b) => gather_function_line_spans(b, functions),
        Stmt::If { then_block, else_if_blocks, else_block } => {
            let ghost start = functions@;
            let r = gather_function_line_spans(then_block, functions);
            if r.is_err() {
                return r;
            }
            let ghost mut acc: Seq<SpanView> = block_spans(*then_block)->Ok_0;
            let mut i: usize = 0;
            assert(else_if_blocks@.subrange(0, 0) =~= Seq::<Block>::empty());
            assert(acc + Seq::<SpanView>::empty() =~= acc);
            while i < else_if_blocks.len()
                invariant
                    i <= else_if_blocks.len(),
                    *stmt == (Stmt::If {
                        then_block: *then_block,
                        else_if_blocks: *else_if_blocks,
                        else_block: *else_block,
                    }),
                    block_spans(*then_block) is Ok,
                    sequenced(
                        block_spans(*then_block),
                        blocks_spans(else_if_blocks@.subrange(0, i as int)),
                    ) == Ok::<Seq<SpanView>, WalkError>(acc),
                    extends(old(functions)@, functions@),
                    spans_view(functions@) == spans_view(start) + acc,
                decreases else_if_blocks.len() - i,
            {
                let r = gather_function_line_spans(&else_if_blocks[i], functions);
                assert(else_if_blocks@.subrange(0, i + 1).subrange(0, i as int)
                    =~= else_if_blocks@.subrange(0, i as int));
                assert(else_if_blocks@.subrange(0, i + 1)[i as int] == else_if_blocks@[i as int]);
                if r.is_err() {
                    proof { lemma_blocks_err(else_if_blocks@, i + 1); }
                    return r;
                }
                proof {
                    let s = block_spans(else_if_blocks@[i as int])->Ok_0;
                    let p = blocks_spans(else_if_blocks@.subrange(0, i as int))->Ok_0;
                    lemma_append_assoc(spans_view(start), acc, s);
                    lemma_append_assoc(block_spans(*then_block)->Ok_0, p, s);
                    acc = acc + s;
                }
                i = i + 1;
            }
            assert(else_if_blocks@.subrange(0, i as int) =~= else_if_blocks@);
            match else_block {
                None => {
                    assert(acc + Seq::<SpanView>::empty() =~= acc);
                    Ok(())
                },
                Some(b) => {
                    let r = gather_function_line_spans(b, functions);
                    proof {
                        if r is Ok {
                            lemma_append_assoc(spans_view(start), acc, block_spans(*b)->Ok_0);
                        }
                    }
                    r
                },
            }
        },
    }
}

/// Walks each assigned value under the name of its target.
fn process_assignment(
    targets: AssignmentTargets,
    values: &Vec<Expression>,
    functions: &mut Vec<FunctionSpan>,
) -> (r: Result<(), WalkError>)
    ensures
        walk_outcome(r, assignment_spans(targets, values@), old(functions)@, final(functions)@),
    decreases values,
{
    let n = targets.len();
    let m = values.len();
    let pairs = zip_longest_indices(n, m);
    let ghost mut acc: Seq<SpanView> = Seq::empty();
    let mut k: usize = 0;
    assert(values@.subrange(0, 0) =~= Seq::<Expression>::empty());
    while k < pairs.len()
        invariant
            n == targets_len(targets),
            m == values@.len(),
            pairs@.len() == if n >= m { n } else { m },
            forall|j: int|
                0 <= j < pairs@.len() ==> #[trigger] pairs@[j] == (
                    if j < n { Some(j as usize) } else { None::<usize> },
                    if j < m { Some(j as usize) } else { None::<usize> },
                ),
            k <= pairs.len(),
            assignment_spans(targets, values@.subrange(0, if k <= m { k as int } else { m as int }))
                == Ok::<Seq<SpanView>, WalkError>(acc),
            extends(old(functions)@, functions@),
            spans_view(functions@) == spans_view(old(functions)@) + acc,
        decreases pairs.len() - k,
    {
        let (target, value) = pairs[k];
        match value {
            None => {},
            Some(j) => {
                assert(j == k);
                assert(values@.subrange(0, k + 1).subrange(0, k as int) =~= values@.subrange(0, k as int));
                assert(values@.subrange(0, k + 1)[k as int] == values@[k as int]);
                let mut name = match target {
                    Some(t) => match targets.name_at(t) {
                        Ok(name) => name,
                        Err(e) => {
                            proof { lemma_assignment_err(targets, values@, k + 1); }
                            return Err(e);
                        },
                    },
                    None => FunctionNameStack::anonymous(),
                };
                let r = process_expression(&mut name, &values[j], functions);
                if r.is_err() {
                    proof { lemma_assignment_err(targets, values@, k + 1); }
                    return r;
                }
                proof {
                    let s = if k < n {
                        expression_spans(target_name(targets, k as int)->Ok_0, values@[k as int])->Ok_0
                    } else {
                        expression_spans(anonymous_view(), values@[k as int])->Ok_0
                    };
                    lemma_append_assoc(spans_view(old(functions)@), acc, s);
                    acc = acc + s;
                }
            },
        }
        k = k + 1;
    }
    assert(values@.subrange(0, m as int) =~= values@);
    Ok(())
}

/// What is left of an expression once parentheses are taken off.
pub enum UsefulExpression<'a> {
    /// A bare value.
    Single(&'a Value),
    /// An operator applied to an operand.
    UnOp(&'a Token, &'a Expression),
    /// `lhs operator rhs`.
    BinOp(&'a Value, &'a Token, &'a Expression),
}

/// The useful part of `e`: parentheses and values that only wrap an
/// expression are taken off.
pub open spec fn useful_of(e: Expression) -> Expression
    decreases e,
{
    match e {
        Expression::Parentheses { inner, .. } => useful_of(*inner),
        Expression::Value(v) => match *v {
            Value::ParseExpression(inner) => useful_of(*inner),
            _ => e,
        },
        _ => e,
    }
}

/// Takes the parentheses off `expr` and classifies what is left.
pub fn strip_parentheses<'a>(expr: &'a Expression) -> (r: UsefulExpression<'a>)
    ensures
        match r {
            UsefulExpression::Single(v) => useful_of(*expr) == Expression::Value(Box::new(*v))
                && !(*v is ParseExpression) && decreases_to!(*expr => *v),
            UsefulExpression::UnOp(op, operand) => useful_of(*expr) == (Expression::UnaryOperator {
                operator: *op,
                operand: Box::new(*operand),
            }) && decreases_to!(*expr => *operand),
            UsefulExpression::BinOp(lhs, op, rhs) => useful_of(*expr) == (Expression::BinaryOperator {
                lhs: Box::new(*lhs),
                operator: *op,
                rhs: Box::new(*rhs),
            }) && decreases_to!(*expr => *lhs) && decreases_to!(*expr => *rhs),
        },
    decreases expr,
{
    match expr {
        Expression::Parentheses { inner, .. } => strip_parentheses(inner),
        Expression::UnaryOperator { operator, operand } => UsefulExpression::UnOp(operator, operand),
        Expression::BinaryOperator { lhs, operator, rhs } => UsefulExpression::BinOp(lhs, operator, rhs),
        Expression::Value(v) => match &**v {
            Value::ParseExpression(inner) => strip_parentheses(inner),
            _ => UsefulExpression::Single(v),
        },
    }
}

/// Parentheses, and values that only wrap an expression, change nothing
/// about the spans found or the names they get.
pub proof fn lemma_useful_spans(name: NameView, e: Expression)
    ensures
        expression_spans(name, e) == expression_spans(name, useful_of(e)),
    decreases e,
{
    match e {
        Expression::Parentheses { inner, .. } => {
            lemma_useful_spans(name, *inner);
            assert(useful_of(e) == useful_of(*inner));
            assert(expression_spans(name, e) == expression_spans(name, *inner));
        },
        Expression::Value(v) => match *v {
            Value::ParseExpression(inner) => {
                lemma_useful_spans(name, *inner);
                assert(useful_of(e) == useful_of(*inner));
                assert(expression_spans(name, e) == value_spans(name, *v));
            },
            _ => {},
        },
        _ => {},
    }
}

/// Walks `expr` with `name` as the candidate name of a function literal it
/// is. An operand of an operator is walked with no name.
fn process_expression(
    name: &mut FunctionNameStack,
    expr: &Expression,
    functions: &mut Vec<FunctionSpan>,
) -> (r: Result<(), WalkError>)
    ensures
        walk_outcome(r, expression_spans(old(name)@, *expr), old(functions)@, final(functions)@),
        final(name)@ == old(name)@,
    decreases expr,
{
    proof { lemma_useful_spans(name@, *expr); }
    match strip_parentheses(expr) {
        UsefulExpression::Single(v) => process_value(name, v, functions),
        UsefulExpression::UnOp(_, operand) => {
            let mut anonymous = FunctionNameStack::anonymous();
            process_expression(&mut anonymous, operand, functions)
        },
        UsefulExpression::BinOp(lhs, _, rhs) => {
            let ghost start = functions@;
            let mut anonymous = FunctionNameStack::anonymous();
            let r = process_value(&mut anonymous, lhs, functions);
            if r.is_err() {
                return r;
            }
            let mut anonymous = FunctionNameStack::anonymous();
            let r = process_expression(&mut anonymous, rhs, functions);
            proof {
                if r is Ok {
                    lemma_append_assoc(
                        spans_view(start),
                        value_spans(anonymous_view(), *lhs)->Ok_0,
                        expression_spans(anonymous_view(), *rhs)->Ok_0,
                    );
                }
            }
            r
        },
    }
}

/// Walks a value: a function literal is recorded under `name`; calls,
/// tables and indexes are searched for functions.
fn process_value(
    name: &mut FunctionNameStack,
    value: &Value,
    functions: &mut Vec<FunctionSpan>,
) -> (r: Result<(), WalkError>)
    ensures
        walk_outcome(r, value_spans(old(name)@, *value), old(functions)@, final(functions)@),
        final(name)@ == old(name)@,
    decreases value,
{
    match value {
        Value::Function { keyword, body } => process_function(keyword.line, name, body, functions),
        Value::ParseExpression(e) => process_expression(name, e, functions),
        Value::FunctionCall(call) => process_function_call(call, functions),
        Value::TableConstructor(table) => process_table_constructor(name, table, functions),
        Value::Var(Var::Expression(var)) => process_suffixes(&var.suffixes, functions),
        Value::Var(Var::Name(_)) => Ok(()),
        Value::Literal(_) => Ok(()),
    }
}

/// Walks a call: a parenthesized callee and every argument, all anonymously.
fn process_function_call(call: &FunctionCall, functions: &mut Vec<FunctionSpan>) -> (r: Result<
    (),
    WalkError,
>)
    ensures
        walk_outcome(r, call_spans(*call), old(functions)@, final(functions)@),
    decreases call,
{
    let ghost start = functions@;
    match &call.prefix {
        Prefix::Expression(e) => {
            let mut anonymous = FunctionNameStack::anonymous();
            let r = process_expression(&mut anonymous, e, functions);
            if r.is_err() {
                return r;
            }
        },
        Prefix::Name(_) => {
            assert(spans_view(functions@) =~= spans_view(start) + Seq::<SpanView>::empty());
        },
    }
    let r = process_suffixes(&call.suffixes, functions);
    proof {
        if r is Ok {
            lemma_append_assoc(spans_view(start), prefix_spans(call.prefix)->Ok_0, suffixes_spans(call.suffixes@)->Ok_0);
        }
    }
    r
}

/// Walks the arguments of every call among `suffixes`.
fn process_suffixes(suffixes: &Vec<Suffix>, functions: &mut Vec<FunctionSpan>) -> (r: Result<
    (),
    WalkError,
>)
    ensures
        walk_outcome(r, suffixes_spans(suffixes@), old(functions)@, final(functions)@),
    decreases suffixes,
{
    let ghost mut acc: Seq<SpanView> = Seq::empty();
    let mut i: usize = 0;
    assert(suffixes@.subrange(0, 0) =~= Seq::<Suffix>::empty());
    while i < suffixes.len()
        invariant
            i <= suffixes.len(),
            suffixes_spans(suffixes@.subrange(0, i as int)) == Ok::<Seq<SpanView>, WalkError>(acc),
            extends(old(functions)@, functions@),
            spans_view(functions@) == spans_view(old(functions)@) + acc,
        decreases suffixes.len() - i,
    {
        assert(suffixes@.subrange(0, i + 1).subrange(0, i as int) =~= suffixes@.subrange(0, i as int));
        assert(suffixes@.subrange(0, i + 1)[i as int] == suffixes@[i as int]);
        let r = match &suffixes[i] {
            Suffix::Call(Call::AnonymousCall(args)) => process_arguments(args, functions),
            Suffix::Call(Call::MethodCall { args, .. }) => process_arguments(args, functions),
            Suffix::Index(_) => {
                assert(spans_view(functions@) =~= spans_view(functions@) + Seq::<SpanView>::empty());
                Ok(())
            },
        };
        if r.is_err() {
            proof { lemma_suffixes_err(suffixes@, i + 1); }
            return r;
        }
        proof {
            let t = match suffixes@[i as int] {
                Suffix::Call(Call::AnonymousCall(args)) => args_spans(args),
                Suffix::Call(Call::MethodCall { args, .. }) => args_spans(args),
                Suffix::Index(_) => no_spans(),
            };
            lemma_append_assoc(spans_view(old(functions)@), acc, t->Ok_0);
            acc = acc + t->Ok_0;
        }
        i = i + 1;
    }
    assert(suffixes@.subrange(0, i as int) =~= suffixes@);
    Ok(())
}

/// Walks call arguments, each anonymously.
fn process_arguments(args: &FunctionArgs, functions: &mut Vec<FunctionSpan>) -> (r: Result<
    (),
    WalkError,
>)
    ensures
        walk_outcome(r, args_spans(*args), old(functions)@, final(functions)@),
    decreases args,
{
    match args {
        FunctionArgs::Parentheses { arguments, .. } => {
            let ghost mut acc: Seq<SpanView> = Seq::empty();
            let mut i: usize = 0;
            assert(arguments@.subrange(0, 0) =~= Seq::<Expression>::empty());
            while i < arguments.len()
                invariant
                    i <= arguments.len(),
                    *args == (FunctionArgs::Parentheses { open: args->open, arguments: *arguments }),
                    arguments_spans(arguments@.subrange(0, i as int)) == Ok::<Seq<SpanView>, WalkError>(acc),
                    extends(old(functions)@, functions@),
                    spans_view(functions@) == spans_view(old(functions)@) + acc,
                decreases arguments.len() - i,
            {
                assert(arguments@.subrange(0, i + 1).subrange(0, i as int)
                    =~= arguments@.subrange(0, i as int));
                assert(arguments@.subrange(0, i + 1)[i as int] == arguments@[i as int]);
                let mut anonymous = FunctionNameStack::anonymous();
                let r = process_expression(&mut anonymous, &arguments[i], functions);
                if r.is_err() {
                    proof { lemma_arguments_err(arguments@, i + 1); }
                    return r;
                }
                proof {
                    let t = expression_spans(anonymous_view(), arguments@[i as int])->Ok_0;
                    lemma_append_assoc(spans_view(old(functions)@), acc, t);
                    acc = acc + t;
                }
                i = i + 1;
            }
            assert(arguments@.subrange(0, i as int) =~= arguments@);
            Ok(())
        },
        FunctionArgs::String(_) => {
            assert(spans_view(functions@) =~= spans_view(functions@) + Seq::<SpanView>::empty());
            Ok(())
        },
        FunctionArgs::TableConstructor(table) => {
            let mut anonymous = FunctionNameStack::anonymous();
            process_table_constructor(&mut anonymous, table, functions)
        },
    }
}

/// The key of a table field.
#[derive(Clone, Copy)]
pub enum TableKey<'a> {
    /// The `n`th positional entry, counting from 1.
    Positional(usize),
    /// `name = value`
    Name(&'a Token),
    /// `[expression] = value`, with the expression's source text.
    Expression(&'a Expression, &'a String),
}

/// The name segment that a table key contributes.
pub open spec fn table_key_segment(k: TableKey) -> Result<SegmentView, WalkError> {
    match k {
        TableKey::Positional(n) => Ok(SegmentView::Expression(decimal(n as nat))),
        TableKey::Name(token) => token_segment(*token),
        TableKey::Expression(e, source) => Ok(SegmentView::Expression(expression_text(*e, source@))),
    }
}

impl<'a> TableKey<'a> {
    /// Splits a field into its key and its value; a positional entry takes
    /// the next position, counted in `index`.
    pub fn with_value_from_field(field: &'a Field, index: &mut usize) -> (r: (TableKey<'a>, &'a Expression))
        requires
            *old(index) < usize::MAX,
        ensures
            match *field {
                Field::ExpressionKey { key, key_source, value } => (r.0 matches TableKey::Expression(k, s)
                    && *k == key && *s == key_source) && *r.1 == value && *final(index) == *old(index),
                Field::NameKey { name, value } => (r.0 matches TableKey::Name(t) && *t == name)
                    && *r.1 == value && *final(index) == *old(index),
                Field::NoKey(value) => r.0 == TableKey::Positional((*old(index) + 1) as usize)
                    && *r.1 == value && *final(index) == *old(index) + 1,
            },
    {
        match field {
            Field::ExpressionKey { key, key_source, value } => (TableKey::Expression(key, key_source), value),
            Field::NameKey { name, value } => (TableKey::Name(name), value),
            Field::NoKey(value) => {
                *index = *index + 1;
                (TableKey::Positional(*index), value)
            },
        }
    }

    /// The name segment this key contributes: `[n]` for a position, `.name`
    /// for a name, `[text]` for an expression.
    pub fn to_segment(&self) -> (r: Result<FunctionNameSegment, WalkError>)
        ensures
            match table_key_segment(*self) {
                Ok(s) => r matches Ok(x) && x@ == s,
                Err(e) => r == Err::<FunctionNameSegment, WalkError>(e),
            },
    {
        match self {
            TableKey::Positional(n) => Ok(FunctionNameSegment::Expression(decimal_string(*n))),
            TableKey::Name(token) => FunctionNameSegment::from_token(token),
            TableKey::Expression(e, source) => Ok(
                FunctionNameSegment::Expression(expression_segment_text(e, source)),
            ),
        }
    }
}

/// Walks a table constructor's fields, each value under `name` with the
/// field's key appended.
fn process_table_constructor(
    name: &mut FunctionNameStack,
    table: &TableConstructor,
    functions: &mut Vec<FunctionSpan>,
) -> (r: Result<(), WalkError>)
    ensures
        walk_outcome(r, fields_spans(old(name)@, table.fields@), old(functions)@, final(functions)@),
        final(name)@ == old(name)@,
    decreases table,
{
    let ghost n = name@;
    let ghost mut acc: Seq<SpanView> = Seq::empty();
    let mut index: usize = 0;
    let mut i: usize = 0;
    assert(table.fields@.subrange(0, 0) =~= Seq::<Field>::empty());
    while i < table.fields.len()
        invariant
            i <= table.fields.len(),
            index <= i,
            index == positional_count(table.fields@.subrange(0, i as int)),
            name@ == n,
            n == old(name)@,
            fields_spans(n, table.fields@.subrange(0, i as int)) == Ok::<Seq<SpanView>, WalkError>(acc),
            extends(old(functions)@, functions@),
            spans_view(functions@) == spans_view(old(functions)@) + acc,
        decreases table.fields.len() - i,
    {
        let ghost s = table.fields@.subrange(0, i + 1);
        assert(s.subrange(0, i as int) =~= table.fields@.subrange(0, i as int));
        assert(s.drop_last() =~= table.fields@.subrange(0, i as int));
        assert(s[i as int] == table.fields@[i as int]);
        let ghost before = functions@;
        let (key, value) = TableKey::with_value_from_field(&table.fields[i], &mut index);
        let ghost key_spans = match key {
            TableKey::Expression(k, _) => expression_spans(anonymous_view(), *k),
            _ => no_spans(),
        };
        match key {
            TableKey::Expression(k, _) => {
                let mut anonymous = FunctionNameStack::anonymous();
                let r = process_expression(&mut anonymous, k, functions);
                if r.is_err() {
                    proof { lemma_fields_err(n, table.fields@, i + 1); }
                    return r;
                }
            },
            _ => {
                assert(spans_view(functions@) =~= spans_view(functions@) + Seq::<SpanView>::empty());
            },
        }
        let segment = match key.to_segment() {
            Ok(segment) => segment,
            Err(e) => {
                proof { lemma_fields_err(n, table.fields@, i + 1); }
                return Err(e);
            },
        };
        let ghost segment_view = segment@;
        name.push(segment);
        let r = process_expression(name, value, functions);
        name.pop();
        assert(n.middle.push(segment_view).drop_last() =~= n.middle);
        assert(name@ == n);
        if r.is_err() {
            proof { lemma_fields_err(n, table.fields@, i + 1); }
            return r;
        }
        proof {
            let v = expression_spans(pushed_view(n, segment@), *value)->Ok_0;
            lemma_append_assoc(spans_view(before), key_spans->Ok_0, v);
            lemma_append_assoc(spans_view(old(functions)@), acc, key_spans->Ok_0 + v);
            assert(last_field_spans(n, s) == sequenced(key_spans, Ok::<Seq<SpanView>, WalkError>(v)));
            acc = acc + (key_spans->Ok_0 + v);
        }
        i = i + 1;
    }
    assert(table.fields@.subrange(0, i as int) =~= table.fields@);
    Ok(())
}

} // verus!
