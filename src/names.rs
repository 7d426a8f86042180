//! Function names: how a declaration, an assignment target or a table key
//! becomes a dotted path such as `mt.__index["set"]` or `x.y:z`.
use vstd::prelude::*;
use crate::syntax::{call_first, expression_first, Expression, FunctionName, Index, Prefix, Suffix, Token, TokenKind, Value, Var, Position};

verus! {

/// Why a naming construct could not be resolved. `NotAnIdentifier` and
/// `ExpectedIdentifierSuffix` are malformed names; `ExpectedIdentifierPrefix`
/// and `UnexpectedCall` are constructs that a function name cannot be made of.
#[derive(Clone, Copy, Debug, PartialEq, Eq, Structural)]
pub enum WalkErrorKind {
    /// A token that must be an identifier is not one.
    NotAnIdentifier,
    /// An assignment target starts with something other than a plain name.
    ExpectedIdentifierPrefix,
    /// A `.name` index of an assignment target is not an identifier.
    ExpectedIdentifierSuffix,
    /// An assignment target holds a call.
    UnexpectedCall,
}

/// A failed walk: what went wrong and at which token.
#[derive(Clone, Copy, Debug, PartialEq, Eq, Structural)]
pub struct WalkError {
    pub kind: WalkErrorKind,
    pub position: Position,
}

/// One segment of a function name.
#[derive(Clone, Debug, PartialEq, Eq)]
pub enum FunctionNameSegment {
    /// No usable name could be derived.
    Anonymous,
    /// An identifier, written `name` first and `.name` after.
    Name(String),
    /// An index expression's text, written `[text]`.
    Expression(String),
}

/// A function name: `first`, then `middle` segments, then an optional method,
/// in the order they are written in source (`a.b[expr]:method`).
#[derive(Clone, Debug, PartialEq, Eq)]
pub struct FunctionNameStack {
    pub first: FunctionNameSegment,
    pub middle: Vec<FunctionNameSegment>,
    pub method: Option<String>,
}

/// What a [`FunctionNameSegment`] holds, as character sequences.
pub enum SegmentView {
    Anonymous,
    Name(Seq<char>),
    Expression(Seq<char>),
}

/// What a [`FunctionNameStack`] holds, as character sequences.
pub struct NameView {
    pub first: SegmentView,
    pub middle: Seq<SegmentView>,
    pub method: Option<Seq<char>>,
}

impl View for FunctionNameSegment {
    type V = SegmentView;

    open spec fn view(&self) -> SegmentView {
        match self {
            FunctionNameSegment::Anonymous => SegmentView::Anonymous,
            FunctionNameSegment::Name(n) => SegmentView::Name(n@),
            FunctionNameSegment::Expression(e) => SegmentView::Expression(e@),
        }
    }
}

pub open spec fn segments_view(s: Seq<FunctionNameSegment>) -> Seq<SegmentView> {
    s.map_values(|x: FunctionNameSegment| x@)
}

pub open spec fn method_view(m: Option<String>) -> Option<Seq<char>> {
    match m {
        Some(s) => Some(s@),
        None => None,
    }
}

impl View for FunctionNameStack {
    type V = NameView;

    open spec fn view(&self) -> NameView {
        NameView {
            first: self.first@,
            middle: segments_view(self.middle@),
            method: method_view(self.method),
        }
    }
}

/// The name of a function that no name attaches to.
pub open spec fn anonymous_view() -> NameView {
    NameView { first: SegmentView::Anonymous, middle: Seq::empty(), method: None }
}

/// A name of one segment.
pub open spec fn single_view(s: SegmentView) -> NameView {
    NameView { first: s, middle: Seq::empty(), method: None }
}

/// `n` with `s` appended to its middle segments.
pub open spec fn pushed_view(n: NameView, s: SegmentView) -> NameView {
    NameView { middle: n.middle.push(s), ..n }
}

/// A name with no usable segment: the function has no name at all.
pub open spec fn is_anonymous_view(n: NameView) -> bool {
    n.first is Anonymous && n.middle.len() == 0 && n.method is None
}

pub open spec fn bracketed(e: Seq<char>) -> Seq<char> {
    seq!['['] + e + seq![']']
}

/// How a leading segment is written.
pub open spec fn first_text(s: SegmentView) -> Seq<char> {
    match s {
        SegmentView::Anonymous => seq!['?'],
        SegmentView::Name(n) => n,
        SegmentView::Expression(e) => bracketed(e),
    }
}

/// How a segment after the first is written.
pub open spec fn middle_text(s: SegmentView) -> Seq<char> {
    match s {
        SegmentView::Anonymous => seq!['.', '?'],
        SegmentView::Name(n) => seq!['.'] + n,
        SegmentView::Expression(e) => bracketed(e),
    }
}

pub open spec fn middle_texts(m: Seq<SegmentView>) -> Seq<char>
    decreases m.len(),
{
    if m.len() == 0 {
        Seq::empty()
    } else {
        middle_texts(m.drop_last()) + middle_text(m.last())
    }
}

pub open spec fn method_text(m: Option<Seq<char>>) -> Seq<char> {
    match m {
        Some(name) => seq![':'] + name,
        None => Seq::empty(),
    }
}

/// How a whole name is written: `?` for no name, `t.get`, `x.y:z`, `t[1]`.
pub open spec fn rendered(n: NameView) -> Seq<char> {
    first_text(n.first) + middle_texts(n.middle) + method_text(n.method)
}

/// The decimal digit `d`.
pub open spec fn digit_char(d: nat) -> char {
    if d == 0 { '0' }
    else if d == 1 { '1' }
    else if d == 2 { '2' }
    else if d == 3 { '3' }
    else if d == 4 { '4' }
    else if d == 5 { '5' }
    else if d == 6 { '6' }
    else if d == 7 { '7' }
    else if d == 8 { '8' }
    else { '9' }
}

/// `n` written in decimal, without leading zeros.
pub open spec fn decimal(n: nat) -> Seq<char>
    decreases n,
{
    if n < 10 {
        seq![digit_char(n)]
    } else {
        decimal(n / 10).push(digit_char(n % 10))
    }
}

/// The text that a bracketed key or index stands for in a name: a literal's
/// own token, anything else the expression's source text.
pub open spec fn expression_text(e: Expression, source: Seq<char>) -> Seq<char> {
    match e {
        Expression::Value(v) => match *v {
            Value::Literal(token) => token.text@,
            _ => source,
        },
        _ => source,
    }
}

/// The segment that a token names, if it is an identifier.
pub open spec fn token_segment(t: Token) -> Result<SegmentView, WalkError> {
    if t.kind == TokenKind::Identifier {
        Ok(SegmentView::Name(t.text@))
    } else {
        Err(WalkError { kind: WalkErrorKind::NotAnIdentifier, position: t.position })
    }
}

/// The segments that a run of tokens names; the first non-identifier fails.
pub open spec fn tokens_segments(s: Seq<Token>) -> Result<Seq<SegmentView>, WalkError>
    decreases s.len(),
{
    if s.len() == 0 {
        Ok(Seq::empty())
    } else {
        match tokens_segments(s.drop_last()) {
            Err(e) => Err(e),
            Ok(p) => match token_segment(s.last()) {
                Err(e) => Err(e),
                Ok(x) => Ok(p.push(x)),
            },
        }
    }
}

/// The name of a `function a.b.c:d()` declaration.
pub open spec fn function_name_view(n: FunctionName) -> Result<NameView, WalkError> {
    match token_segment(n.first) {
        Err(e) => Err(e),
        Ok(first) => match tokens_segments(n.rest@) {
            Err(e) => Err(e),
            Ok(middle) => match n.method {
                None => Ok(NameView { first, middle, method: None }),
                Some(m) => match token_segment(m) {
                    Err(e) => Err(e),
                    Ok(_) => Ok(NameView { first, middle, method: Some(m.text@) }),
                },
            },
        },
    }
}

/// The segment that one suffix of an assignment target contributes.
pub open spec fn suffix_segment(s: Suffix) -> Result<SegmentView, WalkError> {
    match s {
        Suffix::Call(call) => Err(
            WalkError { kind: WalkErrorKind::UnexpectedCall, position: call_first(call) },
        ),
        Suffix::Index(Index::Brackets { expression, source }) => Ok(
            SegmentView::Expression(expression_text(*expression, source@)),
        ),
        Suffix::Index(Index::Dot { name }) => if name.kind == TokenKind::Identifier {
            Ok(SegmentView::Name(name.text@))
        } else {
            Err(WalkError { kind: WalkErrorKind::ExpectedIdentifierSuffix, position: name.position })
        },
    }
}

pub open spec fn suffixes_segments(s: Seq<Suffix>) -> Result<Seq<SegmentView>, WalkError>
    decreases s.len(),
{
    if s.len() == 0 {
        Ok(Seq::empty())
    } else {
        match suffixes_segments(s.drop_last()) {
            Err(e) => Err(e),
            Ok(p) => match suffix_segment(s.last()) {
                Err(e) => Err(e),
                Ok(x) => Ok(p.push(x)),
            },
        }
    }
}

/// The name that an assignment target gives the function assigned to it.
pub open spec fn var_name_view(v: Var) -> Result<NameView, WalkError> {
    match v {
        Var::Name(token) => match token_segment(token) {
            Err(e) => Err(e),
            Ok(s) => Ok(single_view(s)),
        },
        Var::Expression(var) => match var.prefix {
            Prefix::Expression(e) => Err(
                WalkError {
                    kind: WalkErrorKind::ExpectedIdentifierPrefix,
                    position: expression_first(*e),
                },
            ),
            Prefix::Name(token) => if token.kind == TokenKind::Identifier {
                match suffixes_segments(var.suffixes@) {
                    Err(e) => Err(e),
                    Ok(middle) => Ok(
                        NameView {
                            first: SegmentView::Name(token.text@),
                            middle,
                            method: None,
                        },
                    ),
                }
            } else {
                Err(
                    WalkError {
                        kind: WalkErrorKind::ExpectedIdentifierPrefix,
                        position: token.position,
                    },
                )
            },
        },
    }
}

proof fn lemma_segments_view_push(s: Seq<FunctionNameSegment>, x: FunctionNameSegment)
    ensures
        segments_view(s.push(x)) == segments_view(s).push(x@),
{
    assert(segments_view(s.push(x)) =~= segments_view(s).push(x@));
}

proof fn lemma_tokens_segments_err(s: Seq<Token>, k: int)
    requires
        0 <= k <= s.len(),
        tokens_segments(s.take(k)) is Err,
    ensures
        tokens_segments(s) == tokens_segments(s.take(k)),
    decreases s.len(),
{
    if k < s.len() {
        assert(s.drop_last().take(k) =~= s.take(k));
        lemma_tokens_segments_err(s.drop_last(), k);
    } else {
        assert(s.take(k) =~= s);
    }
}

proof fn lemma_suffixes_segments_err(s: Seq<Suffix>, k: int)
    requires
        0 <= k <= s.len(),
        suffixes_segments(s.take(k)) is Err,
    ensures
        suffixes_segments(s) == suffixes_segments(s.take(k)),
    decreases s.len(),
{
    if k < s.len() {
        assert(s.drop_last().take(k) =~= s.take(k));
        lemma_suffixes_segments_err(s.drop_last(), k);
    } else {
        assert(s.take(k) =~= s);
    }
}

fn digit_str(d: usize) -> (r: &'static str)
    requires
        d < 10,
    ensures
        r@ == seq![digit_char(d as nat)],
{
    if d == 0 {
        proof { reveal_strlit("0"); }
        "0"
    } else if d == 1 {
        proof { reveal_strlit("1"); }
        "1"
    } else if d == 2 {
        proof { reveal_strlit("2"); }
        "2"
    } else if d == 3 {
        proof { reveal_strlit("3"); }
        "3"
    } else if d == 4 {
        proof { reveal_strlit("4"); }
        "4"
    } else if d == 5 {
        proof { reveal_strlit("5"); }
        "5"
    } else if d == 6 {
        proof { reveal_strlit("6"); }
        "6"
    } else if d == 7 {
        proof { reveal_strlit("7"); }
        "7"
    } else if d == 8 {
        proof { reveal_strlit("8"); }
        "8"
    } else {
        proof { reveal_strlit("9"); }
        "9"
    }
}

/// `n` written in decimal.
pub fn decimal_string(n: usize) -> (r: String)
    ensures
        r@ == decimal(n as nat),
    decreases n,
{
    if n < 10 {
        String::from_str(digit_str(n))
    } else {
        let mut r = decimal_string(n / 10);
        r.append(digit_str(n % 10));
        r
    }
}

/// The text that a bracketed key or index stands for in a name.
pub fn expression_segment_text(e: &Expression, source: &String) -> (r: String)
    ensures
        r@ == expression_text(*e, source@),
{
    match e {
        Expression::Value(v) => match &**v {
            Value::Literal(token) => token.text.clone(),
            _ => source.clone(),
        },
        _ => source.clone(),
    }
}

impl FunctionNameSegment {
    /// The segment that `token` names; fails unless it is an identifier.
    pub fn from_token(token: &Token) -> (r: Result<FunctionNameSegment, WalkError>)
        ensures
            match token_segment(*token) {
                Ok(s) => r matches Ok(x) && x@ == s,
                Err(e) => r == Err::<FunctionNameSegment, WalkError>(e),
            },
    {
        if token.kind == TokenKind::Identifier {
            Ok(FunctionNameSegment::Name(token.text.clone()))
        } else {
            Err(WalkError { kind: WalkErrorKind::NotAnIdentifier, position: token.position })
        }
    }

    pub fn duplicate(&self) -> (r: FunctionNameSegment)
        ensures
            r@ == self@,
    {
        match self {
            FunctionNameSegment::Anonymous => FunctionNameSegment::Anonymous,
            FunctionNameSegment::Name(n) => FunctionNameSegment::Name(n.clone()),
            FunctionNameSegment::Expression(e) => FunctionNameSegment::Expression(e.clone()),
        }
    }
}

fn append_bracketed(out: &mut String, text: &String)
    ensures
        final(out)@ == old(out)@ + bracketed(text@),
{
    proof {
        reveal_strlit("[");
        reveal_strlit("]");
    }
    out.append("[");
    out.append(text.as_str());
    out.append("]");
    assert(final(out)@ =~= old(out)@ + bracketed(text@));
}

impl FunctionNameStack {
    /// Only the first segment may be anonymous.
    pub open spec fn wf(&self) -> bool {
        forall|k: int| 0 <= k < self@.middle.len() ==> !(#[trigger] self@.middle[k] is Anonymous)
    }

    pub fn new(first: FunctionNameSegment) -> (r: FunctionNameStack)
        ensures
            r@ == single_view(first@),
            r.wf(),
    {
        let r = FunctionNameStack { first, middle: Vec::new(), method: None };
        assert(segments_view(r.middle@) =~= Seq::empty());
        r
    }

    /// The name of a function that no name attaches to.
    pub fn anonymous() -> (r: FunctionNameStack)
        ensures
            r@ == anonymous_view(),
            r.wf(),
    {
        FunctionNameStack::new(FunctionNameSegment::Anonymous)
    }

    /// Appends `segment` after the middle segments.
    pub fn push(&mut self, segment: FunctionNameSegment)
        requires
            !(segment is Anonymous),
        ensures
            final(self)@ == pushed_view(old(self)@, segment@),
            old(self).wf() ==> final(self).wf(),
    {
        self.middle.push(segment);
        assert(segments_view(self.middle@) =~= segments_view(old(self).middle@).push(segment@));
    }

    /// Removes the last middle segment, if any, and returns it.
    pub fn pop(&mut self) -> (r: Option<FunctionNameSegment>)
        ensures
            old(self).wf() ==> final(self).wf(),
            old(self)@.middle.len() == 0 ==> r is None && final(self)@ == old(self)@,
            old(self)@.middle.len() > 0 ==> (r matches Some(s) && s@ == old(self)@.middle.last()
                && final(self)@ == (NameView { middle: old(self)@.middle.drop_last(), ..old(self)@ })),
    {
        let r = self.middle.pop();
        proof {
            if old(self).middle.len() > 0 {
                assert(segments_view(self.middle@) =~= segments_view(old(self).middle@).drop_last());
            } else {
                assert(segments_view(self.middle@) =~= segments_view(old(self).middle@));
            }
        }
        r
    }

    pub fn duplicate(&self) -> (r: FunctionNameStack)
        ensures
            r@ == self@,
    {
        let mut middle: Vec<FunctionNameSegment> = Vec::new();
        let mut i: usize = 0;
        while i < self.middle.len()
            invariant
                i <= self.middle.len(),
                segments_view(middle@) =~= segments_view(self.middle@.take(i as int)),
            decreases self.middle.len() - i,
        {
            let s = self.middle[i].duplicate();
            proof {
                lemma_segments_view_push(middle@, s);
                lemma_segments_view_push(self.middle@.take(i as int), self.middle@[i as int]);
                assert(self.middle@.take(i + 1) =~= self.middle@.take(i as int).push(self.middle@[i as int]));
            }
            middle.push(s);
            i = i + 1;
        }
        assert(self.middle@.take(i as int) =~= self.middle@);
        let method = match &self.method {
            Some(m) => Some(m.clone()),
            None => None,
        };
        FunctionNameStack { first: self.first.duplicate(), middle, method }
    }

    /// Whether no usable name attaches: an anonymous first segment and nothing
    /// after it.
    pub fn is_anonymous(&self) -> (r: bool)
        ensures
            r == is_anonymous_view(self@),
    {
        match self.first {
            FunctionNameSegment::Anonymous => self.middle.len() == 0 && self.method.is_none(),
            _ => false,
        }
    }

    /// The name as written: `?` for no name, else `t.get`, `x.y:z`, `t[1]`.
    pub fn render(&self) -> (r: String)
        ensures
            r@ == rendered(self@),
    {
        proof {
            reveal_strlit("?");
            reveal_strlit(".");
            reveal_strlit(".?");
            reveal_strlit(":");
        }
        let mut out = String::new();
        match &self.first {
            FunctionNameSegment::Anonymous => out.append("?"),
            FunctionNameSegment::Name(n) => out.append(n.as_str()),
            FunctionNameSegment::Expression(e) => append_bracketed(&mut out, e),
        }
        assert(out@ =~= first_text(self@.first));
        let mut i: usize = 0;
        while i < self.middle.len()
            invariant
                i <= self.middle.len(),
                out@ =~= first_text(self@.first) + middle_texts(segments_view(self.middle@.take(i as int))),
            decreases self.middle.len() - i,
        {
            proof {
                reveal_strlit(".");
                reveal_strlit(".?");
            }
            let ghost before = out@;
            let segment = &self.middle[i];
            match segment {
                FunctionNameSegment::Anonymous => {
                    out.append(".?");
                },
                FunctionNameSegment::Name(n) => {
                    out.append(".");
                    out.append(n.as_str());
                    assert(out@ =~= before + (seq!['.'] + n@));
                },
                FunctionNameSegment::Expression(e) => {
                    append_bracketed(&mut out, e);
                },
            }
            assert(out@ =~= before + middle_text(segment@));
            assert(segments_view(self.middle@.take(i + 1)).drop_last()
                =~= segments_view(self.middle@.take(i as int)));
            i = i + 1;
        }
        assert(self.middle@.take(i as int) =~= self.middle@);
        let ghost before = out@;
        match &self.method {
            Some(m) => {
                out.append(":");
                out.append(m.as_str());
            },
            None => {},
        }
        assert(out@ =~= before + method_text(self@.method));
        out
    }

    /// The one-segment name that `token` gives; fails unless it is an
    /// identifier.
    pub fn from_token(token: &Token) -> (r: Result<FunctionNameStack, WalkError>)
        ensures
            match token_segment(*token) {
                Ok(s) => r matches Ok(x) && x@ == single_view(s) && x.wf(),
                Err(e) => r == Err::<FunctionNameStack, WalkError>(e),
            },
    {
        match FunctionNameSegment::from_token(token) {
            Ok(s) => Ok(FunctionNameStack::new(s)),
            Err(e) => Err(e),
        }
    }

    /// The name of a `function a.b.c:d()` declaration: every part must be an
    /// identifier.
    pub fn from_function_name(name: &FunctionName) -> (r: Result<FunctionNameStack, WalkError>)
        ensures
            match function_name_view(*name) {
                Ok(n) => r matches Ok(x) && x@ == n && x.wf(),
                Err(e) => r == Err::<FunctionNameStack, WalkError>(e),
            },
    {
        let first = match FunctionNameSegment::from_token(&name.first) {
            Ok(s) => s,
            Err(e) => return Err(e),
        };
        let mut middle: Vec<FunctionNameSegment> = Vec::new();
        let mut i: usize = 0;
        assert(name.rest@.take(0) =~= Seq::<Token>::empty());
        assert(segments_view(middle@) =~= Seq::<SegmentView>::empty());
        while i < name.rest.len()
            invariant
                i <= name.rest.len(),
                token_segment(name.first) is Ok,
                tokens_segments(name.rest@.take(i as int)) == Ok::<Seq<SegmentView>, WalkError>(
                    segments_view(middle@),
                ),
                forall|k: int| 0 <= k < middle@.len() ==> #[trigger] middle@[k] is Name,
            decreases name.rest.len() - i,
        {
            assert(name.rest@.take(i + 1).drop_last() =~= name.rest@.take(i as int));
            assert(name.rest@.take(i + 1).last() == name.rest@[i as int]);
            match FunctionNameSegment::from_token(&name.rest[i]) {
                Ok(s) => {
                    proof { lemma_segments_view_push(middle@, s); }
                    middle.push(s);
                },
                Err(e) => {
                    proof { lemma_tokens_segments_err(name.rest@, i + 1); }
                    return Err(e);
                },
            }
            i = i + 1;
        }
        assert(name.rest@.take(i as int) =~= name.rest@);
        let method = match &name.method {
            None => None,
            Some(m) => match FunctionNameSegment::from_token(m) {
                Ok(_) => Some(m.text.clone()),
                Err(e) => return Err(e),
            },
        };
        Ok(FunctionNameStack { first, middle, method })
    }

    /// The name that an assignment target gives: a plain name followed by
    /// `.name` and `[expression]` indexes.
    pub fn from_var(var: &Var) -> (r: Result<FunctionNameStack, WalkError>)
        ensures
            match var_name_view(*var) {
                Ok(n) => r matches Ok(x) && x@ == n && x.wf(),
                Err(e) => r == Err::<FunctionNameStack, WalkError>(e),
            },
    {
        match var {
            Var::Name(token) => FunctionNameStack::from_token(token),
            Var::Expression(var_expr) => {
                let token = match &var_expr.prefix {
                    Prefix::Expression(e) => {
                        return Err(
                            WalkError {
                                kind: WalkErrorKind::ExpectedIdentifierPrefix,
                                position: e.first_position(),
                            },
                        );
                    },
                    Prefix::Name(token) => token,
                };
                if token.kind != TokenKind::Identifier {
                    return Err(
                        WalkError {
                            kind: WalkErrorKind::ExpectedIdentifierPrefix,
                            position: token.position,
                        },
                    );
                }
                let mut stack = FunctionNameStack::new(FunctionNameSegment::Name(token.text.clone()));
                let mut i: usize = 0;
                assert(var_expr.suffixes@.take(0) =~= Seq::<Suffix>::empty());
                while i < var_expr.suffixes.len()
                    invariant
                        i <= var_expr.suffixes.len(),
                        *var == Var::Expression(*var_expr),
                        var_expr.prefix == Prefix::Name(*token),
                        token.kind == TokenKind::Identifier,
                        stack@.first == SegmentView::Name(token.text@),
                        stack.wf(),
                        stack@.method is None,
                        suffixes_segments(var_expr.suffixes@.take(i as int)) == Ok::<
                            Seq<SegmentView>,
                            WalkError,
                        >(stack@.middle),
                    decreases var_expr.suffixes.len() - i,
                {
                    assert(var_expr.suffixes@.take(i + 1).drop_last() =~= var_expr.suffixes@.take(i as int));
                    assert(var_expr.suffixes@.take(i + 1).last() == var_expr.suffixes@[i as int]);
                    let segment = match &var_expr.suffixes[i] {
                        Suffix::Call(call) => {
                            let err = WalkError {
                                kind: WalkErrorKind::UnexpectedCall,
                                position: call.first_position(),
                            };
                            proof {
                                assert(suffixes_segments(var_expr.suffixes@.take(i + 1))
                                    == Err::<Seq<SegmentView>, WalkError>(err));
                                lemma_suffixes_segments_err(var_expr.suffixes@, i + 1);
                            }
                            return Err(err);
                        },
                        Suffix::Index(Index::Brackets { expression, source }) => {
                            FunctionNameSegment::Expression(expression_segment_text(expression, source))
                        },
                        Suffix::Index(Index::Dot { name }) => {
                            if name.kind != TokenKind::Identifier {
                                let err = WalkError {
                                    kind: WalkErrorKind::ExpectedIdentifierSuffix,
                                    position: name.position,
                                };
                                proof {
                                    assert(suffixes_segments(var_expr.suffixes@.take(i + 1))
                                        == Err::<Seq<SegmentView>, WalkError>(err));
                                    lemma_suffixes_segments_err(var_expr.suffixes@, i + 1);
                                }
                                return Err(err);
                            }
                            FunctionNameSegment::Name(name.text.clone())
                        },
                    };
                    stack.push(segment);
                    i = i + 1;
                }
                assert(var_expr.suffixes@.take(i as int) =~= var_expr.suffixes@);
                Ok(stack)
            },
        }
    }
}

} // verus!
