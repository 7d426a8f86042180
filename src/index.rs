//! The span index of one source file: which function encloses a line.
use vstd::prelude::*;
use crate::names::{is_anonymous_view, rendered, WalkError};
use crate::syntax::Block;
use crate::walk::{block_spans, gather_function_line_spans, spans_view, FunctionSpan, SpanView};

verus! {

/// One indexed function: its lines and its name as written.
pub struct IndexEntry {
    pub start: usize,
    pub end: usize,
    pub name: String,
}

/// What an [`IndexEntry`] holds.
pub struct EntryView {
    pub start: usize,
    pub end: usize,
    pub name: Seq<char>,
}

impl View for IndexEntry {
    type V = EntryView;

    open spec fn view(&self) -> EntryView {
        EntryView { start: self.start, end: self.end, name: self.name@ }
    }
}

/// The index entry of a span: its lines and its rendered name.
pub open spec fn entry_of(s: SpanView) -> EntryView {
    EntryView { start: s.start, end: s.end, name: rendered(s.name) }
}

pub open spec fn entries_of(s: Seq<SpanView>) -> Seq<EntryView> {
    s.map_values(|x: SpanView| entry_of(x))
}

pub open spec fn entry_contains(e: EntryView, line: usize) -> bool {
    e.start <= line <= e.end
}

pub open spec fn extent(e: EntryView) -> int {
    e.end - e.start
}

/// Entry `k` is the one a query for `line` answers with: it contains the
/// line, no entry that contains it is smaller, and every later one that
/// contains it is larger. Among entries of equal extent the last wins: a
/// nested function comes after the one enclosing it.
pub open spec fn is_innermost(es: Seq<EntryView>, line: usize, k: int) -> bool {
    &&& 0 <= k < es.len()
    &&& entry_contains(es[k], line)
    &&& forall|j: int| 0 <= j < es.len() && entry_contains(es[j], line)
        ==> extent(es[k]) <= extent(#[trigger] es[j])
    &&& forall|j: int| k < j < es.len() && entry_contains(es[j], line)
        ==> extent(es[k]) < extent(#[trigger] es[j])
}

/// The spans of one source file, queryable by line.
pub struct SpanIndex {
    entries: Vec<IndexEntry>,
}

impl View for SpanIndex {
    type V = Seq<EntryView>;

    closed spec fn view(&self) -> Seq<EntryView> {
        self.entries@.map_values(|x: IndexEntry| x@)
    }
}

impl FunctionSpan {
    /// The span's name as written, or `None` for a function that no name
    /// attaches to.
    pub fn display_name(&self) -> (r: Option<String>)
        ensures
            r is None <==> is_anonymous_view(self.name@),
            r matches Some(s) ==> s@ == rendered(self.name@),
    {
        if self.name.is_anonymous() {
            None
        } else {
            Some(self.name.render())
        }
    }
}

impl SpanIndex {
    /// Indexes `spans`, in the order given.
    pub fn new(spans: &Vec<FunctionSpan>) -> (r: SpanIndex)
        ensures
            r@ == entries_of(spans_view(spans@)),
    {
        let mut entries: Vec<IndexEntry> = Vec::new();
        let mut i: usize = 0;
        while i < spans.len()
            invariant
                i <= spans.len(),
                entries@.map_values(|x: IndexEntry| x@) =~= entries_of(
                    spans_view(spans@.take(i as int)),
                ),
            decreases spans.len() - i,
        {
            let span = &spans[i];
            let entry = IndexEntry { start: span.start, end: span.end, name: span.name.render() };
            entries.push(entry);
            assert(spans@.take(i + 1) =~= spans@.take(i as int).push(spans@[i as int]));
            assert(entries_of(spans_view(spans@.take(i + 1))) =~= entries_of(
                spans_view(spans@.take(i as int)),
            ).push(entry@));
            i = i + 1;
        }
        assert(spans@.take(i as int) =~= spans@);
        SpanIndex { entries }
    }

    /// Walks `block` and indexes the spans found, or fails as the walk does.
    pub fn from_block(block: &Block) -> (r: Result<SpanIndex, WalkError>)
        ensures
            match block_spans(*block) {
                Ok(s) => r matches Ok(index) && index@ == entries_of(s),
                Err(e) => r matches Err(x) && x == e,
            },
    {
        let mut spans: Vec<FunctionSpan> = Vec::new();
        match gather_function_line_spans(block, &mut spans) {
            Ok(()) => {
                assert(spans_view(Seq::<FunctionSpan>::empty()) =~= Seq::<SpanView>::empty());
                assert(Seq::<SpanView>::empty() + block_spans(*block)->Ok_0 =~= block_spans(
                    *block,
                )->Ok_0);
                Ok(SpanIndex::new(&spans))
            },
            Err(e) => Err(e),
        }
    }

    /// How many functions are indexed.
    pub fn len(&self) -> (r: usize)
        ensures
            r == self@.len(),
    {
        self.entries.len()
    }

    /// The name of the innermost function that encloses `line`, or `None`
    /// when no function does (the line is top-level chunk code).
    pub fn enclosing_function_name(&self, line: usize) -> (r: Option<&str>)
        ensures
            r is None <==> forall|k: int| 0 <= k < self@.len() ==> !entry_contains(#[trigger] self@[k], line),
            r matches Some(name) ==> exists|k: int| is_innermost(self@, line, k) && name@ == self@[k].name,
    {
        let ghost es = self@;
        let mut best: Option<usize> = None;
        let mut i: usize = 0;
        while i < self.entries.len()
            invariant
                es == self@,
                es.len() == self.entries@.len(),
                forall|j: int| 0 <= j < es.len() ==> #[trigger] es[j] == self.entries@[j]@,
                i <= self.entries.len(),
                best is None <==> forall|j: int| 0 <= j < i ==> !entry_contains(#[trigger] es[j], line),
                best matches Some(b) ==> {
                    &&& b < i
                    &&& entry_contains(es[b as int], line)
                    &&& forall|j: int| 0 <= j < i && entry_contains(es[j], line)
                        ==> extent(es[b as int]) <= extent(#[trigger] es[j])
                    &&& forall|j: int| b < j < i && entry_contains(es[j], line)
                        ==> extent(es[b as int]) < extent(#[trigger] es[j])
                },
            decreases self.entries.len() - i,
        {
            let e = &self.entries[i];
            if e.start <= line && line <= e.end {
                match best {
                    None => {
                        best = Some(i);
                    },
                    Some(b) => {
                        let c = &self.entries[b];
                        if e.end - e.start <= c.end - c.start {
                            best = Some(i);
                        }
                    },
                }
            }
            proof {
                if best is Some {
                    assert(entry_contains(es[best->0 as int], line));
                }
            }
            i = i + 1;
        }
        match best {
            None => None,
            Some(b) => {
                assert(is_innermost(es, line, b as int));
                Some(self.entries[b].name.as_str())
            },
        }
    }
}

} // verus!
