//! Source identity and span types shared by diagnostics and syntax trees.

use vstd::prelude::*;

verus! {

/// Stable identifier for a source file or virtual document.
#[derive(Clone, Debug, PartialEq, Eq, Hash, PartialOrd, Ord)]
pub struct SourceId(String);

impl View for SourceId {
    type V = Seq<char>;

    closed spec fn view(&self) -> Seq<char> {
        self.0@
    }
}

impl SourceId {
    /// Creates a source identifier from a path, URI, or virtual name.
    pub fn new(id: &str) -> (r: SourceId)
        ensures
            r@ == id@,
    {
        SourceId(id.to_owned())
    }

    /// Returns the source identifier as text.
    pub fn as_str(&self) -> (r: &str)
        ensures
            r@ == self@,
    {
        self.0.as_str()
    }

    /// Returns the identifier's text as an owned string.
    pub fn to_text(&self) -> (r: String)
        ensures
            r@ == self@,
    {
        self.0.clone()
    }

    /// A second identifier with the same text.
    pub fn duplicate(&self) -> (r: SourceId)
        ensures
            r@ == self@,
    {
        SourceId(self.0.clone())
    }
}

/// Half-open byte range in a UTF-8 source document.
#[derive(Clone, Copy, Debug, Default, PartialEq, Eq, Structural, Hash)]
pub struct TextRange {
    /// First byte included in the range.
    pub start: usize,
    /// First byte after the range.
    pub end: usize,
}

impl TextRange {
    /// Creates a new half-open range.
    pub fn new(start: usize, end: usize) -> (r: TextRange)
        requires
            start <= end,
        ensures
            r.start == start,
            r.end == end,
    {
        TextRange { start, end }
    }

    /// Returns the range length in bytes (zero when `end` precedes `start`).
    pub fn len(self) -> (r: usize)
        ensures
            r == (if self.start <= self.end { self.end - self.start } else { 0 }),
    {
        if self.start <= self.end {
            self.end - self.start
        } else {
            0
        }
    }

    /// Returns true when the range contains no bytes.
    pub fn is_empty(self) -> (r: bool)
        ensures
            r == (self.start == self.end),
    {
        self.start == self.end
    }
}

/// Source-qualified text span.
#[derive(Clone, Debug, PartialEq, Eq, Hash)]
pub struct TextSpan {
    /// Source file or virtual document.
    pub source: SourceId,
    /// Byte range in the source.
    pub range: TextRange,
}

/// What a span denotes: the source's text and a byte range.
pub struct SpanView {
    pub source: Seq<char>,
    pub range: TextRange,
}

impl View for TextSpan {
    type V = SpanView;

    open spec fn view(&self) -> SpanView {
        SpanView { source: self.source@, range: self.range }
    }
}

impl TextSpan {
    /// Creates a new source-qualified span.
    pub fn new(source: SourceId, range: TextRange) -> (r: TextSpan)
        ensures
            r@ == (SpanView { source: source@, range }),
    {
        TextSpan { source, range }
    }

    /// A second span with the same source text and range.
    pub fn duplicate(&self) -> (r: TextSpan)
        ensures
            r@ == self@,
    {
        TextSpan { source: self.source.duplicate(), range: self.range }
    }
}

} // verus!
