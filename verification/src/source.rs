use vstd::prelude::*;
use vstd::string::StringSliceAdditionalSpecFns;
use vstd::utf8::*;
use crate::span::CodeSpan;

verus! {

/// One source buffer: an interactive buffer, a literal string, or a file
/// with its path and contents.  Immutable once created.
#[derive(Debug)]
pub enum Source {
    Stdin(String),
    Literal(String),
    File { path: String, contents: String },
}

impl Source {
    /// The text of the buffer, whatever its origin.
    pub open spec fn spec_text(&self) -> Seq<char> {
        match self {
            Source::Stdin(s) => s@,
            Source::Literal(s) => s@,
            Source::File { contents, .. } => contents@,
        }
    }

    /// The UTF-8 bytes of the buffer's text; spans index into these.
    pub open spec fn spec_bytes(&self) -> Seq<u8> {
        encode_utf8(self.spec_text())
    }

    /// Borrow the text of the buffer.
    pub fn text(&self) -> (r: &str)
        ensures
            r@ == self.spec_text(),
            r.spec_bytes() == self.spec_bytes(),
    {
        match self {
            Source::Stdin(s) => s.as_str(),
            Source::Literal(s) => s.as_str(),
            Source::File { contents, .. } => contents.as_str(),
        }
    }
}

/// Append-only ordered collection of sources.  The index of a source is its
/// stable id; ids are never reused.
pub struct SourceSequence {
    pub sources: Vec<Source>,
}

impl SourceSequence {
    /// An empty registry.
    pub fn new() -> (r: Self)
        ensures
            r.sources@.len() == 0,
    {
        SourceSequence { sources: Vec::new() }
    }

    /// Register a source; returns its stable id, the next free index.
    pub fn add(&mut self, source: Source) -> (id: usize)
        ensures
            final(self).sources@ == old(self).sources@.push(source),
            id == old(self).sources@.len(),
    {
        let index = self.sources.len();
        self.sources.push(source);
        index
    }

    /// A span is addressable in this registry when its source id is known
    /// and its byte offsets are ordered, in range, and fall on character
    /// boundaries of that source's text.
    pub open spec fn span_valid(&self, span: CodeSpan) -> bool {
        &&& span.src_id < self.sources@.len()
        &&& span.start <= span.end <= self.sources@[span.src_id as int].spec_bytes().len()
        &&& is_char_boundary(self.sources@[span.src_id as int].spec_bytes(), span.start as int)
        &&& is_char_boundary(self.sources@[span.src_id as int].spec_bytes(), span.end as int)
    }

    /// Slice the text addressed by a span.  Supplying a valid span is the
    /// caller's obligation, not a recoverable runtime path.
    pub fn get_text(&self, span: CodeSpan) -> (r: &str)
        requires
            self.span_valid(span),
        ensures
            r.spec_bytes() == self.sources@[span.src_id as int].spec_bytes().subrange(
                span.start as int,
                span.end as int,
            ),
    {
        broadcast use group_utf8_lib;

        let text = self.sources[span.src_id].text();
        let ghost bytes = text.spec_bytes();
        assert(valid_utf8(bytes));
        let (_, suffix) = text.split_at(span.start);
        let ghost sbytes = suffix.spec_bytes();
        assert(valid_utf8(sbytes));
        let ghost rel = span.end - span.start;
        assert(is_char_boundary(sbytes, rel)) by {
            if rel == 0 {
            } else if span.end == bytes.len() {
                assert(sbytes.len() == rel);
            } else {
                assert(sbytes[rel] == bytes[span.end as int]);
                assert(!is_continuation_byte(bytes[span.end as int]));
            }
        }
        let (mid, _) = suffix.split_at(span.end - span.start);
        assert(mid.spec_bytes() =~= bytes.subrange(span.start as int, span.end as int));
        mid
    }
}

} // verus!
