//! The events of a search stream.

use vstd::prelude::*;

verus! {

/// One search result. Its score is kept as the bits of a single-precision
/// number.
#[derive(Debug, Clone, PartialEq, Eq)]
pub struct SearchResult {
    pub title: String,
    pub url: String,
    pub snippet_html: String,
    pub source: String,
    pub timestamp: i64,
    pub score_bits: u32,
}

/// One event of a search stream.
#[derive(Debug, Clone, PartialEq, Eq)]
pub enum SseEvent {
    /// A result from any source.
    Result(SearchResult),
    /// All results of the source have been sent.
    SourceComplete { source: String },
    /// The stream has ended.
    Done,
}

impl SseEvent {
    /// The name under which the event is sent.
    pub open spec fn name_text(self) -> Seq<char> {
        match self {
            SseEvent::Result(_) => "result"@,
            SseEvent::SourceComplete { .. } => "source_complete"@,
            SseEvent::Done => "done"@,
        }
    }

    /// The name under which the event is sent.
    pub fn name(&self) -> (r: &'static str)
        ensures
            r@ == self.name_text(),
    {
        match self {
            SseEvent::Result(_) => "result",
            SseEvent::SourceComplete { .. } => "source_complete",
            SseEvent::Done => "done",
        }
    }
}

/// The three sorts of events have three names.
pub proof fn events_are_told_apart(event: SseEvent)
    ensures
        event is Result ==> event.name_text() == "result"@,
        event is SourceComplete ==> event.name_text() == "source_complete"@,
        event is Done ==> event.name_text() == "done"@,
{
}

} // verus!
