//! What an open document remembers of its analyses, and of the diagnostics
//! run scheduled for it.
//!
//! Snapshots and diagnostics runs are named by integers: the server keeps
//! the snapshot, or the cancellation flag, that each integer stands for.
//! An analysis is asked for under a revision; editing the document moves the
//! revision on, so a result computed for an older text is refused.

use crate::position::{bytes_of, LineIndex};
use vstd::prelude::*;

verus! {

/// The analyses a document holds, by snapshot number.
#[derive(Debug, Clone, Copy, PartialEq, Eq, Structural)]
pub enum AnalysisResult {
    /// Nothing analysed yet, or nothing valid left after an edit.
    Empty,
    /// Edited since its last valid analysis, which is kept for lookups.
    Stale(u64),
    /// Analysed, without parse errors.
    Valid(u64),
    /// Analysed with parse errors; the last valid analysis is kept.
    Invalid { current: u64, last_valid: Option<u64> },
}

/// What a caller has to do to get the document's analysis.
#[derive(Debug, Clone, Copy, PartialEq, Eq, Structural)]
pub enum AnalysisRequest {
    /// The analysis of the current text, already there.
    Cached(u64),
    /// Analyse the text, and hand the result back under this revision.
    Required(u64),
}

/// A document's analyses and the revision of its text.
#[derive(Debug, Clone, Copy, PartialEq, Eq, Structural)]
pub struct DocumentAnalysis {
    pub revision: u64,
    pub result: AnalysisResult,
}

/// The analysis of the current text, if there is one.
pub open spec fn current_of(result: AnalysisResult) -> Option<u64> {
    match result {
        AnalysisResult::Valid(snapshot) => Some(snapshot),
        AnalysisResult::Invalid { current, .. } => Some(current),
        AnalysisResult::Empty | AnalysisResult::Stale(_) => None,
    }
}

/// The last analysis without parse errors, of this text or an older one.
pub open spec fn last_valid_of(result: AnalysisResult) -> Option<u64> {
    match result {
        AnalysisResult::Stale(snapshot) | AnalysisResult::Valid(snapshot) => Some(snapshot),
        AnalysisResult::Invalid { last_valid, .. } => last_valid,
        AnalysisResult::Empty => None,
    }
}

/// The analyses left once the text changes: the last valid one, as stale.
pub open spec fn invalidated(result: AnalysisResult) -> AnalysisResult {
    match last_valid_of(result) {
        Some(snapshot) => AnalysisResult::Stale(snapshot),
        None => AnalysisResult::Empty,
    }
}

/// The analyses after a result for the current text arrives.
pub open spec fn with_result(result: AnalysisResult, snapshot: u64, has_parse_errors: bool) -> AnalysisResult {
    if has_parse_errors {
        AnalysisResult::Invalid { current: snapshot, last_valid: last_valid_of(result) }
    } else {
        AnalysisResult::Valid(snapshot)
    }
}

/// The revision that follows `revision`.
pub open spec fn next_revision(revision: u64) -> u64 {
    if revision == u64::MAX {
        0
    } else {
        (revision + 1) as u64
    }
}

impl DocumentAnalysis {
    /// A document with nothing analysed.
    pub fn new() -> (analysis: Self)
        ensures
            analysis.result == AnalysisResult::Empty,
            analysis.revision == 0,
    {
        DocumentAnalysis { revision: 0, result: AnalysisResult::Empty }
    }

    /// The analysis of the current text, if there is one.
    pub fn current(&self) -> (snapshot: Option<u64>)
        ensures
            snapshot == current_of(self.result),
    {
        match self.result {
            AnalysisResult::Valid(snapshot) | AnalysisResult::Invalid { current: snapshot, .. } => Some(snapshot),
            AnalysisResult::Empty | AnalysisResult::Stale(_) => None,
        }
    }

    /// The last analysis without parse errors.
    pub fn last_valid(&self) -> (snapshot: Option<u64>)
        ensures
            snapshot == last_valid_of(self.result),
    {
        match self.result {
            AnalysisResult::Stale(snapshot) | AnalysisResult::Valid(snapshot) => Some(snapshot),
            AnalysisResult::Invalid { last_valid, .. } => last_valid,
            AnalysisResult::Empty => None,
        }
    }

    /// The analysis of the current text, or the revision to analyse it under.
    pub fn request(&self) -> (request: AnalysisRequest)
        ensures
            request == (match current_of(self.result) {
                Some(snapshot) => AnalysisRequest::Cached(snapshot),
                None => AnalysisRequest::Required(self.revision),
            }),
    {
        match self.current() {
            Some(snapshot) => AnalysisRequest::Cached(snapshot),
            None => AnalysisRequest::Required(self.revision),
        }
    }

    /// The text changed: a new revision, and only the last valid analysis
    /// kept, as stale.
    pub fn invalidate(&mut self)
        ensures
            final(self).revision == next_revision(old(self).revision),
            final(self).result == invalidated(old(self).result),
    {
        self.revision = self.revision.wrapping_add(1);
        self.result = match self.last_valid() {
            Some(snapshot) => AnalysisResult::Stale(snapshot),
            None => AnalysisResult::Empty,
        };
    }

    /// Stores an analysis made under `revision`, unless the text has changed
    /// since; says whether it was stored.
    pub fn update(&mut self, revision: u64, snapshot: u64, has_parse_errors: bool) -> (stored: bool)
        ensures
            stored == (revision == old(self).revision),
            final(self).revision == old(self).revision,
            final(self).result == if stored {
                with_result(old(self).result, snapshot, has_parse_errors)
            } else {
                old(self).result
            },
    {
        if revision != self.revision {
            return false;
        }
        if has_parse_errors {
            self.result = AnalysisResult::Invalid { current: snapshot, last_valid: self.last_valid() };
        } else {
            self.result = AnalysisResult::Valid(snapshot);
        }
        true
    }
}

/// The diagnostics run scheduled for a document, by run number.
#[derive(Debug, Clone, Copy, PartialEq, Eq, Structural)]
pub struct PendingDiagnostics {
    pub pending: Option<u64>,
}

impl PendingDiagnostics {
    /// No run scheduled.
    pub fn new() -> (runs: Self)
        ensures
            runs.pending is None,
    {
        PendingDiagnostics { pending: None }
    }

    /// Forgets the scheduled run and hands it back, to be cancelled.
    pub fn abort(&mut self) -> (cancel: Option<u64>)
        ensures
            cancel == old(self).pending,
            final(self).pending is None,
    {
        let cancel = self.pending;
        self.pending = None;
        cancel
    }

    /// Schedules `token`, handing back the run it replaces, to be cancelled.
    pub fn set(&mut self, token: u64) -> (cancel: Option<u64>)
        ensures
            cancel == old(self).pending,
            final(self).pending == Some(token),
    {
        let cancel = self.abort();
        self.pending = Some(token);
        cancel
    }

    /// The run `token` has finished: it is no longer pending, if it was the
    /// one scheduled.
    pub fn finish(&mut self, token: u64)
        ensures
            final(self).pending == if old(self).pending == Some(token) {
                None
            } else {
                old(self).pending
            },
    {
        if self.pending == Some(token) {
            self.pending = None;
        }
    }
}

/// The analysis an edit leaves behind.
pub open spec fn after_edit(analysis: DocumentAnalysis) -> DocumentAnalysis {
    DocumentAnalysis { revision: next_revision(analysis.revision), result: invalidated(analysis.result) }
}

/// An edit refuses every analysis that was asked for before it: the
/// revision it was asked under is no longer the document's.
pub proof fn law_edit_rejects_an_in_flight_analysis(analysis: DocumentAnalysis)
    ensures
        after_edit(analysis).revision != analysis.revision,
{
}

/// After an edit the document has to be analysed again, and until then the
/// last valid analysis is still at hand; a stored result is what the next
/// request is served, and parse errors never cost the last valid analysis.
pub proof fn law_analyses_survive_as_promised(result: AnalysisResult, snapshot: u64, has_parse_errors: bool)
    ensures
        current_of(invalidated(result)) is None,
        last_valid_of(invalidated(result)) == last_valid_of(result),
        current_of(with_result(result, snapshot, has_parse_errors)) == Some(snapshot),
        has_parse_errors ==> last_valid_of(with_result(result, snapshot, has_parse_errors)) == last_valid_of(result),
        !has_parse_errors ==> last_valid_of(with_result(result, snapshot, has_parse_errors)) == Some(snapshot),
{
}

} // verus!

verus! {

/// An open document: its text indexed by line, the version the editor gave
/// it, its analyses and its scheduled diagnostics run.
pub struct DocumentState {
    pub line_index: LineIndex,
    pub version: i32,
    pub analysis: DocumentAnalysis,
    pub diagnostics: PendingDiagnostics,
}

impl DocumentState {
    /// A freshly opened document, nothing analysed and nothing scheduled.
    pub fn new(content: &str, version: i32) -> (document: Self)
        requires
            bytes_of(content@) <= u32::MAX,
        ensures
            document.line_index@ == content@,
            document.version == version,
            document.analysis.result == AnalysisResult::Empty,
            document.diagnostics.pending is None,
    {
        DocumentState {
            line_index: LineIndex::new(content),
            version,
            analysis: DocumentAnalysis::new(),
            diagnostics: PendingDiagnostics::new(),
        }
    }

    /// The editor sent new text: it is indexed, the version taken, and the
    /// analyses made for the old text invalidated.
    pub fn update(&mut self, content: &str, version: i32)
        requires
            bytes_of(content@) <= u32::MAX,
        ensures
            final(self).line_index@ == content@,
            final(self).version == version,
            final(self).analysis.revision == next_revision(old(self).analysis.revision),
            final(self).analysis.result == invalidated(old(self).analysis.result),
            final(self).diagnostics == old(self).diagnostics,
    {
        self.line_index = LineIndex::new(content);
        self.version = version;
        self.analysis.invalidate();
    }

    /// The document's text.
    pub fn content(&self) -> (text: &str)
        ensures
            text@ == self.line_index@,
    {
        self.line_index.source()
    }

    /// The analysis of the current text, or the revision to make it under.
    pub fn request_analysis(&self) -> (request: AnalysisRequest)
        ensures
            request == (match current_of(self.analysis.result) {
                Some(snapshot) => AnalysisRequest::Cached(snapshot),
                None => AnalysisRequest::Required(self.analysis.revision),
            }),
    {
        self.analysis.request()
    }

    /// The last analysis without parse errors.
    pub fn last_valid_analysis(&self) -> (snapshot: Option<u64>)
        ensures
            snapshot == last_valid_of(self.analysis.result),
    {
        self.analysis.last_valid()
    }

    /// Stores an analysis made under `revision`, unless the text changed
    /// since; says whether it was stored.
    pub fn cache_analysis(&mut self, revision: u64, snapshot: u64, has_parse_errors: bool) -> (stored: bool)
        ensures
            stored == (revision == old(self).analysis.revision),
            final(self).analysis.revision == old(self).analysis.revision,
            final(self).analysis.result == if stored {
                with_result(old(self).analysis.result, snapshot, has_parse_errors)
            } else {
                old(self).analysis.result
            },
            final(self).line_index == old(self).line_index,
            final(self).version == old(self).version,
            final(self).diagnostics == old(self).diagnostics,
    {
        self.analysis.update(revision, snapshot, has_parse_errors)
    }

    /// Something the analyses depend on changed: they are invalidated.
    pub fn invalidate_analysis(&mut self)
        ensures
            final(self).analysis.revision == next_revision(old(self).analysis.revision),
            final(self).analysis.result == invalidated(old(self).analysis.result),
            final(self).line_index == old(self).line_index,
            final(self).version == old(self).version,
            final(self).diagnostics == old(self).diagnostics,
    {
        self.analysis.invalidate();
    }

    /// Forgets the scheduled diagnostics run, handing it back to be
    /// cancelled; closing the document does this.
    pub fn abort_pending_diagnostics(&mut self) -> (cancel: Option<u64>)
        ensures
            cancel == old(self).diagnostics.pending,
            final(self).diagnostics.pending is None,
            final(self).analysis == old(self).analysis,
            final(self).line_index == old(self).line_index,
            final(self).version == old(self).version,
    {
        self.diagnostics.abort()
    }

    /// Schedules the run `token`, handing back the run it replaces, to be
    /// cancelled.
    pub fn set_pending_diagnostics(&mut self, token: u64) -> (cancel: Option<u64>)
        ensures
            cancel == old(self).diagnostics.pending,
            final(self).diagnostics.pending == Some(token),
            final(self).analysis == old(self).analysis,
            final(self).line_index == old(self).line_index,
            final(self).version == old(self).version,
    {
        self.diagnostics.set(token)
    }

    /// The run `token` has finished.
    pub fn finish_diagnostics(&mut self, token: u64)
        ensures
            final(self).diagnostics.pending == if old(self).diagnostics.pending == Some(token) {
                None
            } else {
                old(self).diagnostics.pending
            },
            final(self).analysis == old(self).analysis,
            final(self).line_index == old(self).line_index,
            final(self).version == old(self).version,
    {
        self.diagnostics.finish(token)
    }
}

} // verus!
