use emit::document::{AnalysisRequest, AnalysisResult, DocumentAnalysis, PendingDiagnostics};

#[test]
fn replacing_pending_diagnostics_cancels_previous_run() {
    let old_token = 1;
    let new_token = 2;
    let mut runs = PendingDiagnostics::new();
    let mut cancelled = Vec::new();
    cancelled.extend(runs.set(old_token));
    cancelled.extend(runs.set(new_token));
    assert_eq!(cancelled, [old_token]);
    assert_eq!(runs.pending, Some(new_token));
}

#[test]
fn aborting_pending_diagnostics_cancels_the_run() {
    let mut runs = PendingDiagnostics::new();
    assert_eq!(runs.set(7), None);
    assert_eq!(runs.abort(), Some(7));
    assert_eq!(runs.pending, None);
    assert_eq!(runs.abort(), None);
}

#[test]
fn finishing_clears_only_the_scheduled_run() {
    let mut runs = PendingDiagnostics::new();
    runs.set(3);
    runs.finish(4);
    assert_eq!(runs.pending, Some(3));
    runs.finish(3);
    assert_eq!(runs.pending, None);
}

#[test]
fn invalidation_rejects_an_in_flight_analysis() {
    let mut document = DocumentAnalysis::new();
    let AnalysisRequest::Required(revision) = document.request() else {
        panic!("new document should require analysis");
    };
    document.invalidate();
    assert_ne!(document.revision, revision);
    assert!(!document.update(revision, 10, false));
    assert_eq!(document.result, AnalysisResult::Empty);
}

#[test]
fn analyses_are_cached_kept_and_dropped_as_the_text_changes() {
    let mut document = DocumentAnalysis::new();
    let AnalysisRequest::Required(revision) = document.request() else {
        panic!("new document should require analysis");
    };
    assert!(document.update(revision, 1, false));
    assert_eq!(document.request(), AnalysisRequest::Cached(1));
    document.invalidate();
    assert_eq!(document.result, AnalysisResult::Stale(1));
    assert_eq!(document.last_valid(), Some(1));
    let AnalysisRequest::Required(revision) = document.request() else {
        panic!("an edited document should require analysis");
    };
    assert!(document.update(revision, 2, true));
    assert_eq!(document.result, AnalysisResult::Invalid { current: 2, last_valid: Some(1) });
    assert_eq!(document.current(), Some(2));
    assert_eq!(document.last_valid(), Some(1));
    document.invalidate();
    assert_eq!(document.result, AnalysisResult::Stale(1));
}

#[test]
fn revisions_wrap_around_without_repeating_the_last() {
    let mut document = DocumentAnalysis { revision: u64::MAX, result: AnalysisResult::Empty };
    document.invalidate();
    assert_eq!(document.revision, 0);
}

#[test]
fn closing_a_document_cancels_pending_diagnostics() {
    let mut document = emit::document::DocumentState::new("", 1);
    assert_eq!(document.set_pending_diagnostics(5), None);
    assert_eq!(document.abort_pending_diagnostics(), Some(5));
    assert_eq!(document.diagnostics.pending, None);
}

#[test]
fn editing_a_document_reindexes_and_invalidates() {
    let mut document = emit::document::DocumentState::new("a\nb", 1);
    let AnalysisRequest::Required(revision) = document.request_analysis() else {
        panic!("new document should require analysis");
    };
    assert!(document.cache_analysis(revision, 4, false));
    assert_eq!(document.request_analysis(), AnalysisRequest::Cached(4));
    document.update("a\nbc\nd", 2);
    assert_eq!(document.content(), "a\nbc\nd");
    assert_eq!(document.version, 2);
    assert_eq!(document.last_valid_analysis(), Some(4));
    assert!(!document.cache_analysis(revision, 6, false));
    assert_eq!(
        document.line_index.offset_to_position(5),
        emit::position::Position { line: 2, character: 0 }
    );
}
