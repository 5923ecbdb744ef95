use displaydoc::MetadataEntry;
use displaydoc::NormalizeError;
use displaydoc::ScanResult;
use displaydoc::SpanRef;
use displaydoc::normalize;

fn doc(text: &str, id: usize) -> MetadataEntry {
    MetadataEntry::Doc { literal: Some(text.to_string()), span: SpanRef { id } }
}

fn relaxed(on: bool) -> ScanResult {
    ScanResult { relaxed_mode: on }
}

#[test]
fn empty_metadata_yields_none() {
    let entries: Vec<MetadataEntry> = Vec::new();
    assert!(matches!(normalize(&entries, &relaxed(false)), Ok(None)));
    assert!(matches!(normalize(&entries, &relaxed(true)), Ok(None)));
}

#[test]
fn non_doc_entries_yield_none() {
    let entries = vec![MetadataEntry::Other, MetadataEntry::RelaxedMarker];
    assert!(matches!(normalize(&entries, &relaxed(false)), Ok(None)));
    assert!(matches!(normalize(&entries, &relaxed(true)), Ok(None)));
}

#[test]
fn single_doc_succeeds_either_mode() {
    let entries = vec![doc("hello", 0)];
    let off = normalize(&entries, &relaxed(false)).unwrap().unwrap();
    assert_eq!(off.text, "hello");
    let on = normalize(&entries, &relaxed(true)).unwrap().unwrap();
    assert_eq!(on.text, "hello");
}

#[test]
fn comment_marker_stripped() {
    let entries = vec![doc(" * foo bar ", 0)];
    let d = normalize(&entries, &relaxed(false)).unwrap().unwrap();
    assert_eq!(d.text, "foo bar");
}

#[test]
fn block_comment_lines_cleaned() {
    let entries = vec![doc("a\n * b\n c ", 0)];
    let d = normalize(&entries, &relaxed(false)).unwrap().unwrap();
    assert_eq!(d.text, "a\nb\nc");
}

#[test]
fn whitespace_only_doc_becomes_empty() {
    let entries = vec![doc("   ", 0)];
    let d = normalize(&entries, &relaxed(false)).unwrap().unwrap();
    assert_eq!(d.text, "");
}

#[test]
fn multiple_docs_without_relaxed_mode_fatal() {
    let entries = vec![doc("A", 0), doc("B", 1)];
    let r = normalize(&entries, &relaxed(false));
    assert!(matches!(r, Err(NormalizeError::MultipleDocEntriesWithoutRelaxedMode)));
}

#[test]
fn relaxed_mode_joins_lines() {
    let entries = vec![doc(" line one ", 0), doc(" line two ", 1)];
    let d = normalize(&entries, &relaxed(true)).unwrap().unwrap();
    assert_eq!(d.text, "line one\nline two");
    assert_eq!(d.span, SpanRef { id: 0 });
}

#[test]
fn malformed_doc_entry_fatal() {
    let entries = vec![MetadataEntry::Doc { literal: None, span: SpanRef { id: 7 } }];
    let r = normalize(&entries, &relaxed(true));
    match r {
        Err(NormalizeError::MalformedDocLiteral { span }) => assert_eq!(span.id, 7),
        _ => panic!("expected a malformed-literal error"),
    }
}

#[test]
fn malformed_after_wellformed_still_fatal() {
    let entries = vec![
        doc("fine", 0),
        MetadataEntry::Doc { literal: None, span: SpanRef { id: 1 } },
    ];
    let r = normalize(&entries, &relaxed(true));
    assert!(matches!(r, Err(NormalizeError::MalformedDocLiteral { span: SpanRef { id: 1 } })));
}

#[test]
fn first_doc_span_preserved() {
    let entries = vec![MetadataEntry::Other, doc("text", 3)];
    let d = normalize(&entries, &relaxed(false)).unwrap().unwrap();
    assert_eq!(d.span.id, 3);
}

#[test]
fn error_messages_instruct() {
    let multi = NormalizeError::MultipleDocEntriesWithoutRelaxedMode.message();
    assert!(multi.contains("relaxed mode"));
    assert!(multi.contains("block doc comment"));
    let bad = NormalizeError::MalformedDocLiteral { span: SpanRef { id: 0 } }.message();
    assert!(bad.contains("string literal"));
}
