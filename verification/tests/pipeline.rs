use displaydoc::MetadataEntry;
use displaydoc::NormalizeError;
use displaydoc::SpanRef;
use displaydoc::emit;
use displaydoc::expand;
use displaydoc::NormalizedDoc;
use displaydoc::process;
use displaydoc::scan;

fn doc(text: &str, id: usize) -> MetadataEntry {
    MetadataEntry::Doc { literal: Some(text.to_string()), span: SpanRef { id } }
}

#[test]
fn scan_detects_marker() {
    let entries = vec![MetadataEntry::Other, MetadataEntry::RelaxedMarker];
    assert!(scan(&entries).relaxed_mode);
}

#[test]
fn scan_without_marker() {
    let entries = vec![MetadataEntry::Other, doc("x", 0)];
    assert!(!scan(&entries).relaxed_mode);
}

#[test]
fn error_code_scenario() {
    let entries = vec![doc("Error: {code}", 0)];
    let frag = process(&entries).unwrap().unwrap();
    assert_eq!(frag.fmt, "Error: {0}");
    let args: Vec<&str> = frag.args.iter().map(|a| a.as_str()).collect();
    assert_eq!(args, ["code"]);
}

#[test]
fn pipeline_without_docs_yields_none() {
    let entries = vec![MetadataEntry::Other];
    assert!(matches!(process(&entries), Ok(None)));
    let with_marker = vec![MetadataEntry::Other, MetadataEntry::RelaxedMarker];
    assert!(matches!(process(&with_marker), Ok(None)));
}

#[test]
fn pipeline_multiple_docs_fatal() {
    let entries = vec![doc("A", 0), doc("B", 1)];
    assert!(matches!(
        process(&entries),
        Err(NormalizeError::MultipleDocEntriesWithoutRelaxedMode)
    ));
}

#[test]
fn pipeline_relaxed_end_to_end() {
    let entries = vec![
        MetadataEntry::RelaxedMarker,
        doc(" * Error: {code} ", 0),
        doc("second {code}", 1),
    ];
    let frag = process(&entries).unwrap().unwrap();
    assert_eq!(frag.fmt, "Error: {0}\nsecond {0}");
    let args: Vec<&str> = frag.args.iter().map(|a| a.as_str()).collect();
    assert_eq!(args, ["code"]);
    assert_eq!(frag.fmt_span, SpanRef { id: 0 });
}

#[test]
fn emit_preserves_template_and_bindings() {
    let expanded = expand(NormalizedDoc { text: "{a} {b}".to_string(), span: SpanRef { id: 4 } });
    let frag = emit(expanded);
    assert_eq!(frag.fmt, "{0} {1}");
    assert_eq!(frag.fmt_span, SpanRef { id: 4 });
    let args: Vec<&str> = frag.args.iter().map(|a| a.as_str()).collect();
    assert_eq!(args, ["a", "b"]);
}

#[test]
fn callee_is_the_formatting_call() {
    let entries = vec![doc("plain", 0)];
    let frag = process(&entries).unwrap().unwrap();
    assert_eq!(frag.callee(), "write");
}
