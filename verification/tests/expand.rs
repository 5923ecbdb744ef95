use displaydoc::ExpandedDisplay;
use displaydoc::NormalizedDoc;
use displaydoc::SpanRef;
use displaydoc::expand;

fn expand_text(text: &str) -> ExpandedDisplay {
    expand(NormalizedDoc { text: text.to_string(), span: SpanRef { id: 0 } })
}

fn check(text: &str, template: &str, bindings: &[&str]) {
    let r = expand_text(text);
    assert_eq!(r.template.text, template);
    let got: Vec<&str> = r.bindings.iter().map(|b| b.as_str()).collect();
    assert_eq!(got, bindings);
}

#[test]
fn bare_identifier_rewritten() {
    check("value is {x}", "value is {0}", &["x"]);
}

#[test]
fn literal_braces_pass_through() {
    check("{{literal}}", "{{literal}}", &[]);
}

#[test]
fn repeated_identifier_single_binding() {
    check("{x} and {x} again", "{0} and {0} again", &["x"]);
}

#[test]
fn bare_index_binding() {
    check("{0}", "{0}", &["0"]);
}

#[test]
fn named_then_index_get_distinct_slots() {
    check("{name} {0}", "{0} {1}", &["name", "0"]);
}

#[test]
fn spec_suffix_kept() {
    check("{name:>8}", "{0:>8}", &["name"]);
}

#[test]
fn empty_placeholders_count_positional_fields() {
    check("{} {}", "{0} {1}", &["0", "1"]);
}

#[test]
fn empty_placeholder_reuses_explicit_index_slot() {
    check("{1} {}", "{0} {1}", &["1", "0"]);
    check("{0} {}", "{0} {0}", &["0"]);
}

#[test]
fn ineligible_segment_passes_through() {
    check("{a.b}", "{a.b}", &[]);
}

#[test]
fn unterminated_brace_verbatim() {
    check("oops {x", "oops {x", &[]);
}

#[test]
fn lone_close_brace_passes() {
    check("a } b", "a } b", &[]);
}

#[test]
fn empty_text_stays_empty() {
    check("", "", &[]);
}

#[test]
fn identifier_with_underscore_and_digits() {
    check("{_a1}", "{0}", &["_a1"]);
}

#[test]
fn empty_spec_suffix_kept() {
    check("{x:}", "{0:}", &["x"]);
}

#[test]
fn many_bindings_keep_first_appearance_order() {
    check("{b} {a} {b} {c}", "{0} {1} {0} {2}", &["b", "a", "c"]);
}

#[test]
fn span_is_preserved() {
    let r = expand(NormalizedDoc { text: "{x}".to_string(), span: SpanRef { id: 9 } });
    assert_eq!(r.template.span, SpanRef { id: 9 });
}
