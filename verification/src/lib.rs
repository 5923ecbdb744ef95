//! Turns the documentation text attached to a declaration into a formatting
//! template plus an ordered list of argument bindings.
//!
//! The pipeline runs in four stages, each a pure function of its input:
//! scanning the metadata for the relaxed multi-line marker, normalizing the
//! doc text, expanding shorthand placeholders, and packaging the result as a
//! code fragment for a formatting call.

use vstd::prelude::*;

mod emit;
mod expand;
mod meta;
mod normalize;
mod text;

pub use emit::CodeFragment;
pub use emit::emit;
pub use expand::ExpState;
pub use expand::ExpandedDisplay;
pub use expand::dec_str;
pub use expand::distinct_bindings;
pub use expand::expand;
pub use expand::expand_spec;
pub use expand::lemma_bindings_distinct;
pub use meta::MetadataEntry;
pub use meta::ScanResult;
pub use meta::SpanRef;
pub use meta::has_marker;
pub use meta::scan;
pub use normalize::DocOutcome;
pub use normalize::NormalizeError;
pub use normalize::NormalizedDoc;
pub use normalize::clean_line;
pub use normalize::clean_text;
pub use normalize::doc_count;
pub use normalize::doc_texts;
pub use normalize::first_doc_span;
pub use normalize::has_malformed;
pub use normalize::lemma_clean_text_idempotent;
pub use normalize::lemma_multiple_docs_rejected;
pub use normalize::lemma_no_docs_absent;
pub use normalize::lemma_relaxed_joins_docs;
pub use normalize::lemma_single_doc_succeeds;
pub use normalize::normalize;
pub use normalize::normalize_spec;
pub use text::join_with;

verus! {

/// Runs the whole pipeline for one declaration: scan the metadata for the
/// relaxed-mode marker, normalize the doc text, expand the shorthand
/// placeholders, and package the fragment. `Ok(None)` means the declaration
/// has no display text; the two fatal conditions come back as errors.
pub fn process(entries: &Vec<MetadataEntry>) -> (r: Result<
    Option<CodeFragment>,
    NormalizeError,
>)
    ensures
        ({
            let o = normalize_spec(entries@, has_marker(entries@));
            match r {
                Ok(None) => o is Absent,
                Ok(Some(frag)) => {
                    &&& o matches DocOutcome::Cleaned { text, span }
                    &&& frag.fmt@ == expand_spec(text).template
                    &&& frag.args.deep_view() == expand_spec(text).bindings
                    &&& frag.fmt_span == span
                },
                Err(NormalizeError::MultipleDocEntriesWithoutRelaxedMode) => o is TooMany,
                Err(NormalizeError::MalformedDocLiteral { span }) => o
                    matches DocOutcome::Malformed { span: sp } && span == sp,
            }
        }),
{
    let mode = scan(entries);
    match normalize(entries, &mode) {
        Err(e) => Err(e),
        Ok(None) => Ok(None),
        Ok(Some(doc)) => Ok(Some(emit(expand(doc)))),
    }
}

} // verus!
