//! Doc-text normalization: selecting the doc entries of a metadata list,
//! enforcing the single-entry rule unless relaxed mode is on, and cleaning
//! the literal text line by line.

use vstd::prelude::*;

use crate::meta::MetadataEntry;
use crate::meta::ScanResult;
use crate::meta::SpanRef;
use crate::text::chars_string;
use crate::text::join_exec;
use crate::text::join_with;
use crate::text::split_lines;
use crate::text::split_lines_exec;
use crate::text::str_chars;
use crate::text::strip_stars;
use crate::text::strip_stars_exec;
use crate::text::trim;
use crate::text::trim_exec;

verus! {

/// The two fatal conditions of the pipeline: either the input carried more
/// doc entries than the mode admits, or a doc entry was not a plain string
/// literal.
#[derive(Clone, Copy, PartialEq, Eq, Structural, Debug)]
pub enum NormalizeError {
    MultipleDocEntriesWithoutRelaxedMode,
    MalformedDocLiteral { span: SpanRef },
}

impl NormalizeError {
    /// The diagnostic wording of each fatal condition.
    pub fn message(&self) -> (r: String)
        ensures
            self is MultipleDocEntriesWithoutRelaxedMode ==> r@
                == "multi-line doc comments need relaxed mode: add the relaxed multi-line marker or consolidate the text into one block doc comment"@,
            self is MalformedDocLiteral ==> r@
                == "doc entry does not carry a plain string literal"@,
    {
        match self {
            NormalizeError::MultipleDocEntriesWithoutRelaxedMode => String::from_str(
                "multi-line doc comments need relaxed mode: add the relaxed multi-line marker or consolidate the text into one block doc comment",
            ),
            NormalizeError::MalformedDocLiteral { .. } => String::from_str(
                "doc entry does not carry a plain string literal",
            ),
        }
    }
}

/// The cleaned doc text of one declaration, with a back-reference to the
/// first doc entry it came from.
pub struct NormalizedDoc {
    pub text: String,
    pub span: SpanRef,
}

/// True for doc entries of either shape, well-formed or not.
pub open spec fn is_doc(e: MetadataEntry) -> bool {
    e is Doc
}

/// True for doc entries whose value is not a plain string literal.
pub open spec fn is_malformed(e: MetadataEntry) -> bool {
    e matches MetadataEntry::Doc { literal: None, .. }
}

/// How many doc entries the list holds, well-formed or not.
pub open spec fn doc_count(entries: Seq<MetadataEntry>) -> nat
    decreases entries.len(),
{
    if entries.len() == 0 {
        0
    } else {
        (if is_doc(entries[0]) {
            1nat
        } else {
            0nat
        }) + doc_count(entries.drop_first())
    }
}

/// True when some doc entry is malformed.
pub open spec fn has_malformed(entries: Seq<MetadataEntry>) -> bool {
    exists|k: int| 0 <= k < entries.len() && is_malformed(entries[k])
}

/// The literal texts of the well-formed doc entries, in order.
pub open spec fn doc_texts(entries: Seq<MetadataEntry>) -> Seq<Seq<char>>
    decreases entries.len(),
{
    if entries.len() == 0 {
        Seq::empty()
    } else {
        (match entries[0] {
            MetadataEntry::Doc { literal: Some(t), .. } => seq![t@],
            _ => Seq::empty(),
        }) + doc_texts(entries.drop_first())
    }
}

/// The span of the first doc entry; meaningful only when one exists.
pub open spec fn first_doc_span(entries: Seq<MetadataEntry>) -> SpanRef
    decreases entries.len(),
{
    if entries.len() == 0 {
        SpanRef { id: 0 }
    } else {
        match entries[0] {
            MetadataEntry::Doc { span, .. } => span,
            _ => first_doc_span(entries.drop_first()),
        }
    }
}

/// The span of the first malformed doc entry; meaningful only when one
/// exists.
pub open spec fn first_malformed_span(entries: Seq<MetadataEntry>) -> SpanRef
    decreases entries.len(),
{
    if entries.len() == 0 {
        SpanRef { id: 0 }
    } else if is_malformed(entries[0]) {
        entries[0]->Doc_span
    } else {
        first_malformed_span(entries.drop_first())
    }
}

/// One line cleaned: outer whitespace trimmed, then any leading run of `*`
/// removed, then whitespace trimmed again.
pub open spec fn clean_line(l: Seq<char>) -> Seq<char> {
    trim(strip_stars(trim(l)))
}

/// The whole text cleaned: each line cleaned, the lines rejoined with `'\n'`,
/// and the outer whitespace of the result trimmed.
pub open spec fn clean_text(s: Seq<char>) -> Seq<char> {
    trim(join_with(split_lines(s).map_values(|l: Seq<char>| clean_line(l)), '\n'))
}

/// What normalization yields on a metadata list, before the result is
/// packaged into exec values.
pub enum DocOutcome {
    Absent,
    Cleaned { text: Seq<char>, span: SpanRef },
    TooMany,
    Malformed { span: SpanRef },
}

/// The normalization rule: no doc entry means no display text; more than one
/// without relaxed mode is fatal; a doc entry that is not a plain string
/// literal is fatal; otherwise the texts are joined with newlines in order
/// and cleaned, under the span of the first doc entry.
pub open spec fn normalize_spec(entries: Seq<MetadataEntry>, relaxed: bool) -> DocOutcome {
    if doc_count(entries) == 0 {
        DocOutcome::Absent
    } else if doc_count(entries) > 1 && !relaxed {
        DocOutcome::TooMany
    } else if has_malformed(entries) {
        DocOutcome::Malformed { span: first_malformed_span(entries) }
    } else {
        DocOutcome::Cleaned {
            text: clean_text(join_with(doc_texts(entries), '\n')),
            span: first_doc_span(entries),
        }
    }
}

proof fn lemma_doc_scan_push(entries: Seq<MetadataEntry>, e: MetadataEntry)
    ensures
        doc_count(entries.push(e)) == doc_count(entries) + (if is_doc(e) {
            1nat
        } else {
            0nat
        }),
        doc_texts(entries.push(e)) == doc_texts(entries) + (match e {
            MetadataEntry::Doc { literal: Some(t), .. } => seq![t@],
            _ => Seq::<Seq<char>>::empty(),
        }),
        first_doc_span(entries.push(e)) == (if doc_count(entries) > 0 {
            first_doc_span(entries)
        } else if is_doc(e) {
            e->Doc_span
        } else {
            SpanRef { id: 0 }
        }),
        first_malformed_span(entries.push(e)) == (if has_malformed(entries) {
            first_malformed_span(entries)
        } else if is_malformed(e) {
            e->Doc_span
        } else {
            SpanRef { id: 0 }
        }),
        has_malformed(entries.push(e)) == (has_malformed(entries) || is_malformed(e)),
    decreases entries.len(),
{
    if entries.len() == 0 {
        assert(entries =~= Seq::<MetadataEntry>::empty());
        assert(doc_count(Seq::<MetadataEntry>::empty()) == 0);
        assert(doc_texts(Seq::<MetadataEntry>::empty()) == Seq::<Seq<char>>::empty());
        assert(first_doc_span(Seq::<MetadataEntry>::empty()) == SpanRef { id: 0 });
        assert(first_malformed_span(Seq::<MetadataEntry>::empty()) == SpanRef { id: 0 });
        assert(entries.push(e)[0] == e);
        assert(entries.push(e).drop_first() =~= Seq::<MetadataEntry>::empty());
        if has_malformed(entries) {
            let k = choose|k: int| 0 <= k < entries.len() && is_malformed(entries[k]);
            assert(false);
        }
        if is_malformed(e) {
            assert(is_malformed(entries.push(e)[0]));
        } else if has_malformed(entries.push(e)) {
            let k = choose|k: int|
                0 <= k < entries.push(e).len() && is_malformed(entries.push(e)[k]);
            assert(k == 0);
        }
        assert(doc_texts(entries.push(e)) =~~= doc_texts(entries) + (match e {
            MetadataEntry::Doc { literal: Some(t), .. } => seq![t@],
            _ => Seq::<Seq<char>>::empty(),
        }));
    } else {
        lemma_doc_scan_push(entries.drop_first(), e);
        assert(entries.push(e).drop_first() =~= entries.drop_first().push(e));
        assert(entries.push(e)[0] == entries[0]);
        // doc_count of a nonempty list is positive exactly when the head is a
        // doc entry or the tail already holds one.
        if has_malformed(entries) && !is_malformed(entries[0]) {
            let k = choose|k: int| 0 <= k < entries.len() && is_malformed(entries[k]);
            assert(is_malformed(entries.drop_first()[k - 1]));
        }
        if has_malformed(entries.drop_first()) {
            let k = choose|k: int|
                0 <= k < entries.drop_first().len() && is_malformed(entries.drop_first()[k]);
            assert(is_malformed(entries[k + 1]));
        }
        if has_malformed(entries.push(e)) && !is_malformed(entries.push(e)[0]) {
            let k = choose|k: int|
                0 <= k < entries.push(e).len() && is_malformed(entries.push(e)[k]);
            assert(is_malformed(entries.push(e).drop_first()[k - 1]));
        }
        if has_malformed(entries.drop_first().push(e)) {
            let k = choose|k: int|
                0 <= k < entries.drop_first().push(e).len() && is_malformed(
                    entries.drop_first().push(e)[k],
                );
            assert(is_malformed(entries.push(e)[k + 1]));
        }
        assert(doc_texts(entries.push(e)) =~~= doc_texts(entries) + (match e {
            MetadataEntry::Doc { literal: Some(t), .. } => seq![t@],
            _ => Seq::<Seq<char>>::empty(),
        }));
    }
}

/// What one pass over the metadata list gathers about its doc entries.
struct DocScan {
    count: usize,
    first_span: Option<SpanRef>,
    bad_span: Option<SpanRef>,
    texts: Vec<String>,
}

fn collect_docs(entries: &Vec<MetadataEntry>) -> (r: DocScan)
    ensures
        r.count == doc_count(entries@),
        r.first_span is Some <==> doc_count(entries@) > 0,
        r.first_span matches Some(sp) ==> sp == first_doc_span(entries@),
        r.bad_span is Some <==> has_malformed(entries@),
        r.bad_span matches Some(sp) ==> sp == first_malformed_span(entries@),
        r.texts.deep_view() == doc_texts(entries@),
{
    let mut count: usize = 0;
    let mut first_span: Option<SpanRef> = None;
    let mut bad_span: Option<SpanRef> = None;
    let mut texts: Vec<String> = Vec::new();
    let mut i: usize = 0;
    while i < entries.len()
        invariant
            i <= entries.len(),
            count <= i,
            count == doc_count(entries@.subrange(0, i as int)),
            first_span is Some <==> doc_count(entries@.subrange(0, i as int)) > 0,
            first_span matches Some(sp) ==> sp == first_doc_span(entries@.subrange(0, i as int)),
            bad_span is Some <==> has_malformed(entries@.subrange(0, i as int)),
            bad_span matches Some(sp) ==> sp == first_malformed_span(
                entries@.subrange(0, i as int),
            ),
            texts.deep_view() == doc_texts(entries@.subrange(0, i as int)),
        decreases entries.len() - i,
    {
        let ghost pre = entries@.subrange(0, i as int);
        proof {
            lemma_doc_scan_push(pre, entries@[i as int]);
            assert(entries@.subrange(0, i + 1) =~= pre.push(entries@[i as int]));
        }
        match &entries[i] {
            MetadataEntry::Doc { literal, span } => {
                count = count + 1;
                if first_span.is_none() {
                    first_span = Some(*span);
                }
                match literal {
                    Some(t) => {
                        let ghost old_tv = texts.deep_view();
                        texts.push(t.clone());
                        proof {
                            assert(texts.deep_view() =~~= old_tv + seq![t@]);
                        }
                    },
                    None => {
                        if bad_span.is_none() {
                            bad_span = Some(*span);
                        }
                        proof {
                            assert(texts.deep_view() =~~= doc_texts(entries@.subrange(0, i + 1)));
                        }
                    },
                }
            },
            _ => {
                proof {
                    assert(texts.deep_view() =~~= doc_texts(entries@.subrange(0, i + 1)));
                }
            },
        }
        i = i + 1;
    }
    proof {
        assert(entries@.subrange(0, entries@.len() as int) =~= entries@);
    }
    DocScan { count, first_span, bad_span, texts }
}

/// Cleans a whole text as `clean_text` states: line by line, then rejoined
/// and trimmed.
fn clean_text_exec(s: &Vec<char>) -> (r: Vec<char>)
    ensures
        r@ == clean_text(s@),
{
    let lines = split_lines_exec(s);
    let mut cleaned: Vec<Vec<char>> = Vec::new();
    let mut i: usize = 0;
    while i < lines.len()
        invariant
            i <= lines.len(),
            lines.deep_view() == split_lines(s@),
            cleaned.deep_view() == split_lines(s@).map_values(|l: Seq<char>| clean_line(l)).subrange(
                0,
                i as int,
            ),
        decreases lines.len() - i,
    {
        let ghost old_cv = cleaned.deep_view();
        let t1 = trim_exec(&lines[i]);
        let t2 = strip_stars_exec(&t1);
        let t3 = trim_exec(&t2);
        cleaned.push(t3);
        proof {
            let m = split_lines(s@).map_values(|l: Seq<char>| clean_line(l));
            assert(lines.deep_view()[i as int] == lines[i as int]@);
            assert(cleaned.deep_view() =~~= old_cv.push(clean_line(lines[i as int]@)));
            assert(m[i as int] == clean_line(split_lines(s@)[i as int]));
            assert(cleaned.deep_view() =~~= m.subrange(0, i + 1));
        }
        i = i + 1;
    }
    proof {
        let m = split_lines(s@).map_values(|l: Seq<char>| clean_line(l));
        assert(cleaned.deep_view() =~~= m);
    }
    let joined = join_exec(&cleaned, '\n');
    trim_exec(&joined)
}

/// Extracts and cleans the doc text of one declaration.
///
/// With no doc entry the declaration simply has no display text. More than
/// one doc entry is fatal unless relaxed mode is on, in which case the texts
/// are joined with newlines in their original order. A doc entry whose value
/// is not a plain string literal is fatal. The cleaned text carries the span
/// of the first doc entry.
pub fn normalize(entries: &Vec<MetadataEntry>, mode: &ScanResult) -> (r: Result<
    Option<NormalizedDoc>,
    NormalizeError,
>)
    ensures
        ({
            let o = normalize_spec(entries@, mode.relaxed_mode);
            match r {
                Ok(None) => o is Absent,
                Ok(Some(d)) => o matches DocOutcome::Cleaned { text, span } && d.text@ == text
                    && d.span == span,
                Err(NormalizeError::MultipleDocEntriesWithoutRelaxedMode) => o is TooMany,
                Err(NormalizeError::MalformedDocLiteral { span }) => o matches DocOutcome::Malformed
                    { span: sp } && span == sp,
            }
        }),
{
    let scan = collect_docs(entries);
    if scan.count == 0 {
        return Ok(None);
    }
    if scan.count > 1 && !mode.relaxed_mode {
        return Err(NormalizeError::MultipleDocEntriesWithoutRelaxedMode);
    }
    if let Some(sp) = scan.bad_span {
        return Err(NormalizeError::MalformedDocLiteral { span: sp });
    }
    let mut pieces: Vec<Vec<char>> = Vec::new();
    let mut k: usize = 0;
    while k < scan.texts.len()
        invariant
            k <= scan.texts.len(),
            pieces.deep_view() == scan.texts.deep_view().subrange(0, k as int),
        decreases scan.texts.len() - k,
    {
        let ghost old_pv = pieces.deep_view();
        pieces.push(str_chars(scan.texts[k].as_str()));
        proof {
            assert(pieces.deep_view() =~~= old_pv.push(scan.texts[k as int]@));
            assert(pieces.deep_view() =~~= scan.texts.deep_view().subrange(0, k + 1));
        }
        k = k + 1;
    }
    proof {
        assert(pieces.deep_view() =~~= scan.texts.deep_view());
    }
    let joined = join_exec(&pieces, '\n');
    let cleaned = clean_text_exec(&joined);
    let text = chars_string(&cleaned);
    match scan.first_span {
        Some(sp) => Ok(Some(NormalizedDoc { text, span: sp })),
        None => {
            // Unreachable: a positive doc count always records a first span.
            proof {
                assert(false);
            }
            Err(NormalizeError::MultipleDocEntriesWithoutRelaxedMode)
        },
    }
}

/// Normalization is idempotent on already-clean text: when each line of the
/// text is its own cleaning and the text carries no outer whitespace,
/// cleaning returns it unchanged.
pub proof fn lemma_clean_text_idempotent(s: Seq<char>)
    requires
        trim(s) == s,
        forall|k: int|
            0 <= k < split_lines(s).len() ==> #[trigger] clean_line(split_lines(s)[k])
                == split_lines(s)[k],
    ensures
        clean_text(s) == s,
{
    let lines = split_lines(s);
    assert(lines.map_values(|l: Seq<char>| clean_line(l)) =~~= lines);
    crate::text::lemma_join_split(s);
}

/// A metadata list without doc entries yields no display text, whatever the
/// relaxed-mode setting.
pub proof fn lemma_no_docs_absent(entries: Seq<MetadataEntry>, relaxed: bool)
    requires
        doc_count(entries) == 0,
    ensures
        normalize_spec(entries, relaxed) is Absent,
{
}

/// A metadata list with exactly one doc entry, that entry a plain string
/// literal, normalizes successfully whatever the relaxed-mode setting.
pub proof fn lemma_single_doc_succeeds(entries: Seq<MetadataEntry>, relaxed: bool)
    requires
        doc_count(entries) == 1,
        !has_malformed(entries),
    ensures
        normalize_spec(entries, relaxed) is Cleaned,
{
}

/// Two or more doc entries without relaxed mode are rejected as fatal.
pub proof fn lemma_multiple_docs_rejected(entries: Seq<MetadataEntry>, relaxed: bool)
    requires
        doc_count(entries) >= 2,
        !relaxed,
    ensures
        normalize_spec(entries, relaxed) is TooMany,
{
}

/// With relaxed mode on and every doc entry a plain string literal,
/// normalization succeeds on any number of doc entries, and the text is the
/// entries' contents joined with newlines in original order, then cleaned.
pub proof fn lemma_relaxed_joins_docs(entries: Seq<MetadataEntry>)
    requires
        doc_count(entries) >= 2,
        !has_malformed(entries),
    ensures
        normalize_spec(entries, true) matches DocOutcome::Cleaned { text, span } && text
            == clean_text(join_with(doc_texts(entries), '\n')) && span == first_doc_span(entries),
{
}

} // verus!
