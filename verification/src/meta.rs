//! The metadata model: one entry per attribute of a declaration, already
//! classified by kind, plus the scan that derives the relaxed-mode flag.

use vstd::prelude::*;

verus! {

/// A back-reference to the source position of a metadata entry, kept as a
/// plain index so that diagnostics and emitted code can be mapped back to
/// the originating attribute by whoever built the entry list.
#[derive(Clone, Copy, PartialEq, Eq, Structural, Debug)]
pub struct SpanRef {
    pub id: usize,
}

/// One attribute attached to a declaration, reduced to what the pipeline
/// reads: its kind, and for doc comments the literal text when the attribute
/// carries a plain string literal (`literal == None` marks a doc entry of any
/// other shape, which the normalizer rejects).
pub enum MetadataEntry {
    Doc { literal: Option<String>, span: SpanRef },
    RelaxedMarker,
    Other,
}

/// The once-per-declaration result of scanning the metadata list.
#[derive(Clone, Copy, PartialEq, Eq, Structural, Debug)]
pub struct ScanResult {
    pub relaxed_mode: bool,
}

/// True when some entry is the relaxed multi-line marker.
pub open spec fn has_marker(entries: Seq<MetadataEntry>) -> bool {
    exists|k: int| 0 <= k < entries.len() && entries[k] is RelaxedMarker
}

/// Derives the relaxed-mode flag: set iff the marker entry occurs anywhere
/// in the list. Absence of doc entries is not an error here.
pub fn scan(entries: &Vec<MetadataEntry>) -> (r: ScanResult)
    ensures
        r.relaxed_mode == has_marker(entries@),
{
    let mut found = false;
    let mut i: usize = 0;
    while i < entries.len()
        invariant
            i <= entries.len(),
            found == exists|k: int| 0 <= k < i && entries@[k] is RelaxedMarker,
        decreases entries.len() - i,
    {
        if matches!(&entries[i], MetadataEntry::RelaxedMarker) {
            found = true;
        }
        i = i + 1;
    }
    ScanResult { relaxed_mode: found }
}

} // verus!
