//! The display fragment emitter: packages a template and its bindings into
//! the shape of one formatting-call invocation. Pure packaging; upstream
//! stages guaranteed everything there is to guarantee, so this stage has no
//! failure path.

use vstd::prelude::*;

use crate::expand::ExpandedDisplay;
use crate::meta::SpanRef;

verus! {

/// A ready-to-splice formatting call: the callee's name is fixed by
/// `callee`, `fmt` is the format-string literal to place under `fmt_span`,
/// and `args` are the trailing arguments, in order.
pub struct CodeFragment {
    pub fmt: String,
    pub fmt_span: SpanRef,
    pub args: Vec<String>,
}

impl CodeFragment {
    /// The name of the formatting callee the fragment is shaped for.
    pub fn callee(&self) -> (r: &'static str)
        ensures
            r@ == "write"@,
    {
        "write"
    }
}

/// Wraps the expanded display into a code fragment: format string first,
/// bindings as trailing arguments, source span preserved.
pub fn emit(expanded: ExpandedDisplay) -> (r: CodeFragment)
    ensures
        r.fmt@ == expanded.template.text@,
        r.fmt_span == expanded.template.span,
        r.args == expanded.bindings,
{
    CodeFragment {
        fmt: expanded.template.text,
        fmt_span: expanded.template.span,
        args: expanded.bindings,
    }
}

} // verus!
