//! Shorthand expansion: rewriting brace-delimited placeholders in the
//! normalized doc text into positional references, while collecting the
//! ordered list of argument bindings.
//!
//! The grammar is minimal and left-to-right. `{{` and `}}` are literal-brace
//! escapes and pass through. A segment whose content is empty, a bare decimal
//! integer, or a bare ASCII identifier — optionally followed by a `:`-suffixed
//! formatting spec — is a bare placeholder: its identifier or index becomes a
//! binding (first appearance fixes the slot, later appearances reuse it), and
//! the segment is rewritten to `{slot}` with the spec suffix kept. An empty
//! segment refers to the next positional field, counted over the empty
//! segments alone. Every other segment passes through unchanged and binds
//! nothing.

use vstd::prelude::*;

use crate::normalize::NormalizedDoc;
use crate::text::append_range;
use crate::text::chars_string;
use crate::text::find_at;
use crate::text::find_char;
use crate::text::lemma_find_at;
use crate::text::str_chars;
use crate::text::subvec;

verus! {

pub open spec fn is_digit(c: char) -> bool {
    48 <= c as int <= 57
}

pub open spec fn is_ident_start(c: char) -> bool {
    c as int == 95 || 65 <= c as int <= 90 || 97 <= c as int <= 122
}

pub open spec fn is_ident_char(c: char) -> bool {
    is_ident_start(c) || is_digit(c)
}

/// A bare decimal integer: one or more digits.
pub open spec fn is_integer_str(s: Seq<char>) -> bool {
    s.len() > 0 && forall|k: int| 0 <= k < s.len() ==> is_digit(s[k])
}

/// A bare ASCII identifier: a letter or underscore, then letters, digits and
/// underscores.
pub open spec fn is_identifier_str(s: Seq<char>) -> bool {
    s.len() > 0 && is_ident_start(s[0]) && forall|k: int| 1 <= k < s.len() ==> is_ident_char(s[k])
}

/// The heads that make a segment a bare placeholder.
pub open spec fn is_bare_head(s: Seq<char>) -> bool {
    s.len() == 0 || is_integer_str(s) || is_identifier_str(s)
}

pub open spec fn digit_char(d: int) -> char {
    if d == 0 {
        '0'
    } else if d == 1 {
        '1'
    } else if d == 2 {
        '2'
    } else if d == 3 {
        '3'
    } else if d == 4 {
        '4'
    } else if d == 5 {
        '5'
    } else if d == 6 {
        '6'
    } else if d == 7 {
        '7'
    } else if d == 8 {
        '8'
    } else {
        '9'
    }
}

/// The decimal digits of `n`, most significant first.
pub open spec fn dec_str(n: int) -> Seq<char>
    decreases n when n >= 0
{
    if n < 10 {
        seq![digit_char(n)]
    } else {
        dec_str(n / 10).push(digit_char(n % 10))
    }
}

/// The first index of `key` in `bindings`, or `bindings.len()` when absent.
pub open spec fn slot_of(bindings: Seq<Seq<char>>, key: Seq<char>) -> int
    decreases bindings.len(),
{
    if bindings.len() == 0 {
        0
    } else if bindings[0] == key {
        0
    } else {
        1 + slot_of(bindings.drop_first(), key)
    }
}

pub proof fn lemma_slot_of(bindings: Seq<Seq<char>>, key: Seq<char>)
    ensures
        0 <= slot_of(bindings, key) <= bindings.len(),
        slot_of(bindings, key) < bindings.len() ==> bindings[slot_of(bindings, key)] == key,
        forall|k: int| 0 <= k < slot_of(bindings, key) ==> bindings[k] != key,
    decreases bindings.len(),
{
    if bindings.len() > 0 && bindings[0] != key {
        lemma_slot_of(bindings.drop_first(), key);
        assert forall|k: int| 0 <= k < slot_of(bindings, key) implies bindings[k] != key by {
            if k > 0 {
                assert(bindings.drop_first()[k - 1] != key);
            }
        }
    }
}

/// `slot_of` is pinned down by the characteristic first-occurrence facts.
pub proof fn lemma_slot_of_unique(bindings: Seq<Seq<char>>, key: Seq<char>, k: int)
    requires
        0 <= k <= bindings.len(),
        k < bindings.len() ==> bindings[k] == key,
        forall|m: int| 0 <= m < k ==> bindings[m] != key,
        k == bindings.len() ==> forall|m: int| 0 <= m < bindings.len() ==> bindings[m] != key,
    ensures
        slot_of(bindings, key) == k,
{
    lemma_slot_of(bindings, key);
    let f = slot_of(bindings, key);
    if f < k {
        assert(bindings[f] == key);
    } else if f > k {
        assert(k < bindings.len());
        assert(bindings[k] != key);
    }
}

/// The accumulated state of one expansion pass: the rewritten template so
/// far, the bindings in first-appearance order, and how many empty
/// placeholders have been seen.
pub struct ExpState {
    pub template: Seq<char>,
    pub bindings: Seq<Seq<char>>,
    pub empties: nat,
}

pub open spec fn exp_init() -> ExpState {
    ExpState { template: Seq::empty(), bindings: Seq::empty(), empties: 0 }
}

/// One left-to-right pass over `s[i..]`, starting from state `st`.
pub open spec fn expand_from(s: Seq<char>, i: int, st: ExpState) -> ExpState
    decreases s.len() - i when 0 <= i <= s.len()
{
    if i >= s.len() {
        st
    } else if s[i] == '{' {
        if i + 1 < s.len() && s[i + 1] == '{' {
            expand_from(
                s,
                i + 2,
                ExpState { template: st.template + seq!['{', '{'], ..st },
            )
        } else {
            let j = find_at(s, i + 1, '}');
            if i + 1 <= j < s.len() {
                let ci = find_at(s, i + 1, ':');
                let head_end = if ci < j {
                    ci
                } else {
                    j
                };
                let head = s.subrange(i + 1, head_end);
                if is_bare_head(head) {
                    let key = if head.len() == 0 {
                        dec_str(st.empties as int)
                    } else {
                        head
                    };
                    let slot = slot_of(st.bindings, key);
                    expand_from(
                        s,
                        j + 1,
                        ExpState {
                            template: st.template + seq!['{'] + dec_str(slot) + s.subrange(
                                head_end,
                                j,
                            ) + seq!['}'],
                            bindings: if slot == st.bindings.len() {
                                st.bindings.push(key)
                            } else {
                                st.bindings
                            },
                            empties: if head.len() == 0 {
                                st.empties + 1
                            } else {
                                st.empties
                            },
                        },
                    )
                } else {
                    expand_from(
                        s,
                        j + 1,
                        ExpState { template: st.template + s.subrange(i, j + 1), ..st },
                    )
                }
            } else {
                // No closing brace: the rest passes through verbatim.
                ExpState { template: st.template + s.subrange(i, s.len() as int), ..st }
            }
        }
    } else if s[i] == '}' && i + 1 < s.len() && s[i + 1] == '}' {
        expand_from(s, i + 2, ExpState { template: st.template + seq!['}', '}'], ..st })
    } else {
        expand_from(s, i + 1, ExpState { template: st.template + seq![s[i]], ..st })
    }
}

/// The whole text expanded from the initial state.
pub open spec fn expand_spec(s: Seq<char>) -> ExpState {
    expand_from(s, 0, exp_init())
}

/// No key occurs twice in the binding list.
pub open spec fn distinct_bindings(b: Seq<Seq<char>>) -> bool {
    forall|p: int, q: int| 0 <= p < q < b.len() ==> b[p] != b[q]
}

proof fn lemma_expand_from_distinct(s: Seq<char>, i: int, st: ExpState)
    requires
        0 <= i <= s.len(),
        distinct_bindings(st.bindings),
    ensures
        distinct_bindings(expand_from(s, i, st).bindings),
    decreases s.len() - i,
{
    if i >= s.len() {
    } else if s[i] == '{' {
        if i + 1 < s.len() && s[i + 1] == '{' {
            lemma_expand_from_distinct(
                s,
                i + 2,
                ExpState { template: st.template + seq!['{', '{'], ..st },
            );
        } else {
            lemma_find_at(s, i + 1, '}');
            let j = find_at(s, i + 1, '}');
            if i + 1 <= j < s.len() {
                let ci = find_at(s, i + 1, ':');
                let head_end = if ci < j {
                    ci
                } else {
                    j
                };
                let head = s.subrange(i + 1, head_end);
                if is_bare_head(head) {
                    let key = if head.len() == 0 {
                        dec_str(st.empties as int)
                    } else {
                        head
                    };
                    let slot = slot_of(st.bindings, key);
                    lemma_slot_of(st.bindings, key);
                    let nb = if slot == st.bindings.len() {
                        st.bindings.push(key)
                    } else {
                        st.bindings
                    };
                    assert(distinct_bindings(nb)) by {
                        if slot == st.bindings.len() {
                            assert forall|p: int, q: int|
                                0 <= p < q < nb.len() implies nb[p] != nb[q] by {
                                if q == st.bindings.len() as int {
                                    assert(nb[p] == st.bindings[p]);
                                    assert(st.bindings[p] != key);
                                } else {
                                    assert(nb[p] == st.bindings[p]);
                                    assert(nb[q] == st.bindings[q]);
                                }
                            }
                        }
                    };
                    lemma_expand_from_distinct(
                        s,
                        j + 1,
                        ExpState {
                            template: st.template + seq!['{'] + dec_str(slot) + s.subrange(
                                head_end,
                                j,
                            ) + seq!['}'],
                            bindings: nb,
                            empties: if head.len() == 0 {
                                st.empties + 1
                            } else {
                                st.empties
                            },
                        },
                    );
                } else {
                    lemma_expand_from_distinct(
                        s,
                        j + 1,
                        ExpState { template: st.template + s.subrange(i, j + 1), ..st },
                    );
                }
            }
        }
    } else if s[i] == '}' && i + 1 < s.len() && s[i + 1] == '}' {
        lemma_expand_from_distinct(
            s,
            i + 2,
            ExpState { template: st.template + seq!['}', '}'], ..st },
        );
    } else {
        lemma_expand_from_distinct(
            s,
            i + 1,
            ExpState { template: st.template + seq![s[i]], ..st },
        );
    }
}

/// An identifier or index that appears in several placeholders is bound
/// exactly once: the first appearance fixes its slot and later appearances
/// reuse it, so the binding list of an expansion never repeats a key.
pub proof fn lemma_bindings_distinct(s: Seq<char>)
    ensures
        distinct_bindings(expand_spec(s).bindings),
{
    lemma_expand_from_distinct(s, 0, exp_init());
}

fn digit_exec(d: usize) -> (r: char)
    requires
        d < 10,
    ensures
        r == digit_char(d as int),
{
    if d == 0 {
        '0'
    } else if d == 1 {
        '1'
    } else if d == 2 {
        '2'
    } else if d == 3 {
        '3'
    } else if d == 4 {
        '4'
    } else if d == 5 {
        '5'
    } else if d == 6 {
        '6'
    } else if d == 7 {
        '7'
    } else if d == 8 {
        '8'
    } else {
        '9'
    }
}

/// Appends the decimal digits of `n` to `out`.
fn push_dec(out: &mut Vec<char>, n: usize)
    ensures
        final(out)@ == old(out)@ + dec_str(n as int),
    decreases n,
{
    if n < 10 {
        out.push(digit_exec(n));
    } else {
        push_dec(out, n / 10);
        out.push(digit_exec(n % 10));
    }
}

fn is_digit_exec(c: char) -> (r: bool)
    ensures
        r == is_digit(c),
{
    let u = c as u32;
    48 <= u && u <= 57
}

fn is_ident_start_exec(c: char) -> (r: bool)
    ensures
        r == is_ident_start(c),
{
    let u = c as u32;
    u == 95 || (65 <= u && u <= 90) || (97 <= u && u <= 122)
}

fn is_ident_char_exec(c: char) -> (r: bool)
    ensures
        r == is_ident_char(c),
{
    is_ident_start_exec(c) || is_digit_exec(c)
}

fn is_bare_head_exec(head: &Vec<char>) -> (r: bool)
    ensures
        r == is_bare_head(head@),
{
    if head.len() == 0 {
        return true;
    }
    let mut all_digits = true;
    let mut k: usize = 0;
    while k < head.len()
        invariant
            k <= head.len(),
            all_digits == forall|m: int| 0 <= m < k ==> is_digit(head@[m]),
        decreases head.len() - k,
    {
        if !is_digit_exec(head[k]) {
            all_digits = false;
        }
        k = k + 1;
    }
    if all_digits {
        return true;
    }
    if !is_ident_start_exec(head[0]) {
        return false;
    }
    let mut k: usize = 1;
    while k < head.len()
        invariant
            1 <= k <= head.len(),
            is_ident_start(head@[0]),
            forall|m: int| 1 <= m < k ==> is_ident_char(head@[m]),
            !is_integer_str(head@),
        decreases head.len() - k,
    {
        if !is_ident_char_exec(head[k]) {
            return false;
        }
        k = k + 1;
    }
    true
}

/// Compares two character vectors for equality of their contents.
fn chars_eq(a: &Vec<char>, b: &Vec<char>) -> (r: bool)
    ensures
        r == (a@ == b@),
{
    if a.len() != b.len() {
        return false;
    }
    let mut k: usize = 0;
    while k < a.len()
        invariant
            k <= a.len(),
            a.len() == b.len(),
            forall|m: int| 0 <= m < k ==> a@[m] == b@[m],
        decreases a.len() - k,
    {
        if a[k] != b[k] {
            return false;
        }
        k = k + 1;
    }
    proof {
        assert(a@ =~= b@);
    }
    true
}

/// The expander's product: the template rewritten to positional references,
/// under the span of the doc text it came from, and the bindings in
/// first-appearance order.
pub struct ExpandedDisplay {
    pub template: NormalizedDoc,
    pub bindings: Vec<String>,
}

/// Rewrites every bare placeholder of the normalized text to a positional
/// reference and collects the bindings, as `expand_spec` states.
pub fn expand(doc: NormalizedDoc) -> (r: ExpandedDisplay)
    ensures
        r.template.text@ == expand_spec(doc.text@).template,
        r.template.span == doc.span,
        r.bindings.deep_view() == expand_spec(doc.text@).bindings,
{
    let s = str_chars(doc.text.as_str());
    let mut out: Vec<char> = Vec::new();
    let mut binds: Vec<Vec<char>> = Vec::new();
    let mut empties: usize = 0;
    let mut i: usize = 0;
    proof {
        assert(out@ =~= Seq::<char>::empty());
        assert(binds.deep_view() =~~= Seq::<Seq<char>>::empty());
    }
    while i < s.len()
        invariant
            i <= s.len(),
            s@ == doc.text@,
            empties <= i,
            expand_spec(doc.text@) == expand_from(
                s@,
                i as int,
                ExpState {
                    template: out@,
                    bindings: binds.deep_view(),
                    empties: empties as nat,
                },
            ),
        decreases s.len() - i,
    {
        let ghost st0 = ExpState {
            template: out@,
            bindings: binds.deep_view(),
            empties: empties as nat,
        };
        let c = s[i];
        if c == '{' {
            if i + 1 < s.len() && s[i + 1] == '{' {
                out.push('{');
                out.push('{');
                proof {
                    assert(out@ =~= st0.template + seq!['{', '{']);
                }
                i = i + 2;
            } else {
                let j = find_char(&s, i + 1, '}');
                proof {
                    lemma_find_at(s@, i + 1, '}');
                }
                if j == s.len() {
                    append_range(&mut out, &s, i, s.len());
                    proof {
                        assert(out@ =~= st0.template + s@.subrange(i as int, s@.len() as int));
                        let st1 = ExpState {
                            template: out@,
                            bindings: binds.deep_view(),
                            empties: empties as nat,
                        };
                        assert(expand_from(s@, i as int, st0) == st1);
                        assert(expand_from(s@, s@.len() as int, st1) == st1);
                    }
                    i = s.len();
                } else {
                    let ci = find_char(&s, i + 1, ':');
                    proof {
                        lemma_find_at(s@, i + 1, ':');
                    }
                    let head_end = if ci < j {
                        ci
                    } else {
                        j
                    };
                    let head = subvec(&s, i + 1, head_end);
                    let was_empty = head.len() == 0;
                    if is_bare_head_exec(&head) {
                        let ghost key_spec = if was_empty {
                            dec_str(st0.empties as int)
                        } else {
                            s@.subrange(i + 1, head_end as int)
                        };
                        let key: Vec<char> = if was_empty {
                            let mut kv: Vec<char> = Vec::new();
                            push_dec(&mut kv, empties);
                            kv
                        } else {
                            head
                        };
                        proof {
                            assert(key@ == key_spec);
                        }
                        let slot = find_slot(&binds, &key);
                        proof {
                            lemma_slot_of(binds.deep_view(), key@);
                        }
                        let is_new = slot == binds.len();
                        out.push('{');
                        push_dec(&mut out, slot);
                        append_range(&mut out, &s, head_end, j);
                        out.push('}');
                        if is_new {
                            binds.push(key);
                        }
                        if was_empty {
                            empties = empties + 1;
                        }
                        proof {
                            let st1 = ExpState {
                                template: st0.template + seq!['{'] + dec_str(
                                    slot_of(st0.bindings, key_spec),
                                ) + s@.subrange(head_end as int, j as int) + seq!['}'],
                                bindings: if slot_of(st0.bindings, key_spec)
                                    == st0.bindings.len() {
                                    st0.bindings.push(key_spec)
                                } else {
                                    st0.bindings
                                },
                                empties: if was_empty {
                                    st0.empties + 1
                                } else {
                                    st0.empties
                                },
                            };
                            assert(slot as int == slot_of(st0.bindings, key_spec));
                            assert(out@ =~= st1.template);
                            if is_new {
                                assert(binds.deep_view() =~~= st0.bindings.push(key_spec));
                            }
                            assert(binds.deep_view() =~~= st1.bindings);
                            assert(empties as nat == st1.empties);
                            assert(expand_from(s@, i as int, st0) == expand_from(
                                s@,
                                j + 1,
                                st1,
                            ));
                            assert(st1 == ExpState {
                                template: out@,
                                bindings: binds.deep_view(),
                                empties: empties as nat,
                            });
                        }
                        i = j + 1;
                    } else {
                        append_range(&mut out, &s, i, j + 1);
                        proof {
                            assert(out@ =~= st0.template + s@.subrange(i as int, j + 1));
                        }
                        i = j + 1;
                    }
                }
            }
        } else if c == '}' && i + 1 < s.len() && s[i + 1] == '}' {
            out.push('}');
            out.push('}');
            proof {
                assert(out@ =~= st0.template + seq!['}', '}']);
            }
            i = i + 2;
        } else {
            out.push(c);
            proof {
                assert(out@ =~= st0.template + seq![s@[i as int]]);
            }
            i = i + 1;
        }
    }
    let template = chars_string(&out);
    let mut bindings: Vec<String> = Vec::new();
    let mut k: usize = 0;
    while k < binds.len()
        invariant
            k <= binds.len(),
            bindings.deep_view() == binds.deep_view().subrange(0, k as int),
        decreases binds.len() - k,
    {
        let ghost old_bv = bindings.deep_view();
        bindings.push(chars_string(&binds[k]));
        proof {
            assert(bindings.deep_view() =~~= old_bv.push(binds@[k as int]@));
            assert(binds.deep_view()[k as int] =~= binds@[k as int]@);
            assert(bindings.deep_view() =~~= binds.deep_view().subrange(0, k + 1));
        }
        k = k + 1;
    }
    proof {
        assert(binds.deep_view().subrange(0, binds.len() as int) =~~= binds.deep_view());
    }
    ExpandedDisplay { template: NormalizedDoc { text: template, span: doc.span }, bindings }
}

/// The first slot whose binding equals `key`, or the number of bindings when
/// none does, as `slot_of` states.
fn find_slot(binds: &Vec<Vec<char>>, key: &Vec<char>) -> (r: usize)
    ensures
        r as int == slot_of(binds.deep_view(), key@),
{
    let mut k: usize = 0;
    while k < binds.len()
        invariant
            k <= binds.len(),
            forall|m: int| 0 <= m < k ==> binds.deep_view()[m] != key@,
        decreases binds.len() - k,
    {
        proof {
            assert(binds.deep_view()[k as int] =~= binds@[k as int]@);
        }
        if chars_eq(&binds[k], key) {
            proof {
                lemma_slot_of_unique(binds.deep_view(), key@, k as int);
            }
            return k;
        }
        k = k + 1;
    }
    proof {
        lemma_slot_of_unique(binds.deep_view(), key@, binds.len() as int);
    }
    k
}

} // verus!
