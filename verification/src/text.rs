//! Character-sequence helpers shared by the normalizer and the expander:
//! whitespace trimming, comment-marker stripping, line splitting and joining,
//! and decimal rendering of slot indices.

use vstd::prelude::*;

verus! {

/// What `char::is_whitespace` returns for a character: a fixed function of
/// the character alone, given by the Unicode `White_Space` property.
pub uninterp spec fn is_space(c: char) -> bool;

/// Relies on `char::is_whitespace`: true iff the character has the Unicode
/// `White_Space` property, a function of the character alone.
pub assume_specification[ char::is_whitespace ](c: char) -> (r: bool)
    ensures
        r == is_space(c),
;

/// Relies on `String::push`: appends the given character to the end of the
/// string.
pub assume_specification[ String::push ](s: &mut String, ch: char)
    ensures
        final(s)@ == old(s)@ + seq![ch],
;

/// The first index at or after `i` holding `c`, or `s.len()` when none does.
pub open spec fn find_at(s: Seq<char>, i: int, c: char) -> int
    decreases s.len() - i when 0 <= i <= s.len()
{
    if i >= s.len() {
        s.len() as int
    } else if s[i] == c {
        i
    } else {
        find_at(s, i + 1, c)
    }
}

pub proof fn lemma_find_at(s: Seq<char>, i: int, c: char)
    requires
        0 <= i <= s.len(),
    ensures
        i <= find_at(s, i, c) <= s.len(),
        find_at(s, i, c) < s.len() ==> s[find_at(s, i, c)] == c,
        forall|k: int| i <= k < find_at(s, i, c) ==> s[k] != c,
    decreases s.len() - i,
{
    if i < s.len() && s[i] != c {
        lemma_find_at(s, i + 1, c);
    }
}

/// First index at or after `from` holding `c`, or the length when none does.
pub fn find_char(s: &Vec<char>, from: usize, c: char) -> (r: usize)
    requires
        from <= s.len(),
    ensures
        r as int == find_at(s@, from as int, c),
{
    let mut k = from;
    while k < s.len()
        invariant
            from <= k <= s.len(),
            find_at(s@, from as int, c) == find_at(s@, k as int, c),
        decreases s.len() - k,
    {
        if s[k] == c {
            return k;
        }
        k = k + 1;
    }
    k
}

/// The suffix of `s` with every leading whitespace character removed.
pub open spec fn trim_start(s: Seq<char>) -> Seq<char>
    decreases s.len(),
{
    if s.len() > 0 && is_space(s[0]) {
        trim_start(s.drop_first())
    } else {
        s
    }
}

/// The prefix of `s` with every trailing whitespace character removed.
pub open spec fn trim_end(s: Seq<char>) -> Seq<char>
    decreases s.len(),
{
    if s.len() > 0 && is_space(s[s.len() - 1]) {
        trim_end(s.drop_last())
    } else {
        s
    }
}

/// `s` with outer whitespace removed on both sides.
pub open spec fn trim(s: Seq<char>) -> Seq<char> {
    trim_end(trim_start(s))
}

/// The suffix of `s` with every leading `*` removed.
pub open spec fn strip_stars(s: Seq<char>) -> Seq<char>
    decreases s.len(),
{
    if s.len() > 0 && s[0] == '*' {
        strip_stars(s.drop_first())
    } else {
        s
    }
}

proof fn lemma_trim_start_at(s: Seq<char>, a: int)
    requires
        0 <= a <= s.len(),
        forall|k: int| 0 <= k < a ==> is_space(s[k]),
        a < s.len() ==> !is_space(s[a]),
    ensures
        trim_start(s) == s.subrange(a, s.len() as int),
    decreases a,
{
    if a == 0 {
        assert(s.subrange(0, s.len() as int) =~= s);
    } else {
        assert(is_space(s[0]));
        lemma_trim_start_at(s.drop_first(), a - 1);
        assert(s.drop_first().subrange(a - 1, s.drop_first().len() as int) =~= s.subrange(
            a,
            s.len() as int,
        ));
    }
}

proof fn lemma_trim_end_at(s: Seq<char>, b: int)
    requires
        0 <= b <= s.len(),
        forall|k: int| b <= k < s.len() ==> is_space(s[k]),
        b > 0 ==> !is_space(s[b - 1]),
    ensures
        trim_end(s) == s.subrange(0, b),
    decreases s.len() - b,
{
    if b == s.len() {
        assert(s.subrange(0, b) =~= s);
    } else {
        assert(is_space(s[s.len() - 1]));
        lemma_trim_end_at(s.drop_last(), b);
        assert(s.drop_last().subrange(0, b) =~= s.subrange(0, b));
    }
}

proof fn lemma_strip_stars_at(s: Seq<char>, a: int)
    requires
        0 <= a <= s.len(),
        forall|k: int| 0 <= k < a ==> s[k] == '*',
        a < s.len() ==> s[a] != '*',
    ensures
        strip_stars(s) == s.subrange(a, s.len() as int),
    decreases a,
{
    if a == 0 {
        assert(s.subrange(0, s.len() as int) =~= s);
    } else {
        lemma_strip_stars_at(s.drop_first(), a - 1);
        assert(s.drop_first().subrange(a - 1, s.drop_first().len() as int) =~= s.subrange(
            a,
            s.len() as int,
        ));
    }
}

/// Appends `s[a..b]` to `out`.
pub fn append_range(out: &mut Vec<char>, s: &Vec<char>, a: usize, b: usize)
    requires
        a <= b <= s.len(),
    ensures
        final(out)@ == old(out)@ + s@.subrange(a as int, b as int),
{
    let mut k = a;
    while k < b
        invariant
            a <= k <= b <= s.len(),
            out@ == old(out)@ + s@.subrange(a as int, k as int),
        decreases b - k,
    {
        out.push(s[k]);
        proof {
            assert(s@.subrange(a as int, k + 1) =~= s@.subrange(a as int, k as int) + seq![
                s@[k as int],
            ]);
        }
        k = k + 1;
    }
    proof {
        assert(out@ =~= old(out)@ + s@.subrange(a as int, b as int));
    }
}

/// A fresh copy of `s[a..b]`.
pub fn subvec(s: &Vec<char>, a: usize, b: usize) -> (r: Vec<char>)
    requires
        a <= b <= s.len(),
    ensures
        r@ == s@.subrange(a as int, b as int),
{
    let mut r: Vec<char> = Vec::new();
    append_range(&mut r, s, a, b);
    r
}

/// `s` with outer whitespace removed on both sides, as `trim` states.
pub fn trim_exec(s: &Vec<char>) -> (r: Vec<char>)
    ensures
        r@ == trim(s@),
{
    let mut a: usize = 0;
    while a < s.len() && s[a].is_whitespace()
        invariant
            a <= s.len(),
            forall|k: int| 0 <= k < a ==> is_space(s@[k]),
        decreases s.len() - a,
    {
        a = a + 1;
    }
    proof {
        lemma_trim_start_at(s@, a as int);
    }
    if a == s.len() {
        proof {
            assert(trim_start(s@) =~= Seq::<char>::empty());
            assert(trim(s@) =~= Seq::<char>::empty());
        }
        return Vec::new();
    }
    let mut b: usize = s.len();
    while b > a && s[b - 1].is_whitespace()
        invariant
            a <= b <= s.len(),
            forall|k: int| b <= k < s.len() ==> is_space(s@[k]),
        decreases b,
    {
        b = b - 1;
    }
    proof {
        // b > a here: s[a] is not whitespace, so the backward scan stops at or
        // after a + 1.
        let t = trim_start(s@);
        assert(t == s@.subrange(a as int, s@.len() as int));
        lemma_trim_end_at(t, b - a);
        assert(t.subrange(0, b - a) =~= s@.subrange(a as int, b as int));
    }
    subvec(s, a, b)
}

/// The suffix of `s` with every leading `*` removed, as `strip_stars` states.
pub fn strip_stars_exec(s: &Vec<char>) -> (r: Vec<char>)
    ensures
        r@ == strip_stars(s@),
{
    let mut a: usize = 0;
    while a < s.len() && s[a] == '*'
        invariant
            a <= s.len(),
            forall|k: int| 0 <= k < a ==> s@[k] == '*',
        decreases s.len() - a,
    {
        a = a + 1;
    }
    proof {
        lemma_strip_stars_at(s@, a as int);
    }
    subvec(s, a, s.len())
}

/// The pieces of `s[i..]` delimited by `'\n'`; a text with no newline is one
/// piece, and every newline starts a further piece, so an empty text is one
/// empty piece.
pub open spec fn split_from(s: Seq<char>, i: int) -> Seq<Seq<char>>
    decreases s.len() - i when 0 <= i <= s.len()
{
    let j = find_at(s, i, '\n');
    if i <= j < s.len() {
        seq![s.subrange(i, j)] + split_from(s, j + 1)
    } else {
        seq![s.subrange(i, s.len() as int)]
    }
}

/// The lines of `s`, split at `'\n'`.
pub open spec fn split_lines(s: Seq<char>) -> Seq<Seq<char>> {
    split_from(s, 0)
}

/// The pieces joined with `sep` between them.
pub open spec fn join_with(pieces: Seq<Seq<char>>, sep: char) -> Seq<char>
    decreases pieces.len(),
{
    if pieces.len() == 0 {
        Seq::empty()
    } else if pieces.len() == 1 {
        pieces[0]
    } else {
        pieces[0] + seq![sep] + join_with(pieces.drop_first(), sep)
    }
}

pub proof fn lemma_join_push(pieces: Seq<Seq<char>>, x: Seq<char>, sep: char)
    ensures
        join_with(pieces.push(x), sep) == if pieces.len() == 0 {
            x
        } else {
            join_with(pieces, sep) + seq![sep] + x
        },
    decreases pieces.len(),
{
    if pieces.len() == 0 {
        assert(pieces.push(x)[0] =~= x);
    } else if pieces.len() == 1 {
        assert(pieces.push(x).drop_first() =~~= seq![x]);
        assert(pieces.push(x)[0] =~= pieces[0]);
        assert(join_with(seq![x], sep) == x);
        assert(join_with(pieces.push(x), sep) == pieces.push(x)[0] + seq![sep] + join_with(
            pieces.push(x).drop_first(),
            sep,
        ));
        assert(join_with(pieces.push(x), sep) =~= join_with(pieces, sep) + seq![sep] + x);
    } else {
        lemma_join_push(pieces.drop_first(), x, sep);
        assert(pieces.push(x).drop_first() =~~= pieces.drop_first().push(x));
        assert(pieces.push(x)[0] =~= pieces[0]);
        assert(join_with(pieces.push(x), sep) == pieces.push(x)[0] + seq![sep] + join_with(
            pieces.push(x).drop_first(),
            sep,
        ));
        assert(join_with(pieces, sep) == pieces[0] + seq![sep] + join_with(
            pieces.drop_first(),
            sep,
        ));
        assert(join_with(pieces.push(x), sep) =~= join_with(pieces, sep) + seq![sep] + x);
    }
}

proof fn lemma_join_split_from(s: Seq<char>, i: int)
    requires
        0 <= i <= s.len(),
    ensures
        join_with(split_from(s, i), '\n') == s.subrange(i, s.len() as int),
    decreases s.len() - i,
{
    lemma_find_at(s, i, '\n');
    let j = find_at(s, i, '\n');
    if i <= j < s.len() {
        lemma_join_split_from(s, j + 1);
        assert(split_from(s, j + 1).len() >= 1);
        let pieces = split_from(s, i);
        assert(pieces[0] == s.subrange(i, j));
        assert(pieces.drop_first() =~~= split_from(s, j + 1));
        assert(join_with(pieces, '\n') == pieces[0] + seq!['\n'] + join_with(
            pieces.drop_first(),
            '\n',
        ));
        assert(s.subrange(i, j) + seq!['\n'] + s.subrange(j + 1, s.len() as int) =~= s.subrange(
            i,
            s.len() as int,
        ));
    } else {
        assert(split_from(s, i) =~~= seq![s.subrange(i, s.len() as int)]);
    }
}

/// Splitting a text at newlines and rejoining with newlines restores it.
pub proof fn lemma_join_split(s: Seq<char>)
    ensures
        join_with(split_lines(s), '\n') == s,
{
    lemma_join_split_from(s, 0);
    assert(s.subrange(0, s.len() as int) =~= s);
}

/// The lines of `s`, split at `'\n'`, as `split_lines` states.
pub fn split_lines_exec(s: &Vec<char>) -> (r: Vec<Vec<char>>)
    ensures
        r.deep_view() == split_lines(s@),
{
    let mut r: Vec<Vec<char>> = Vec::new();
    let mut pos: usize = 0;
    loop
        invariant
            pos <= s.len(),
            split_lines(s@) == r.deep_view() + split_from(s@, pos as int),
        decreases s.len() - pos,
    {
        let j = find_char(s, pos, '\n');
        proof {
            lemma_find_at(s@, pos as int, '\n');
        }
        let piece = subvec(s, pos, j);
        let ghost old_dv = r.deep_view();
        r.push(piece);
        proof {
            assert(r.deep_view() =~~= old_dv.push(s@.subrange(pos as int, j as int)));
        }
        if j == s.len() {
            proof {
                assert(split_from(s@, pos as int) =~~= seq![s@.subrange(pos as int, j as int)]);
                assert(r.deep_view() =~~= old_dv + split_from(s@, pos as int));
            }
            return r;
        } else {
            proof {
                assert(split_from(s@, pos as int) == seq![s@.subrange(pos as int, j as int)]
                    + split_from(s@, j + 1));
                assert(old_dv.push(s@.subrange(pos as int, j as int)) + split_from(s@, j + 1)
                    =~~= old_dv + split_from(s@, pos as int));
            }
            pos = j + 1;
        }
    }
}

/// The pieces joined with `sep` between them, as `join_with` states.
pub fn join_exec(pieces: &Vec<Vec<char>>, sep: char) -> (r: Vec<char>)
    ensures
        r@ == join_with(pieces.deep_view(), sep),
{
    let mut r: Vec<char> = Vec::new();
    let mut i: usize = 0;
    while i < pieces.len()
        invariant
            i <= pieces.len(),
            r@ == join_with(pieces.deep_view().subrange(0, i as int), sep),
        decreases pieces.len() - i,
    {
        if i > 0 {
            r.push(sep);
        }
        append_range(&mut r, &pieces[i], 0, pieces[i].len());
        proof {
            let dv = pieces.deep_view();
            assert(dv.subrange(0, i + 1) =~~= dv.subrange(0, i as int).push(dv[i as int]));
            lemma_join_push(dv.subrange(0, i as int), dv[i as int], sep);
            assert(pieces[i as int]@.subrange(0, pieces[i as int]@.len() as int) =~= dv[i as int]);
            assert(r@ =~= join_with(dv.subrange(0, i + 1), sep));
        }
        i = i + 1;
    }
    proof {
        assert(pieces.deep_view().subrange(0, pieces.len() as int) =~~= pieces.deep_view());
    }
    r
}

/// The characters of `s`, in order.
pub fn str_chars(s: &str) -> (r: Vec<char>)
    ensures
        r@ == s@,
{
    let n = s.unicode_len();
    let mut r: Vec<char> = Vec::new();
    let mut k: usize = 0;
    while k < n
        invariant
            k <= n,
            n == s@.len(),
            r@ == s@.subrange(0, k as int),
        decreases n - k,
    {
        r.push(s.get_char(k));
        proof {
            assert(s@.subrange(0, k + 1) =~= s@.subrange(0, k as int) + seq![s@[k as int]]);
        }
        k = k + 1;
    }
    proof {
        assert(s@.subrange(0, s@.len() as int) =~= s@);
    }
    r
}

/// A `String` holding exactly the characters of `v`.
pub fn chars_string(v: &Vec<char>) -> (r: String)
    ensures
        r@ == v@,
{
    let mut r = String::new();
    let mut k: usize = 0;
    while k < v.len()
        invariant
            k <= v.len(),
            r@ == v@.subrange(0, k as int),
        decreases v.len() - k,
    {
        r.push(v[k]);
        proof {
            assert(v@.subrange(0, k + 1) =~= v@.subrange(0, k as int) + seq![v@[k as int]]);
        }
        k = k + 1;
    }
    proof {
        assert(v@.subrange(0, v@.len() as int) =~= v@);
    }
    r
}

} // verus!
