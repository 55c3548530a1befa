//! Normalized spellings of identifiers and type expressions.
//!
//! A spelling is normalized by lower-casing it (`str::to_lowercase`) and by
//! collapsing its whitespace: a run of whitespace survives, as one space, only
//! where it separates two word characters (`dyn Foo`, `&'a str`); elsewhere
//! it is dropped (`Vec < u8 >` becomes `vec<u8>`). Type equality throughout the
//! library is equality of these spellings: it is syntactic, never alias-aware.
use vstd::prelude::*;

verus! {

/// Whitespace between tokens of a spelling.
pub open spec fn is_space(c: char) -> bool {
    c == ' ' || c == '\t' || c == '\n' || c == '\r'
}

/// A character that can continue an identifier or a keyword.
pub open spec fn is_word(c: char) -> bool {
    ('a' <= c && c <= 'z') || ('A' <= c && c <= 'Z') || ('0' <= c && c <= '9') || c == '_'
        || (c as u32) > 127
}

/// What `str::to_lowercase` makes of the characters `s`.
pub uninterp spec fn lower_of(s: Seq<char>) -> Seq<char>;

/// Relies on `str::to_lowercase`: the lowercase mapping of each character,
/// per the Unicode Character Database; the result depends on the text alone.
#[verifier::external_body]
pub(crate) fn lowercase(s: &str) -> (r: String)
    ensures
        r@ == lower_of(s@),
{
    s.to_lowercase()
}

/// Collapses the whitespace of `s` from its start, given what was already
/// produced (`out`) and whether whitespace was skipped since the last
/// character produced.
pub open spec fn collapse_from(s: Seq<char>, out: Seq<char>, pending: bool) -> Seq<char>
    decreases s.len(),
{
    if s.len() == 0 {
        out
    } else if is_space(s[0]) {
        collapse_from(s.drop_first(), out, out.len() > 0)
    } else {
        let sep = pending && out.len() > 0 && is_word(out.last()) && is_word(s[0]);
        let out1 = if sep {
            out.push(' ')
        } else {
            out
        };
        collapse_from(s.drop_first(), out1.push(s[0]), false)
    }
}

/// `s` with its whitespace collapsed.
pub open spec fn collapsed(s: Seq<char>) -> Seq<char> {
    collapse_from(s, Seq::empty(), false)
}

/// The normalized spelling of `s`: lower-cased, then collapsed.
pub open spec fn normalized(s: Seq<char>) -> Seq<char> {
    collapsed(lower_of(s))
}

/// Position `i` of `t` is as collapsing leaves it: whitespace there is one
/// space between two word characters.
pub open spec fn collapsed_at(t: Seq<char>, i: int) -> bool {
    is_space(t[i]) ==> t[i] == ' ' && 0 < i < t.len() - 1 && is_word(t[i - 1]) && is_word(t[i + 1])
}

/// `t` has its whitespace collapsed.
pub open spec fn is_collapsed(t: Seq<char>) -> bool {
    forall|i: int| 0 <= i < t.len() ==> #[trigger] collapsed_at(t, i)
}

proof fn lemma_collapse_from_collapsed(s: Seq<char>, out: Seq<char>, pending: bool)
    requires
        is_collapsed(out),
        pending ==> out.len() > 0,
    ensures
        is_collapsed(collapse_from(s, out, pending)),
    decreases s.len(),
{
    if s.len() > 0 {
        if is_space(s[0]) {
            lemma_collapse_from_collapsed(s.drop_first(), out, out.len() > 0);
        } else {
            let c = s[0];
            let sep = pending && out.len() > 0 && is_word(out.last()) && is_word(c);
            let out1 = if sep {
                out.push(' ')
            } else {
                out
            };
            let out2 = out1.push(c);
            assert forall|i: int| 0 <= i < out2.len() implies #[trigger] collapsed_at(out2, i) by {
                if i < out.len() {
                    assert(collapsed_at(out, i));
                    if is_space(out[i]) {
                        assert(collapsed_at(out, i + 1));
                    }
                }
            }
            lemma_collapse_from_collapsed(s.drop_first(), out2, false);
        }
    }
}

/// The state that collapsing a collapsed `t` reaches after its first `k`
/// characters.
spec fn collapsed_prefix_state(t: Seq<char>, k: int) -> (Seq<char>, bool) {
    if k > 0 && is_space(t[k - 1]) {
        (t.take(k - 1), true)
    } else {
        (t.take(k), false)
    }
}

proof fn lemma_collapse_from_fixed(t: Seq<char>, k: int)
    requires
        is_collapsed(t),
        0 <= k <= t.len(),
    ensures
        collapse_from(t.skip(k), collapsed_prefix_state(t, k).0, collapsed_prefix_state(t, k).1) == t,
    decreases t.len() - k,
{
    let (out, p) = collapsed_prefix_state(t, k);
    if k == t.len() {
        if k > 0 {
            assert(collapsed_at(t, k - 1));
        }
        assert(t.take(k) =~= t);
        assert(t.skip(k).len() == 0);
    } else {
        let rest = t.skip(k);
        assert(rest[0] == t[k]);
        assert(rest.drop_first() =~= t.skip(k + 1));
        assert(collapsed_at(t, k));
        let c = t[k];
        if is_space(c) {
            assert(collapsed_at(t, k - 1));
            assert(out.len() > 0);
        } else {
            if p {
                assert(collapsed_at(t, k - 1));
                assert(collapsed_at(t, k - 2));
                assert(out.last() == t[k - 2]);
                assert(t.take(k - 1).push(' ').push(c) =~= t.take(k + 1));
            } else {
                if k > 0 {
                    assert(collapsed_at(t, k - 1));
                }
                assert(t.take(k).push(c) =~= t.take(k + 1));
            }
        }
        lemma_collapse_from_fixed(t, k + 1);
    }
}

/// Collapsing yields collapsed text, and collapsed text is its own
/// collapse: collapsing twice is the same as collapsing once.
pub proof fn lemma_collapse_idempotent(s: Seq<char>)
    ensures
        is_collapsed(collapsed(s)),
        collapsed(collapsed(s)) == collapsed(s),
{
    lemma_collapse_from_collapsed(s, Seq::empty(), false);
    let t = collapsed(s);
    lemma_collapse_from_fixed(t, 0);
    assert(t.skip(0) =~= t);
    assert(t.take(0) =~= Seq::<char>::empty());
}

/// Normalizing twice is the same as normalizing once, for every spelling
/// whose normalization is already in lower case (lower-casing what
/// `str::to_lowercase` returned changes nothing).
pub proof fn lemma_normalize_idempotent(s: Seq<char>)
    requires
        lower_of(normalized(s)) == normalized(s),
    ensures
        normalized(normalized(s)) == normalized(s),
{
    lemma_collapse_idempotent(lower_of(s));
}

/// Normalization ignores case: spellings with the same lower case (`Foo`,
/// `FOO`, `foo`) normalize to the same spelling.
pub proof fn lemma_normalize_case_insensitive(s1: Seq<char>, s2: Seq<char>)
    requires
        lower_of(s1) == lower_of(s2),
    ensures
        normalized(s1) == normalized(s2),
{
}

/// Relies on `str::chars` collected into a `Vec`: the characters of `s`, in order.
#[verifier::external_body]
pub(crate) fn chars_of(s: &str) -> (r: Vec<char>)
    ensures
        r@ == s@,
{
    s.chars().collect()
}

/// Relies on `String::push`: appends one character.
#[verifier::external_body]
pub(crate) fn push_char(s: &mut String, c: char)
    ensures
        final(s)@ == old(s)@.push(c),
{
    s.push(c)
}

/// Collapses the whitespace of the characters `cs[lo..hi]`.
fn collapse_range(cs: &Vec<char>, lo: usize, hi: usize) -> (r: String)
    requires
        lo <= hi <= cs@.len(),
    ensures
        r@ == collapsed(cs@.subrange(lo as int, hi as int)),
{
    let ghost s = cs@.subrange(lo as int, hi as int);
    let mut out = String::new();
    let mut pending = false;
    let mut nonempty = false;
    let mut last_word = false;
    let mut i = lo;
    while i < hi
        invariant
            lo <= i <= hi <= cs@.len(),
            s == cs@.subrange(lo as int, hi as int),
            pending ==> out@.len() > 0,
            nonempty == (out@.len() > 0),
            last_word == (out@.len() > 0 && is_word(out@.last())),
            collapsed(s) == collapse_from(cs@.subrange(i as int, hi as int), out@, pending),
        decreases hi - i,
    {
        let ghost rest = cs@.subrange(i as int, hi as int);
        assert(rest[0] == cs@[i as int]);
        assert(rest.drop_first() =~= cs@.subrange(i + 1, hi as int));
        let c = cs[i];
        if c == ' ' || c == '\t' || c == '\n' || c == '\r' {
            pending = nonempty;
        } else {
            if pending && last_word && is_word_char(c) {
                push_char(&mut out, ' ');
            }
            push_char(&mut out, c);
            pending = false;
            nonempty = true;
            last_word = is_word_char(c);
        }
        i += 1;
    }
    assert(cs@.subrange(hi as int, hi as int).len() == 0);
    out
}

pub(crate) fn is_word_char(c: char) -> (r: bool)
    ensures
        r == is_word(c),
{
    ('a' <= c && c <= 'z') || ('A' <= c && c <= 'Z') || ('0' <= c && c <= '9') || c == '_'
        || (c as u32) > 127
}

/// Whether a string is empty.
pub fn is_empty_string(s: &String) -> (r: bool)
    ensures
        r == (s@.len() == 0),
{
    s.as_str().is_empty()
}

pub(crate) fn is_space_char(c: char) -> (r: bool)
    ensures
        r == is_space(c),
{
    c == ' ' || c == '\t' || c == '\n' || c == '\r'
}

/// The normalized spelling of `s`.
pub fn normalize(s: &str) -> (r: String)
    ensures
        r@ == normalized(s@),
{
    let low = lowercase(s);
    let cs = chars_of(low.as_str());
    let r = collapse_range(&cs, 0, cs.len());
    assert(cs@.subrange(0, cs@.len() as int) =~= low@);
    r
}

/// Normalizes the characters `cs[lo..hi]`.
pub fn normalize_range(cs: &Vec<char>, lo: usize, hi: usize) -> (r: String)
    requires
        lo <= hi <= cs@.len(),
    ensures
        r@ == normalized(cs@.subrange(lo as int, hi as int)),
{
    let sub = range_string(cs, lo, hi);
    normalize(sub.as_str())
}

/// The characters `cs[lo..hi]` as a string.
pub(crate) fn range_string(cs: &Vec<char>, lo: usize, hi: usize) -> (r: String)
    requires
        lo <= hi <= cs@.len(),
    ensures
        r@ == cs@.subrange(lo as int, hi as int),
{
    let mut sub = String::new();
    let mut i = lo;
    while i < hi
        invariant
            lo <= i <= hi <= cs@.len(),
            sub@ == cs@.subrange(lo as int, i as int),
        decreases hi - i,
    {
        push_char(&mut sub, cs[i]);
        i += 1;
        assert(sub@ =~= cs@.subrange(lo as int, i as int));
    }
    sub
}

} // verus!
