//! The query grammar. A query is one line of text:
//!
//! ```text
//! query        := fn_query | record_query | union_query
//! fn_query     := 'fn' ident? '(' param_list? ')' ('->' type)?
//! param        := ident ':' type | type
//! record_query := 'struct' ident? ('{' field_list '}' | '(' type_list ')' | ';')
//! field        := ident ':' type? | type
//! union_query  := 'enum' ident? '{' variant_list '}'
//! variant      := ident ('{' field_list '}' | '(' type_list ')')?
//! ```
//!
//! Lists take an optional trailing comma. The text of a type runs up to the
//! first comma or closing bracket outside its own brackets, and must then
//! parse, as a whole, as one type (syn's `Type` parser decides). An
//! identifier does not start with a digit. `ident ':'` (but not
//! `ident ::`) starts a named parameter or field. A leading receiver
//! parameter (`self`, `&self`, `&mut self`, `self: T`, ...) is dropped, so a
//! method signature can be pasted as it is written. Nothing may follow the
//! query.
use vstd::prelude::*;
use crate::text::{range_string, is_empty_string, is_space, is_space_char, is_word, is_word_char, normalize_range, normalized};
use crate::model::{
    opt_view, return_type_of, unit_spelling, EnumDef, Field, Fields, FieldsKind, FnArg, FnSignature,
    Item, ReturnType, StructDef, Variant,
};

verus! {

/// The first position at or after `i` that is not whitespace.
pub open spec fn skip_ws(s: Seq<char>, i: int) -> int
    decreases s.len() - i,
{
    if 0 <= i < s.len() && is_space(s[i]) {
        skip_ws(s, i + 1)
    } else {
        i
    }
}

/// The end of the run of word characters that starts at `i`.
pub open spec fn word_end(s: Seq<char>, i: int) -> int
    decreases s.len() - i,
{
    if 0 <= i < s.len() && is_word(s[i]) {
        word_end(s, i + 1)
    } else {
        i
    }
}

pub open spec fn is_opener(c: char) -> bool {
    c == '(' || c == '[' || c == '{' || c == '<'
}

pub open spec fn is_closer(c: char) -> bool {
    c == ')' || c == ']' || c == '}' || c == '>'
}

/// The end of a type that is being scanned at `i`, inside `depth` brackets
/// opened by the type itself. The type stops at a comma, semicolon or
/// closing bracket outside those brackets; `->` is not a bracket.
pub open spec fn type_end(s: Seq<char>, i: int, depth: nat) -> int
    decreases s.len() - i,
{
    if i < 0 || i >= s.len() {
        i
    } else {
        let c = s[i];
        if depth == 0 && (c == ',' || c == ';' || c == ')' || c == ']' || c == '}') {
            i
        } else if c == '-' && i + 1 < s.len() && s[i + 1] == '>' {
            type_end(s, i + 2, depth)
        } else if is_opener(c) {
            type_end(s, i + 1, depth + 1)
        } else if is_closer(c) && depth > 0 {
            type_end(s, i + 1, (depth - 1) as nat)
        } else {
            type_end(s, i + 1, depth)
        }
    }
}

/// A character that can start an identifier: a word character but not a
/// digit.
pub open spec fn is_ident_start(c: char) -> bool {
    is_word(c) && !('0' <= c && c <= '9')
}

/// Whether `s` is one type of Rust's syntax, as syn's `Type` parser reads it.
pub uninterp spec fn is_type_syntax(s: Seq<char>) -> bool;

/// Relies on `syn::parse_str::<syn::Type>`: whether the whole text parses as
/// one type. The answer depends on the text alone.
#[verifier::external_body]
fn parses_as_type(s: &str) -> (r: bool)
    ensures
        r == is_type_syntax(s@),
{
    syn::parse_str::<syn::Type>(s).is_ok()
}

/// `s[i]` exists and is `c`.
pub open spec fn char_at(s: Seq<char>, i: int, c: char) -> bool {
    0 <= i < s.len() && s[i] == c
}

/// A type at `i` (after whitespace): the list delimiters bound its text,
/// which must be one type and have a non-empty normalized spelling; the
/// spelling and where the type ends.
pub open spec fn p_type(s: Seq<char>, i: int) -> Option<(Seq<char>, int)> {
    let j = skip_ws(s, i);
    let e = type_end(s, j, 0);
    let t = normalized(s.subrange(j, e));
    if 0 <= j <= e <= s.len() && is_type_syntax(s.subrange(j, e)) && t.len() > 0 {
        Some((t, e))
    } else {
        None
    }
}

/// A name followed by a single colon starts at `i`: the name's end and the
/// colon's position.
pub open spec fn named_at(s: Seq<char>, i: int) -> Option<(int, int, int)> {
    let j = skip_ws(s, i);
    let e = word_end(s, j);
    let k = skip_ws(s, e);
    if 0 <= j < e <= k && is_ident_start(s[j]) && char_at(s, k, ':') && !char_at(s, k + 1, ':') {
        Some((j, e, k))
    } else {
        None
    }
}

/// A word at `i` (after whitespace): its normalized spelling and its end.
pub open spec fn p_ident(s: Seq<char>, i: int) -> Option<(Seq<char>, int)> {
    let j = skip_ws(s, i);
    let e = word_end(s, j);
    if 0 <= j < e <= s.len() && is_ident_start(s[j]) {
        Some((normalized(s.subrange(j, e)), e))
    } else {
        None
    }
}

/// The view of a parameter: its name, if written, and its type.
pub type ParamView = (Option<Seq<char>>, Seq<char>);

/// The view of a field: its name and its type, either of which may be absent.
pub type FieldV = (Option<Seq<char>>, Option<Seq<char>>);

/// A parameter: `name: type` or a bare type.
pub open spec fn p_param(s: Seq<char>, i: int) -> Option<(ParamView, int)> {
    match named_at(s, i) {
        Some((j, e, k)) => match p_type(s, k + 1) {
            Some((t, n)) => Some(((Some(normalized(s.subrange(j, e))), t), n)),
            None => None,
        },
        None => match p_type(s, i) {
            Some((t, n)) => Some(((None, t), n)),
            None => None,
        },
    }
}

/// A field between braces: `name: type`, `name:` with no type, or a bare type.
pub open spec fn p_named_field(s: Seq<char>, i: int) -> Option<(FieldV, int)> {
    match named_at(s, i) {
        Some((j, e, k)) => {
            let name = Some(normalized(s.subrange(j, e)));
            let k2 = skip_ws(s, k + 1);
            if char_at(s, k2, ',') || char_at(s, k2, '}') {
                Some(((name, None), k2))
            } else {
                match p_type(s, k + 1) {
                    Some((t, n)) => Some(((name, Some(t)), n)),
                    None => None,
                }
            }
        },
        None => match p_type(s, i) {
            Some((t, n)) => Some(((None, Some(t)), n)),
            None => None,
        },
    }
}

/// A field between parentheses: a type.
pub open spec fn p_tuple_field(s: Seq<char>, i: int) -> Option<(FieldV, int)> {
    match p_type(s, i) {
        Some((t, n)) => Some(((None, Some(t)), n)),
        None => None,
    }
}

/// After an item of a list ends at `k`: the list goes on after a comma
/// (`Some(true)` and the position after it), or closes with `close`
/// (`Some(false)` and the position after it).
pub open spec fn list_sep(s: Seq<char>, k: int, close: char) -> Option<(bool, int)> {
    let k2 = skip_ws(s, k);
    if char_at(s, k2, ',') {
        Some((true, k2 + 1))
    } else if char_at(s, k2, close) {
        Some((false, k2 + 1))
    } else {
        None
    }
}

/// The list of parameters from `i` up to and past `)`, after those in `acc`.
pub open spec fn p_params(s: Seq<char>, i: int, acc: Seq<ParamView>) -> Option<(Seq<ParamView>, int)>
    decreases s.len() - i,
{
    let j = skip_ws(s, i);
    if char_at(s, j, ')') {
        Some((acc, j + 1))
    } else {
        match p_param(s, j) {
            Some((a, k)) => match list_sep(s, k, ')') {
                Some((true, n)) => if i < n <= s.len() {
                    p_params(s, n, acc.push(a))
                } else {
                    None
                },
                Some((false, n)) => Some((acc.push(a), n)),
                None => None,
            },
            None => None,
        }
    }
}

/// The fields of a record or variant from `i` up to and past the closing
/// bracket (`}` when `braced`, else `)`), after those in `acc`.
pub open spec fn p_fields(s: Seq<char>, i: int, acc: Seq<FieldV>, braced: bool) -> Option<(Seq<FieldV>, int)>
    decreases s.len() - i,
{
    let close = if braced {
        '}'
    } else {
        ')'
    };
    let j = skip_ws(s, i);
    if char_at(s, j, close) {
        Some((acc, j + 1))
    } else {
        let item = if braced {
            p_named_field(s, j)
        } else {
            p_tuple_field(s, j)
        };
        match item {
            Some((a, k)) => match list_sep(s, k, close) {
                Some((true, n)) => if i < n <= s.len() {
                    p_fields(s, n, acc.push(a), braced)
                } else {
                    None
                },
                Some((false, n)) => Some((acc.push(a), n)),
                None => None,
            },
            None => None,
        }
    }
}

/// The view of a variant: its name, the layout of its fields, and the fields.
pub type VariantV = (Option<Seq<char>>, FieldsKind, Seq<FieldV>);

/// A variant: a name, then braced fields, parenthesized types, or nothing.
pub open spec fn p_variant(s: Seq<char>, i: int) -> Option<(VariantV, int)> {
    match p_ident(s, i) {
        Some((name, e)) => {
            let j = skip_ws(s, e);
            if char_at(s, j, '{') {
                match p_fields(s, j + 1, Seq::empty(), true) {
                    Some((fs, n)) => Some(((Some(name), list_kind(true, fs), fs), n)),
                    None => None,
                }
            } else if char_at(s, j, '(') {
                match p_fields(s, j + 1, Seq::empty(), false) {
                    Some((fs, n)) => Some(((Some(name), list_kind(false, fs), fs), n)),
                    None => None,
                }
            } else {
                Some(((Some(name), FieldsKind::Unit, Seq::empty()), e))
            }
        },
        None => None,
    }
}

/// The variants from `i` up to and past `}`, after those in `acc`.
pub open spec fn p_variants(s: Seq<char>, i: int, acc: Seq<VariantV>) -> Option<(Seq<VariantV>, int)>
    decreases s.len() - i,
{
    let j = skip_ws(s, i);
    if char_at(s, j, '}') {
        Some((acc, j + 1))
    } else {
        match p_variant(s, j) {
            Some((a, k)) => match list_sep(s, k, '}') {
                Some((true, n)) => if i < n <= s.len() {
                    p_variants(s, n, acc.push(a))
                } else {
                    None
                },
                Some((false, n)) => Some((acc.push(a), n)),
                None => None,
            },
            None => None,
        }
    }
}

/// The layout of a bracketed field list: none at all is the unit layout.
pub open spec fn list_kind(braced: bool, fs: Seq<FieldV>) -> FieldsKind {
    if fs.len() == 0 {
        FieldsKind::Unit
    } else if braced {
        FieldsKind::Named
    } else {
        FieldsKind::Unnamed
    }
}

/// What a query describes.
pub enum QueryShape {
    Fn { name: Option<Seq<char>>, params: Seq<ParamView>, ret: Option<Seq<char>> },
    Record { name: Option<Seq<char>>, is_tup: bool, kind: FieldsKind, fields: Seq<FieldV> },
    Union { name: Option<Seq<char>>, variants: Seq<VariantV> },
}

pub open spec fn self_word() -> Seq<char> {
    seq!['s', 'e', 'l', 'f']
}

/// A parameter that is a method's receiver: named `self`, or a bare type
/// whose last word is `self` (`self`, `&self`, `&mut self`, `&'a self`).
pub open spec fn is_receiver(a: ParamView) -> bool {
    let t = a.1;
    a.0 == Some(self_word()) || (a.0 is None && t.len() >= 4 && t.subrange(t.len() - 4, t.len() as int)
        == self_word() && (t.len() == 4 || !is_word(t[t.len() - 5])))
}

/// The parameters without a leading receiver.
pub open spec fn drop_receiver(ps: Seq<ParamView>) -> Seq<ParamView> {
    if ps.len() > 0 && is_receiver(ps[0]) {
        ps.drop_first()
    } else {
        ps
    }
}

/// An optional name at `i`, and where the text after it starts.
pub open spec fn p_opt_name(s: Seq<char>, i: int) -> (Option<Seq<char>>, int) {
    match p_ident(s, i) {
        Some((n, e)) => (Some(n), e),
        None => (None, i),
    }
}

/// Only whitespace follows position `i`.
pub open spec fn at_end(s: Seq<char>, i: int) -> bool {
    skip_ws(s, i) == s.len()
}

/// A function query after its keyword, which ends at `i`.
pub open spec fn p_fn(s: Seq<char>, i: int) -> Option<QueryShape> {
    let (name, a) = p_opt_name(s, i);
    let b = skip_ws(s, a);
    if !char_at(s, b, '(') {
        None
    } else {
        match p_params(s, b + 1, Seq::empty()) {
            Some((ps, c)) => {
                let params = drop_receiver(ps);
                let d = skip_ws(s, c);
                if d == s.len() {
                    Some(QueryShape::Fn { name, params, ret: None })
                } else if char_at(s, d, '-') && char_at(s, d + 1, '>') {
                    match p_type(s, d + 2) {
                        Some((t, f)) => if at_end(s, f) {
                            Some(
                                QueryShape::Fn {
                                    name,
                                    params,
                                    ret: if t == unit_spelling() {
                                        None
                                    } else {
                                        Some(t)
                                    },
                                },
                            )
                        } else {
                            None
                        },
                        None => None,
                    }
                } else {
                    None
                }
            },
            None => None,
        }
    }
}

/// A record query after its keyword, which ends at `i`.
pub open spec fn p_record(s: Seq<char>, i: int) -> Option<QueryShape> {
    let (name, a) = p_opt_name(s, i);
    let b = skip_ws(s, a);
    if char_at(s, b, '{') || char_at(s, b, '(') {
        let braced = char_at(s, b, '{');
        match p_fields(s, b + 1, Seq::empty(), braced) {
            Some((fs, c)) => if at_end(s, c) {
                Some(
                    QueryShape::Record {
                        name,
                        is_tup: !braced && fs.len() > 0,
                        kind: list_kind(braced, fs),
                        fields: fs,
                    },
                )
            } else {
                None
            },
            None => None,
        }
    } else if char_at(s, b, ';') && at_end(s, b + 1) {
        Some(QueryShape::Record { name, is_tup: false, kind: FieldsKind::Unit, fields: Seq::empty() })
    } else {
        None
    }
}

/// A union query after its keyword, which ends at `i`.
pub open spec fn p_union(s: Seq<char>, i: int) -> Option<QueryShape> {
    let (name, a) = p_opt_name(s, i);
    let b = skip_ws(s, a);
    if !char_at(s, b, '{') {
        None
    } else {
        match p_variants(s, b + 1, Seq::empty()) {
            Some((vs, c)) => if at_end(s, c) {
                Some(QueryShape::Union { name, variants: vs })
            } else {
                None
            },
            None => None,
        }
    }
}

/// The word that opens a query.
pub open spec fn keyword(s: Seq<char>) -> Seq<char> {
    let j = skip_ws(s, 0);
    s.subrange(j, word_end(s, j))
}

pub open spec fn kw_fn() -> Seq<char> {
    seq!['f', 'n']
}

pub open spec fn kw_struct() -> Seq<char> {
    seq!['s', 't', 'r', 'u', 'c', 't']
}

pub open spec fn kw_enum() -> Seq<char> {
    seq!['e', 'n', 'u', 'm']
}

/// What the query text `s` describes, if it follows the grammar.
pub open spec fn p_query(s: Seq<char>) -> Option<QueryShape> {
    let e = word_end(s, skip_ws(s, 0));
    let kw = keyword(s);
    if kw == kw_fn() {
        p_fn(s, e)
    } else if kw == kw_struct() {
        p_record(s, e)
    } else if kw == kw_enum() {
        p_union(s, e)
    } else {
        None
    }
}

fn skip_ws_x(cs: &Vec<char>, i: usize) -> (r: usize)
    requires
        i <= cs@.len(),
    ensures
        r == skip_ws(cs@, i as int),
        cs@.len() <= usize::MAX,
        i <= r <= cs@.len(),
{
    let mut j = i;
    while j < cs.len() && is_space_char(cs[j])
        invariant
            i <= j <= cs@.len(),
            skip_ws(cs@, i as int) == skip_ws(cs@, j as int),
        decreases cs@.len() - j,
    {
        j += 1;
    }
    j
}

fn word_end_x(cs: &Vec<char>, i: usize) -> (r: usize)
    requires
        i <= cs@.len(),
    ensures
        r == word_end(cs@, i as int),
        cs@.len() <= usize::MAX,
        i <= r <= cs@.len(),
{
    let mut j = i;
    while j < cs.len() && is_word_char(cs[j])
        invariant
            i <= j <= cs@.len(),
            word_end(cs@, i as int) == word_end(cs@, j as int),
        decreases cs@.len() - j,
    {
        j += 1;
    }
    j
}

fn type_end_x(cs: &Vec<char>, i: usize) -> (r: usize)
    requires
        i <= cs@.len(),
    ensures
        r == type_end(cs@, i as int, 0),
        i <= r <= cs@.len(),
{
    let mut j = i;
    let mut depth: usize = 0;
    while j < cs.len()
        invariant
            i <= j <= cs@.len(),
            depth <= j,
            type_end(cs@, i as int, 0) == type_end(cs@, j as int, depth as nat),
        decreases cs@.len() - j,
    {
        let c = cs[j];
        if depth == 0 && (c == ',' || c == ';' || c == ')' || c == ']' || c == '}') {
            return j;
        } else if c == '-' && j + 1 < cs.len() && cs[j + 1] == '>' {
            j += 2;
        } else if c == '(' || c == '[' || c == '{' || c == '<' {
            depth += 1;
            j += 1;
        } else if (c == ')' || c == ']' || c == '}' || c == '>') && depth > 0 {
            depth -= 1;
            j += 1;
        } else {
            j += 1;
        }
    }
    j
}

fn is_ident_start_char(c: char) -> (r: bool)
    ensures
        r == is_ident_start(c),
{
    is_word_char(c) && !('0' <= c && c <= '9')
}

fn char_at_x(cs: &Vec<char>, i: usize, c: char) -> (r: bool)
    ensures
        r == char_at(cs@, i as int, c),
        cs@.len() <= usize::MAX,
{
    i < cs.len() && cs[i] == c
}

fn p_type_x(cs: &Vec<char>, i: usize) -> (r: Option<(String, usize)>)
    requires
        i <= cs@.len(),
    ensures
        match r {
            Some((t, n)) => p_type(cs@, i as int) == Some((t@, n as int)) && n <= cs@.len(),
            None => p_type(cs@, i as int) is None,
        },
{
    let j = skip_ws_x(cs, i);
    let e = type_end_x(cs, j);
    let text = range_string(cs, j, e);
    if !parses_as_type(text.as_str()) {
        return None;
    }
    let t = normalize_range(cs, j, e);
    if is_empty_string(&t) {
        None
    } else {
        Some((t, e))
    }
}

fn named_at_x(cs: &Vec<char>, i: usize) -> (r: Option<(usize, usize, usize)>)
    requires
        i <= cs@.len(),
    ensures
        match r {
            Some((j, e, k)) => named_at(cs@, i as int) == Some((j as int, e as int, k as int)) && k < cs@.len(),
            None => named_at(cs@, i as int) is None,
        },
        cs@.len() <= usize::MAX,
{
    let j = skip_ws_x(cs, i);
    let e = word_end_x(cs, j);
    let k = skip_ws_x(cs, e);
    if j < e && is_ident_start_char(cs[j]) && char_at_x(cs, k, ':') && !char_at_x(cs, k + 1, ':') {
        Some((j, e, k))
    } else {
        None
    }
}

fn p_ident_x(cs: &Vec<char>, i: usize) -> (r: Option<(String, usize)>)
    requires
        i <= cs@.len(),
    ensures
        match r {
            Some((t, n)) => p_ident(cs@, i as int) == Some((t@, n as int)) && n <= cs@.len(),
            None => p_ident(cs@, i as int) is None,
        },
{
    let j = skip_ws_x(cs, i);
    let e = word_end_x(cs, j);
    if j < e && is_ident_start_char(cs[j]) {
        Some((normalize_range(cs, j, e), e))
    } else {
        None
    }
}

fn p_param_x(cs: &Vec<char>, i: usize) -> (r: Option<(FnArg, usize)>)
    requires
        i <= cs@.len(),
    ensures
        match r {
            Some((a, n)) => p_param(cs@, i as int) == Some((a@, n as int)) && n <= cs@.len(),
            None => p_param(cs@, i as int) is None,
        },
{
    match named_at_x(cs, i) {
        Some((j, e, k)) => match p_type_x(cs, k + 1) {
            Some((t, n)) => Some((FnArg { name: Some(normalize_range(cs, j, e)), ty: t }, n)),
            None => None,
        },
        None => match p_type_x(cs, i) {
            Some((t, n)) => Some((FnArg { name: None, ty: t }, n)),
            None => None,
        },
    }
}

/// A field between braces, starting at position `i` of the query's
/// characters: `name: type`, `name:` with no type, or a bare type.
pub fn parse_optionaly_named_field(cs: &Vec<char>, i: usize) -> (r: Option<(Field, usize)>)
    requires
        i <= cs@.len(),
    ensures
        match r {
            Some((a, n)) => p_named_field(cs@, i as int) == Some((a@, n as int)) && n <= cs@.len(),
            None => p_named_field(cs@, i as int) is None,
        },
{
    match named_at_x(cs, i) {
        Some((j, e, k)) => {
            let name = normalize_range(cs, j, e);
            let k2 = skip_ws_x(cs, k + 1);
            if char_at_x(cs, k2, ',') || char_at_x(cs, k2, '}') {
                Some((Field { name: Some(name), ty: None }, k2))
            } else {
                match p_type_x(cs, k + 1) {
                    Some((t, n)) => Some((Field { name: Some(name), ty: Some(t) }, n)),
                    None => None,
                }
            }
        },
        None => match p_type_x(cs, i) {
            Some((t, n)) => Some((Field { name: None, ty: Some(t) }, n)),
            None => None,
        },
    }
}

fn p_tuple_field_x(cs: &Vec<char>, i: usize) -> (r: Option<(Field, usize)>)
    requires
        i <= cs@.len(),
    ensures
        match r {
            Some((a, n)) => p_tuple_field(cs@, i as int) == Some((a@, n as int)) && n <= cs@.len(),
            None => p_tuple_field(cs@, i as int) is None,
        },
{
    match p_type_x(cs, i) {
        Some((t, n)) => Some((Field { name: None, ty: Some(t) }, n)),
        None => None,
    }
}

fn list_sep_x(cs: &Vec<char>, k: usize, close: char) -> (r: Option<(bool, usize)>)
    requires
        k <= cs@.len(),
    ensures
        match r {
            Some((more, n)) => list_sep(cs@, k as int, close) == Some((more, n as int)) && n <= cs@.len(),
            None => list_sep(cs@, k as int, close) is None,
        },
{
    let k2 = skip_ws_x(cs, k);
    if char_at_x(cs, k2, ',') {
        Some((true, k2 + 1))
    } else if char_at_x(cs, k2, close) {
        Some((false, k2 + 1))
    } else {
        None
    }
}

/// The views of a sequence of parameters.
pub open spec fn params_view(v: Seq<FnArg>) -> Seq<ParamView> {
    v.map_values(|a: FnArg| a@)
}

/// The views of a sequence of fields.
pub open spec fn fields_v(v: Seq<Field>) -> Seq<FieldV> {
    v.map_values(|f: Field| f@)
}

fn p_params_x(cs: &Vec<char>, i: usize) -> (r: Option<(Vec<FnArg>, usize)>)
    requires
        i <= cs@.len(),
    ensures
        match r {
            Some((v, n)) => p_params(cs@, i as int, Seq::empty()) == Some((params_view(v@), n as int)) && n <= cs@.len(),
            None => p_params(cs@, i as int, Seq::empty()) is None,
        },
{
    let mut v: Vec<FnArg> = Vec::new();
    let mut pos = i;
    assert(params_view(v@) =~= Seq::<ParamView>::empty());
    while pos <= cs.len()
        invariant
            pos <= cs@.len(),
            p_params(cs@, i as int, Seq::empty()) == p_params(cs@, pos as int, params_view(v@)),
        decreases cs@.len() - pos,
    {
        let j = skip_ws_x(cs, pos);
        if char_at_x(cs, j, ')') {
            return Some((v, j + 1));
        }
        match p_param_x(cs, j) {
            Some((a, k)) => {
                let ghost acc = params_view(v@);
                v.push(a);
                assert(params_view(v@) =~= acc.push(a@));
                match list_sep_x(cs, k, ')') {
                    Some((true, n)) => {
                        if pos < n {
                            pos = n;
                        } else {
                            return None;
                        }
                    },
                    Some((false, n)) => {
                        return Some((v, n));
                    },
                    None => {
                        return None;
                    },
                }
            },
            None => {
                return None;
            },
        }
    }
    None
}

fn p_fields_x(cs: &Vec<char>, i: usize, braced: bool) -> (r: Option<(Vec<Field>, usize)>)
    requires
        i <= cs@.len(),
    ensures
        match r {
            Some((v, n)) => p_fields(cs@, i as int, Seq::empty(), braced) == Some((fields_v(v@), n as int)) && n <= cs@.len(),
            None => p_fields(cs@, i as int, Seq::empty(), braced) is None,
        },
{
    let close = if braced {
        '}'
    } else {
        ')'
    };
    let mut v: Vec<Field> = Vec::new();
    let mut pos = i;
    assert(fields_v(v@) =~= Seq::<FieldV>::empty());
    while pos <= cs.len()
        invariant
            pos <= cs@.len(),
            close == (if braced {
                '}'
            } else {
                ')'
            }),
            p_fields(cs@, i as int, Seq::empty(), braced) == p_fields(cs@, pos as int, fields_v(v@), braced),
        decreases cs@.len() - pos,
    {
        let j = skip_ws_x(cs, pos);
        if char_at_x(cs, j, close) {
            return Some((v, j + 1));
        }
        let item = if braced {
            parse_optionaly_named_field(cs, j)
        } else {
            p_tuple_field_x(cs, j)
        };
        match item {
            Some((a, k)) => {
                let ghost acc = fields_v(v@);
                v.push(a);
                assert(fields_v(v@) =~= acc.push(a@));
                match list_sep_x(cs, k, close) {
                    Some((true, n)) => {
                        if pos < n {
                            pos = n;
                        } else {
                            return None;
                        }
                    },
                    Some((false, n)) => {
                        return Some((v, n));
                    },
                    None => {
                        return None;
                    },
                }
            },
            None => {
                return None;
            },
        }
    }
    None
}

fn list_fields(braced: bool, fs: Vec<Field>) -> (r: Fields)
    ensures
        r.spec_kind() == list_kind(braced, fields_v(fs@)),
        fields_v(r.items()) == fields_v(fs@),
{
    let r = Fields::new(
        if braced {
            FieldsKind::Named
        } else {
            FieldsKind::Unnamed
        },
        fs,
    );
    assert(fields_v(r.items()) =~= fields_v(fs@));
    r
}

/// The view of a variant.
pub open spec fn variant_v(v: Variant) -> VariantV {
    (opt_view(v.name), v.fields.spec_kind(), fields_v(v.fields.items()))
}

/// The views of a sequence of variants.
pub open spec fn variants_v(v: Seq<Variant>) -> Seq<VariantV> {
    v.map_values(|x: Variant| variant_v(x))
}

fn p_variant_x(cs: &Vec<char>, i: usize) -> (r: Option<(Variant, usize)>)
    requires
        i <= cs@.len(),
    ensures
        match r {
            Some((a, n)) => p_variant(cs@, i as int) == Some((variant_v(a), n as int)) && n <= cs@.len(),
            None => p_variant(cs@, i as int) is None,
        },
{
    match p_ident_x(cs, i) {
        Some((name, e)) => {
            let j = skip_ws_x(cs, e);
            if char_at_x(cs, j, '{') {
                match p_fields_x(cs, j + 1, true) {
                    Some((fs, n)) => Some((Variant { name: Some(name), fields: list_fields(true, fs) }, n)),
                    None => None,
                }
            } else if char_at_x(cs, j, '(') {
                match p_fields_x(cs, j + 1, false) {
                    Some((fs, n)) => Some((Variant { name: Some(name), fields: list_fields(false, fs) }, n)),
                    None => None,
                }
            } else {
                let r = Variant { name: Some(name), fields: Fields::Unit };
                assert(fields_v(r.fields.items()) =~= Seq::<FieldV>::empty());
                Some((r, e))
            }
        },
        None => None,
    }
}

fn p_variants_x(cs: &Vec<char>, i: usize) -> (r: Option<(Vec<Variant>, usize)>)
    requires
        i <= cs@.len(),
    ensures
        match r {
            Some((v, n)) => p_variants(cs@, i as int, Seq::empty()) == Some((variants_v(v@), n as int)) && n <= cs@.len(),
            None => p_variants(cs@, i as int, Seq::empty()) is None,
        },
{
    let mut v: Vec<Variant> = Vec::new();
    let mut pos = i;
    assert(variants_v(v@) =~= Seq::<VariantV>::empty());
    while pos <= cs.len()
        invariant
            pos <= cs@.len(),
            p_variants(cs@, i as int, Seq::empty()) == p_variants(cs@, pos as int, variants_v(v@)),
        decreases cs@.len() - pos,
    {
        let j = skip_ws_x(cs, pos);
        if char_at_x(cs, j, '}') {
            return Some((v, j + 1));
        }
        match p_variant_x(cs, j) {
            Some((a, k)) => {
                let ghost acc = variants_v(v@);
                v.push(a);
                assert(variants_v(v@) =~= acc.push(variant_v(a)));
                match list_sep_x(cs, k, '}') {
                    Some((true, n)) => {
                        if pos < n {
                            pos = n;
                        } else {
                            return None;
                        }
                    },
                    Some((false, n)) => {
                        return Some((v, n));
                    },
                    None => {
                        return None;
                    },
                }
            },
            None => {
                return None;
            },
        }
    }
    None
}

fn is_self_word(cs: &Vec<char>, lo: usize) -> (r: bool)
    requires
        lo + 4 <= cs@.len(),
    ensures
        r == (cs@.subrange(lo as int, lo + 4) == self_word()),
{
    let n = cs.len();
    assert(lo + 4 <= n);
    let r = cs[lo] == 's' && cs[lo + 1] == 'e' && cs[lo + 2] == 'l' && cs[lo + 3] == 'f';
    proof {
        if r {
            assert(cs@.subrange(lo as int, lo + 4) =~= self_word());
        } else {
            if cs@.subrange(lo as int, lo + 4) == self_word() {
                assert(cs@.subrange(lo as int, lo + 4)[0] == 's');
                assert(cs@.subrange(lo as int, lo + 4)[1] == 'e');
                assert(cs@.subrange(lo as int, lo + 4)[2] == 'l');
                assert(cs@.subrange(lo as int, lo + 4)[3] == 'f');
            }
        }
    }
    r
}

fn is_receiver_x(a: &FnArg) -> (r: bool)
    ensures
        r == is_receiver(a@),
{
    match &a.name {
        Some(n) => {
            let cs = crate::text::chars_of(n.as_str());
            let r = cs.len() == 4 && is_self_word(&cs, 0);
            proof {
                assert(cs@.subrange(0, 4) =~= cs@ || cs@.len() != 4);
            }
            r
        },
        None => {
            let cs = crate::text::chars_of(a.ty.as_str());
            let len = cs.len();
            if len < 4 {
                return false;
            }
            if !is_self_word(&cs, len - 4) {
                return false;
            }
            len == 4 || !is_word_char(cs[len - 5])
        },
    }
}

/// The view of a query item.
pub open spec fn item_shape(it: Item) -> QueryShape {
    match it {
        Item::FnSignature(f) => QueryShape::Fn {
            name: opt_view(f.name),
            params: params_view(f.inputs@),
            ret: f.output.spec_type(),
        },
        Item::StructDef(d) => QueryShape::Record {
            name: opt_view(d.name),
            is_tup: d.is_tup,
            kind: d.fields.spec_kind(),
            fields: fields_v(d.fields.items()),
        },
        Item::EnumDef(e) => QueryShape::Union { name: opt_view(e.name), variants: variants_v(e.variants@) },
    }
}

fn p_opt_name_x(cs: &Vec<char>, i: usize) -> (r: (Option<String>, usize))
    requires
        i <= cs@.len(),
    ensures
        p_opt_name(cs@, i as int) == (opt_view(r.0), r.1 as int),
        r.1 <= cs@.len(),
{
    match p_ident_x(cs, i) {
        Some((n, e)) => (Some(n), e),
        None => (None, i),
    }
}

fn at_end_x(cs: &Vec<char>, i: usize) -> (r: bool)
    requires
        i <= cs@.len(),
    ensures
        r == at_end(cs@, i as int),
{
    skip_ws_x(cs, i) == cs.len()
}

fn p_fn_x(cs: &Vec<char>, i: usize) -> (r: Option<FnSignature>)
    requires
        i <= cs@.len(),
    ensures
        match r {
            Some(f) => p_fn(cs@, i as int) == Some(item_shape(Item::FnSignature(f))),
            None => p_fn(cs@, i as int) is None,
        },
{
    let (name, a) = p_opt_name_x(cs, i);
    let b = skip_ws_x(cs, a);
    if !char_at_x(cs, b, '(') {
        return None;
    }
    let (mut ps, c) = match p_params_x(cs, b + 1) {
        Some(x) => x,
        None => {
            return None;
        },
    };
    if ps.len() > 0 && is_receiver_x(&ps[0]) {
        let ghost before = ps@;
        ps.remove(0);
        assert(params_view(ps@) =~= params_view(before).drop_first());
    }
    let d = skip_ws_x(cs, c);
    if d == cs.len() {
        return Some(FnSignature { name, inputs: ps, output: ReturnType::Default });
    }
    if !(char_at_x(cs, d, '-') && char_at_x(cs, d + 1, '>')) {
        return None;
    }
    match p_type_x(cs, d + 2) {
        Some((t, f)) => {
            if at_end_x(cs, f) {
                Some(FnSignature { name, inputs: ps, output: return_type_of(t) })
            } else {
                None
            }
        },
        None => None,
    }
}

fn p_record_x(cs: &Vec<char>, i: usize) -> (r: Option<StructDef>)
    requires
        i <= cs@.len(),
    ensures
        match r {
            Some(d) => p_record(cs@, i as int) == Some(item_shape(Item::StructDef(d))),
            None => p_record(cs@, i as int) is None,
        },
{
    let (name, a) = p_opt_name_x(cs, i);
    let b = skip_ws_x(cs, a);
    if char_at_x(cs, b, '{') || char_at_x(cs, b, '(') {
        let braced = char_at_x(cs, b, '{');
        match p_fields_x(cs, b + 1, braced) {
            Some((fs, c)) => {
                if at_end_x(cs, c) {
                    let is_tup = !braced && fs.len() > 0;
                    Some(StructDef { name, is_tup, fields: list_fields(braced, fs) })
                } else {
                    None
                }
            },
            None => None,
        }
    } else if char_at_x(cs, b, ';') && at_end_x(cs, b + 1) {
        let d = StructDef { name, is_tup: false, fields: Fields::Unit };
        assert(fields_v(d.fields.items()) =~= Seq::<FieldV>::empty());
        Some(d)
    } else {
        None
    }
}

fn p_union_x(cs: &Vec<char>, i: usize) -> (r: Option<EnumDef>)
    requires
        i <= cs@.len(),
    ensures
        match r {
            Some(e) => p_union(cs@, i as int) == Some(item_shape(Item::EnumDef(e))),
            None => p_union(cs@, i as int) is None,
        },
{
    let (name, a) = p_opt_name_x(cs, i);
    let b = skip_ws_x(cs, a);
    if !char_at_x(cs, b, '{') {
        return None;
    }
    match p_variants_x(cs, b + 1) {
        Some((vs, c)) => {
            if at_end_x(cs, c) {
                Some(EnumDef { name, variants: vs })
            } else {
                None
            }
        },
        None => None,
    }
}

fn range_eq(cs: &Vec<char>, lo: usize, hi: usize, w: &Vec<char>) -> (r: bool)
    requires
        lo <= hi <= cs@.len(),
    ensures
        r == (cs@.subrange(lo as int, hi as int) == w@),
{
    if hi - lo != w.len() {
        return false;
    }
    let mut k: usize = 0;
    while k < w.len()
        invariant
            lo <= hi <= cs@.len(),
            hi - lo == w@.len(),
            k <= w@.len(),
            forall|x: int| 0 <= x < k ==> cs@[lo + x] == w@[x],
        decreases w@.len() - k,
    {
        if cs[lo + k] != w[k] {
            assert(cs@.subrange(lo as int, hi as int)[k as int] != w@[k as int]);
            return false;
        }
        k += 1;
    }
    assert(cs@.subrange(lo as int, hi as int) =~= w@);
    true
}

/// Why a query was refused.
#[derive(Debug, Clone, Copy, PartialEq, Eq, Structural)]
pub enum QueryError {
    /// The query does not start with `fn`, `struct` or `enum`.
    UnknownKind,
    /// The query starts with a kind keyword but does not follow its grammar.
    Malformed,
}

impl QueryError {
    /// A message for the user.
    pub fn message(&self) -> String {
        match self {
            QueryError::UnknownKind => crate::model::owned("unexpected input, expected `fn`, `struct` or `enum` at the beginning"),
            QueryError::Malformed => crate::model::owned("malformed query"),
        }
    }
}

/// Parses a query. It succeeds exactly when the text follows the grammar,
/// and then describes what the text describes.
pub fn parse_query(text: &str) -> (r: Result<Item, QueryError>)
    ensures
        match r {
            Ok(it) => p_query(text@) == Some(item_shape(it)),
            Err(QueryError::UnknownKind) => keyword(text@) != kw_fn() && keyword(text@) != kw_struct()
                && keyword(text@) != kw_enum(),
            Err(QueryError::Malformed) => (keyword(text@) == kw_fn() || keyword(text@) == kw_struct()
                || keyword(text@) == kw_enum()) && p_query(text@) is None,
        },
{
    let cs = crate::text::chars_of(text);
    let j = skip_ws_x(&cs, 0);
    let e = word_end_x(&cs, j);
    if range_eq(&cs, j, e, &vec!['f', 'n']) {
        match p_fn_x(&cs, e) {
            Some(f) => Ok(Item::FnSignature(f)),
            None => Err(QueryError::Malformed),
        }
    } else if range_eq(&cs, j, e, &vec!['s', 't', 'r', 'u', 'c', 't']) {
        match p_record_x(&cs, e) {
            Some(d) => Ok(Item::StructDef(d)),
            None => Err(QueryError::Malformed),
        }
    } else if range_eq(&cs, j, e, &vec!['e', 'n', 'u', 'm']) {
        match p_union_x(&cs, e) {
            Some(d) => Ok(Item::EnumDef(d)),
            None => Err(QueryError::Malformed),
        }
    } else {
        Err(QueryError::UnknownKind)
    }
}

} // verus!
