//! The normalized declaration model: locations, fields, function signatures,
//! records and tagged unions.
use vstd::prelude::*;
use crate::text::{normalize, normalized};

verus! {

/// The view of an optional string.
pub open spec fn opt_view(o: Option<String>) -> Option<Seq<char>> {
    match o {
        Some(s) => Some(s@),
        None => None,
    }
}

/// The normalized view of an optional spelling.
pub open spec fn opt_normalized(o: Option<&str>) -> Option<Seq<char>> {
    match o {
        Some(s) => Some(normalized(s@)),
        None => None,
    }
}

/// Relies on `str::to_owned`, through vstd's specification of it.
pub(crate) fn owned(s: &str) -> (r: String)
    ensures
        r@ == s@,
{
    s.to_owned()
}

fn normalize_opt(o: Option<&str>) -> (r: Option<String>)
    ensures
        opt_view(r) == opt_normalized(o),
{
    match o {
        Some(s) => Some(normalize(s)),
        None => None,
    }
}

/// Where a declaration starts: its file, line and column.
#[derive(Debug, Clone)]
pub struct Loc {
    pub file: String,
    pub line: usize,
    pub column: usize,
}

impl View for Loc {
    type V = (Seq<char>, usize, usize);

    open spec fn view(&self) -> (Seq<char>, usize, usize) {
        (self.file@, self.line, self.column)
    }
}

impl Loc {
    pub fn new(file: &str, line: usize, column: usize) -> (r: Loc)
        ensures
            r@ == (file@, line, column),
    {
        Loc { file: owned(file), line, column }
    }

    /// A copy of this location.
    pub fn duplicate(&self) -> (r: Loc)
        ensures
            r@ == self@,
    {
        Loc { file: self.file.clone(), line: self.line, column: self.column }
    }

    /// `file:line:column`, the form in which a match is reported.
    pub fn to_display_string(&self) -> (r: String)
        ensures
            r@ == location_spelling(self@),
    {
        location_text(&self.file, self.line, self.column)
    }
}

/// The decimal digit for `d < 10`.
pub open spec fn digit(d: nat) -> char {
    ((48 + d) as u8) as char
}

/// The decimal spelling of `n`, without leading zeros.
pub open spec fn decimal(n: nat) -> Seq<char>
    decreases n,
{
    if n < 10 {
        seq![digit(n)]
    } else {
        decimal(n / 10).push(digit(n % 10))
    }
}

/// A location written as `file:line:column`.
pub open spec fn location_spelling(l: (Seq<char>, usize, usize)) -> Seq<char> {
    l.0 + seq![':'] + decimal(l.1 as nat) + seq![':'] + decimal(l.2 as nat)
}

fn digit_char(d: usize) -> (r: char)
    requires
        d < 10,
    ensures
        r == digit(d as nat),
{
    (48u8 + d as u8) as char
}

/// Appends the decimal spelling of `n`.
fn push_decimal(out: &mut String, n: usize)
    ensures
        final(out)@ == old(out)@ + decimal(n as nat),
    decreases n,
{
    let ghost start = out@;
    if n >= 10 {
        push_decimal(out, n / 10);
    }
    crate::text::push_char(out, digit_char(n % 10));
    proof {
        if n >= 10 {
            assert(out@ =~= start + decimal((n / 10) as nat).push(digit((n % 10) as nat)));
        } else {
            assert(out@ =~= start + decimal(n as nat));
        }
    }
}

/// Writes a location as `file:line:column`.
fn location_text(file: &String, line: usize, column: usize) -> (r: String)
    ensures
        r@ == location_spelling((file@, line, column)),
{
    let mut out = file.clone();
    crate::text::push_char(&mut out, ':');
    push_decimal(&mut out, line);
    crate::text::push_char(&mut out, ':');
    push_decimal(&mut out, column);
    assert(out@ =~= location_spelling((file@, line, column)));
    out
}

/// One field of a record or union variant. A query field may lack either
/// part; a field of a declaration always has a type.
#[derive(Debug, Clone)]
pub struct Field {
    pub name: Option<String>,
    pub ty: Option<String>,
}

impl View for Field {
    type V = (Option<Seq<char>>, Option<Seq<char>>);

    open spec fn view(&self) -> (Option<Seq<char>>, Option<Seq<char>>) {
        (opt_view(self.name), opt_view(self.ty))
    }
}

impl Field {
    /// A field with its name and type normalized.
    pub fn new(name: Option<&str>, ty: Option<&str>) -> (r: Field)
        ensures
            r@ == (opt_normalized(name), opt_normalized(ty)),
    {
        Field { name: normalize_opt(name), ty: normalize_opt(ty) }
    }
}

/// The layout of the fields of a record or variant.
#[derive(Debug, Clone, Copy, PartialEq, Eq, Structural)]
pub enum FieldsKind {
    Named,
    Unnamed,
    Unit,
}

/// The fields of a record or variant, with their layout.
#[derive(Debug, Clone)]
pub enum Fields {
    Named(Vec<Field>),
    Unnamed(Vec<Field>),
    Unit,
}

impl Fields {
    /// The layout of these fields.
    pub open spec fn spec_kind(&self) -> FieldsKind {
        match self {
            Fields::Named(_) => FieldsKind::Named,
            Fields::Unnamed(_) => FieldsKind::Unnamed,
            Fields::Unit => FieldsKind::Unit,
        }
    }

    /// The fields in order; none for the unit layout.
    pub open spec fn items(&self) -> Seq<Field> {
        match self {
            Fields::Named(v) => v@,
            Fields::Unnamed(v) => v@,
            Fields::Unit => Seq::empty(),
        }
    }

    /// Fields of the given layout; the unit layout keeps none of them, and
    /// no fields at all make the unit layout.
    pub fn new(kind: FieldsKind, fields: Vec<Field>) -> (r: Fields)
        ensures
            r.spec_kind() == (if fields@.len() == 0 {
                FieldsKind::Unit
            } else {
                kind
            }),
            kind != FieldsKind::Unit ==> r.items() == fields@,
    {
        if fields.len() == 0 {
            return Fields::Unit;
        }
        match kind {
            FieldsKind::Named => Fields::Named(fields),
            FieldsKind::Unnamed => Fields::Unnamed(fields),
            FieldsKind::Unit => Fields::Unit,
        }
    }

    /// References to the fields, in order; none for the unit layout.
    pub fn iter(&self) -> (r: Vec<&Field>)
        ensures
            r@.len() == self.items().len(),
            forall|i: int| 0 <= i < r@.len() ==> *#[trigger] r@[i] == self.items()[i],
    {
        let mut out: Vec<&Field> = Vec::new();
        let n = self.len();
        let mut i: usize = 0;
        while i < n
            invariant
                n == self.items().len(),
                i <= n,
                out@.len() == i,
                forall|k: int| 0 <= k < i ==> *#[trigger] out@[k] == self.items()[k],
            decreases n - i,
        {
            out.push(self.get(i));
            i += 1;
        }
        out
    }

    pub fn kind(&self) -> (r: FieldsKind)
        ensures
            r == self.spec_kind(),
    {
        match self {
            Fields::Named(_) => FieldsKind::Named,
            Fields::Unnamed(_) => FieldsKind::Unnamed,
            Fields::Unit => FieldsKind::Unit,
        }
    }

    pub fn len(&self) -> (r: usize)
        ensures
            r == self.items().len(),
    {
        match self {
            Fields::Named(v) => v.len(),
            Fields::Unnamed(v) => v.len(),
            Fields::Unit => 0,
        }
    }

    pub fn get(&self, i: usize) -> (r: &Field)
        requires
            i < self.items().len(),
        ensures
            *r == self.items()[i as int],
    {
        match self {
            Fields::Named(v) => &v[i],
            Fields::Unnamed(v) => &v[i],
            Fields::Unit => vstd::pervasive::unreached(),
        }
    }
}

/// One parameter of a function signature. The name is absent for a query
/// parameter written as a bare type.
#[derive(Debug, Clone)]
pub struct FnArg {
    pub name: Option<String>,
    pub ty: String,
}

impl View for FnArg {
    type V = (Option<Seq<char>>, Seq<char>);

    open spec fn view(&self) -> (Option<Seq<char>>, Seq<char>) {
        (opt_view(self.name), self.ty@)
    }
}

impl FnArg {
    /// A parameter with its name and type normalized.
    pub fn new(name: Option<&str>, ty: &str) -> (r: FnArg)
        ensures
            r@ == (opt_normalized(name), normalized(ty@)),
    {
        FnArg { name: normalize_opt(name), ty: normalize(ty) }
    }
}

/// The return type of a function: absent (which includes the unit type), or
/// a normalized type spelling.
#[derive(Debug, Clone)]
pub enum ReturnType {
    Default,
    Type(String),
}

impl ReturnType {
    /// The returned type's spelling, if any; the unit type is no type.
    pub open spec fn spec_type(&self) -> Option<Seq<char>> {
        match self {
            ReturnType::Default => None,
            ReturnType::Type(t) => if t@ == unit_spelling() {
                None
            } else {
                Some(t@)
            },
        }
    }

    /// The returned type's spelling, if any.
    pub fn type_spelling(&self) -> (r: Option<&String>)
        ensures
            match r {
                Some(t) => self.spec_type() == Some(t@),
                None => self.spec_type() is None,
            },
    {
        match self {
            ReturnType::Default => None,
            ReturnType::Type(t) => if is_unit_spelling(t) {
                None
            } else {
                Some(t)
            },
        }
    }
}

/// The spelling of the unit type.
pub open spec fn unit_spelling() -> Seq<char> {
    seq!['(', ')']
}

/// The return type that a declared return clause stands for: a missing
/// clause and one naming the unit type are the same.
pub open spec fn return_of(output: Option<&str>) -> Option<Seq<char>> {
    match output {
        Some(t) => if normalized(t@) == unit_spelling() {
            None
        } else {
            Some(normalized(t@))
        },
        None => None,
    }
}

fn is_unit_spelling(t: &String) -> (r: bool)
    ensures
        r == (t@ == unit_spelling()),
{
    let cs = crate::text::chars_of(t.as_str());
    let r = cs.len() == 2 && cs[0] == '(' && cs[1] == ')';
    proof {
        if r {
            assert(t@ =~= unit_spelling());
        }
    }
    r
}

/// The return type for a normalized spelling.
pub fn return_type_of(t: String) -> (r: ReturnType)
    ensures
        r.spec_type() == (if t@ == unit_spelling() {
            None
        } else {
            Some(t@)
        }),
{
    if is_unit_spelling(&t) {
        ReturnType::Default
    } else {
        ReturnType::Type(t)
    }
}

/// A function signature. Its declared name takes no part in its shape.
#[derive(Debug, Clone)]
pub struct FnSignature {
    pub name: Option<String>,
    pub inputs: Vec<FnArg>,
    pub output: ReturnType,
}

/// The shape of a signature: its parameter types in order, and its return
/// type. Parameter names and the function's name are left out.
pub type FnShape = (Seq<Seq<char>>, Option<Seq<char>>);

impl FnSignature {
    pub open spec fn shape(&self) -> FnShape {
        (self.inputs@.map_values(|a: FnArg| a.ty@), self.output.spec_type())
    }

    /// A signature with every spelling normalized and a unit return type
    /// dropped.
    pub fn new(name: Option<&str>, inputs: Vec<FnArg>, output: Option<&str>) -> (r: FnSignature)
        ensures
            opt_view(r.name) == opt_normalized(name),
            r.inputs@ == inputs@,
            r.output.spec_type() == return_of(output),
    {
        let out = match output {
            Some(t) => return_type_of(normalize(t)),
            None => ReturnType::Default,
        };
        FnSignature { name: normalize_opt(name), inputs, output: out }
    }

    /// Whether two signatures have the same shape.
    pub fn same_shape(&self, other: &FnSignature) -> (r: bool)
        ensures
            r == (self.shape() == other.shape()),
    {
        let n = self.inputs.len();
        if n != other.inputs.len() {
            proof {
                assert(self.shape().0.len() != other.shape().0.len());
            }
            return false;
        }
        let mut i: usize = 0;
        while i < n
            invariant
                n == self.inputs@.len() == other.inputs@.len(),
                i <= n,
                forall|j: int| 0 <= j < i ==> self.inputs@[j].ty@ == other.inputs@[j].ty@,
            decreases n - i,
        {
            if self.inputs[i].ty != other.inputs[i].ty {
                proof {
                    assert(self.shape().0[i as int] != other.shape().0[i as int]);
                }
                return false;
            }
            i += 1;
        }
        assert(self.shape().0 =~= other.shape().0);
        match (self.output.type_spelling(), other.output.type_spelling()) {
            (None, None) => true,
            (Some(a), Some(b)) => *a == *b,
            _ => false,
        }
    }
}

impl PartialEq for FnSignature {
    fn eq(&self, other: &FnSignature) -> (r: bool) {
        self.same_shape(other)
    }
}

impl vstd::std_specs::cmp::PartialEqSpecImpl for FnSignature {
    open spec fn obeys_eq_spec() -> bool {
        true
    }

    open spec fn eq_spec(&self, other: &FnSignature) -> bool {
        self.shape() == other.shape()
    }
}

/// Two signatures are equivalent when their shapes agree.
pub open spec fn fn_equiv(a: FnSignature, b: FnSignature) -> bool {
    a.shape() == b.shape()
}

/// Equivalence of signatures is reflexive, symmetric and transitive.
pub proof fn lemma_fn_equiv_is_equivalence(a: FnSignature, b: FnSignature, c: FnSignature)
    ensures
        fn_equiv(a, a),
        fn_equiv(a, b) ==> fn_equiv(b, a),
        fn_equiv(a, b) && fn_equiv(b, c) ==> fn_equiv(a, c),
{
}

/// A record definition.
#[derive(Debug, Clone)]
pub struct StructDef {
    pub name: Option<String>,
    pub is_tup: bool,
    pub fields: Fields,
}

impl StructDef {
    /// A record whose shape follows its fields: tuple-shaped exactly when the
    /// fields are unnamed.
    pub fn new(name: Option<&str>, fields: Fields) -> (r: StructDef)
        ensures
            opt_view(r.name) == opt_normalized(name),
            r.is_tup == (fields.spec_kind() == FieldsKind::Unnamed),
            r.fields == fields,
    {
        let is_tup = match &fields {
            Fields::Unnamed(_) => true,
            _ => false,
        };
        StructDef { name: normalize_opt(name), is_tup, fields }
    }
}

/// One variant of a tagged union.
#[derive(Debug, Clone)]
pub struct Variant {
    pub name: Option<String>,
    pub fields: Fields,
}

impl Variant {
    pub fn new(name: Option<&str>, fields: Fields) -> (r: Variant)
        ensures
            opt_view(r.name) == opt_normalized(name),
            r.fields == fields,
    {
        Variant { name: normalize_opt(name), fields }
    }
}

/// A tagged union definition.
#[derive(Debug, Clone)]
pub struct EnumDef {
    pub name: Option<String>,
    pub variants: Vec<Variant>,
}

impl EnumDef {
    pub fn new(name: Option<&str>, variants: Vec<Variant>) -> (r: EnumDef)
        ensures
            opt_view(r.name) == opt_normalized(name),
            r.variants@ == variants@,
    {
        EnumDef { name: normalize_opt(name), variants }
    }
}

/// A declaration, or a query of the same three kinds.
#[derive(Debug, Clone)]
pub enum Item {
    EnumDef(EnumDef),
    StructDef(StructDef),
    FnSignature(FnSignature),
}

} // verus!
