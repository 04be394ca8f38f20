//! Field descriptors and their classification: a declared type signature is
//! mapped, purely by its names' shape, to the field kind the matcher and
//! renderer work with.

use vstd::prelude::*;
use crate::scalar::ScalarType;

verus! {

/// A declared type signature, reduced to the names that classification
/// looks at: a plain named type, a generic with one or two plain arguments,
/// a tuple, or anything else.
#[derive(Debug, Clone)]
pub enum TypeSig {
    Plain(String),
    Generic1(String, String),
    Generic2(String, String, String),
    TupleSig,
    OtherSig,
}

/// The mathematical form of a type signature.
pub enum TypeSigV {
    Plain(Seq<char>),
    Generic1(Seq<char>, Seq<char>),
    Generic2(Seq<char>, Seq<char>, Seq<char>),
    TupleSig,
    OtherSig,
}

impl View for TypeSig {
    type V = TypeSigV;

    open spec fn view(&self) -> TypeSigV {
        match self {
            TypeSig::Plain(n) => TypeSigV::Plain(n@),
            TypeSig::Generic1(c, a) => TypeSigV::Generic1(c@, a@),
            TypeSig::Generic2(c, a, b) => TypeSigV::Generic2(c@, a@, b@),
            TypeSig::TupleSig => TypeSigV::TupleSig,
            TypeSig::OtherSig => TypeSigV::OtherSig,
        }
    }
}

/// A field as handed to the compiler: its name and its declared type.
#[derive(Debug, Clone)]
pub struct FieldDescriptor {
    pub name: String,
    pub ty: TypeSig,
}

/// The mathematical form of a field descriptor.
pub struct FieldDescV {
    pub name: Seq<char>,
    pub ty: TypeSigV,
}

impl View for FieldDescriptor {
    type V = FieldDescV;

    open spec fn view(&self) -> FieldDescV {
        FieldDescV { name: self.name@, ty: self.ty@ }
    }
}

/// The semantic kind of a field, as classification assigns it. Mapping,
/// result-like and tuple kinds are recognised but carry no matcher or
/// renderer support: a placeholder of such a kind is refused when the
/// template is compiled.
#[derive(Debug, Clone)]
pub enum FieldKind {
    Primitive(ScalarType),
    Optional(ScalarType),
    Sequence(ScalarType),
    SetOf(ScalarType),
    OrderedSetOf(ScalarType),
    Mapping(String, String),
    OrderedMapping(String, String),
    ResultKind(String, String),
    TupleKind,
    Unknown(String),
}

/// The mathematical form of a field kind.
pub enum KindV {
    Primitive(ScalarType),
    Optional(ScalarType),
    Sequence(ScalarType),
    SetOf(ScalarType),
    OrderedSetOf(ScalarType),
    Mapping(Seq<char>, Seq<char>),
    OrderedMapping(Seq<char>, Seq<char>),
    ResultKind(Seq<char>, Seq<char>),
    TupleKind,
    Unknown(Seq<char>),
}

impl View for FieldKind {
    type V = KindV;

    open spec fn view(&self) -> KindV {
        match self {
            FieldKind::Primitive(k) => KindV::Primitive(*k),
            FieldKind::Optional(k) => KindV::Optional(*k),
            FieldKind::Sequence(k) => KindV::Sequence(*k),
            FieldKind::SetOf(k) => KindV::SetOf(*k),
            FieldKind::OrderedSetOf(k) => KindV::OrderedSetOf(*k),
            FieldKind::Mapping(a, b) => KindV::Mapping(a@, b@),
            FieldKind::OrderedMapping(a, b) => KindV::OrderedMapping(a@, b@),
            FieldKind::ResultKind(a, b) => KindV::ResultKind(a@, b@),
            FieldKind::TupleKind => KindV::TupleKind,
            FieldKind::Unknown(n) => KindV::Unknown(n@),
        }
    }
}

/// A named field together with its classified kind: one entry of the fields
/// registry a template is compiled against.
#[derive(Debug, Clone)]
pub struct FieldSlot {
    pub name: String,
    pub kind: FieldKind,
}

/// The mathematical form of a registry entry.
pub struct FieldSlotV {
    pub name: Seq<char>,
    pub kind: KindV,
}

impl View for FieldSlot {
    type V = FieldSlotV;

    open spec fn view(&self) -> FieldSlotV {
        FieldSlotV { name: self.name@, kind: self.kind@ }
    }
}

/// The views of a descriptor list.
pub open spec fn descs_view(s: Seq<FieldDescriptor>) -> Seq<FieldDescV> {
    Seq::new(s.len(), |i: int| s[i]@)
}

/// The views of a registry.
pub open spec fn slots_view(s: Seq<FieldSlot>) -> Seq<FieldSlotV> {
    Seq::new(s.len(), |i: int| s[i]@)
}

// ---------------------------------------------------------------------------
// Scalar names
// ---------------------------------------------------------------------------

/// The scalar type a plain type name denotes, if any.
pub open spec fn scalar_of(n: Seq<char>) -> Option<ScalarType> {
    if n == "String"@ {
        Some(ScalarType::Str)
    } else if n == "bool"@ {
        Some(ScalarType::Bool)
    } else if n == "char"@ {
        Some(ScalarType::Char)
    } else if n == "u8"@ {
        Some(ScalarType::U8)
    } else if n == "u16"@ {
        Some(ScalarType::U16)
    } else if n == "u32"@ {
        Some(ScalarType::U32)
    } else if n == "u64"@ {
        Some(ScalarType::U64)
    } else if n == "i8"@ {
        Some(ScalarType::I8)
    } else if n == "i16"@ {
        Some(ScalarType::I16)
    } else if n == "i32"@ {
        Some(ScalarType::I32)
    } else if n == "i64"@ {
        Some(ScalarType::I64)
    } else {
        None
    }
}

/// The name of a scalar type, as declared types write it.
pub open spec fn scalar_name(k: ScalarType) -> Seq<char> {
    match k {
        ScalarType::Str => "String"@,
        ScalarType::Bool => "bool"@,
        ScalarType::Char => "char"@,
        ScalarType::U8 => "u8"@,
        ScalarType::U16 => "u16"@,
        ScalarType::U32 => "u32"@,
        ScalarType::U64 => "u64"@,
        ScalarType::I8 => "i8"@,
        ScalarType::I16 => "i16"@,
        ScalarType::I32 => "i32"@,
        ScalarType::I64 => "i64"@,
    }
}

/// Executable form of `scalar_of`.
pub fn scalar_of_exec(n: &String) -> (r: Option<ScalarType>)
    ensures
        r == scalar_of(n@),
{
    if n.eq(&String::from_str("String")) {
        Some(ScalarType::Str)
    } else if n.eq(&String::from_str("bool")) {
        Some(ScalarType::Bool)
    } else if n.eq(&String::from_str("char")) {
        Some(ScalarType::Char)
    } else if n.eq(&String::from_str("u8")) {
        Some(ScalarType::U8)
    } else if n.eq(&String::from_str("u16")) {
        Some(ScalarType::U16)
    } else if n.eq(&String::from_str("u32")) {
        Some(ScalarType::U32)
    } else if n.eq(&String::from_str("u64")) {
        Some(ScalarType::U64)
    } else if n.eq(&String::from_str("i8")) {
        Some(ScalarType::I8)
    } else if n.eq(&String::from_str("i16")) {
        Some(ScalarType::I16)
    } else if n.eq(&String::from_str("i32")) {
        Some(ScalarType::I32)
    } else if n.eq(&String::from_str("i64")) {
        Some(ScalarType::I64)
    } else {
        None
    }
}

/// Executable form of `scalar_name`.
pub fn scalar_name_exec(k: ScalarType) -> (out: String)
    ensures
        out@ == scalar_name(k),
{
    match k {
        ScalarType::Str => String::from_str("String"),
        ScalarType::Bool => String::from_str("bool"),
        ScalarType::Char => String::from_str("char"),
        ScalarType::U8 => String::from_str("u8"),
        ScalarType::U16 => String::from_str("u16"),
        ScalarType::U32 => String::from_str("u32"),
        ScalarType::U64 => String::from_str("u64"),
        ScalarType::I8 => String::from_str("i8"),
        ScalarType::I16 => String::from_str("i16"),
        ScalarType::I32 => String::from_str("i32"),
        ScalarType::I64 => String::from_str("i64"),
    }
}

// ---------------------------------------------------------------------------
// Classification
// ---------------------------------------------------------------------------

/// The kind a declared type signature classifies to, purely by its names: a
/// one-argument generic named like a sequence, set or ordered set maps to
/// the matching collection kind, `Option` to the optional kind, the
/// two-argument mapping and result shapes are recognised as unsupported
/// kinds, a plain scalar name maps to a primitive, and everything else is
/// unknown.
pub open spec fn classify(t: TypeSigV) -> KindV {
    match t {
        TypeSigV::Plain(n) => match scalar_of(n) {
            Some(k) => KindV::Primitive(k),
            None => KindV::Unknown(n),
        },
        TypeSigV::Generic1(c, a) => if c == "Option"@ {
            match scalar_of(a) {
                Some(k) => KindV::Optional(k),
                None => KindV::Unknown(a),
            }
        } else if c == "Vec"@ {
            match scalar_of(a) {
                Some(k) => KindV::Sequence(k),
                None => KindV::Unknown(a),
            }
        } else if c == "HashSet"@ {
            match scalar_of(a) {
                Some(k) => KindV::SetOf(k),
                None => KindV::Unknown(a),
            }
        } else if c == "BTreeSet"@ {
            match scalar_of(a) {
                Some(k) => KindV::OrderedSetOf(k),
                None => KindV::Unknown(a),
            }
        } else {
            KindV::Unknown(c)
        },
        TypeSigV::Generic2(c, a, b) => if c == "HashMap"@ {
            KindV::Mapping(a, b)
        } else if c == "BTreeMap"@ {
            KindV::OrderedMapping(a, b)
        } else if c == "Result"@ {
            KindV::ResultKind(a, b)
        } else {
            KindV::Unknown(c)
        },
        TypeSigV::TupleSig => KindV::TupleKind,
        TypeSigV::OtherSig => KindV::Unknown(Seq::empty()),
    }
}

/// Executable form of `classify`.
pub fn classify_exec(t: &TypeSig) -> (r: FieldKind)
    ensures
        r@ == classify(t@),
{
    match t {
        TypeSig::Plain(n) => match scalar_of_exec(n) {
            Some(k) => FieldKind::Primitive(k),
            None => FieldKind::Unknown(n.clone()),
        },
        TypeSig::Generic1(c, a) => {
            if c.eq(&String::from_str("Option")) {
                match scalar_of_exec(a) {
                    Some(k) => FieldKind::Optional(k),
                    None => FieldKind::Unknown(a.clone()),
                }
            } else if c.eq(&String::from_str("Vec")) {
                match scalar_of_exec(a) {
                    Some(k) => FieldKind::Sequence(k),
                    None => FieldKind::Unknown(a.clone()),
                }
            } else if c.eq(&String::from_str("HashSet")) {
                match scalar_of_exec(a) {
                    Some(k) => FieldKind::SetOf(k),
                    None => FieldKind::Unknown(a.clone()),
                }
            } else if c.eq(&String::from_str("BTreeSet")) {
                match scalar_of_exec(a) {
                    Some(k) => FieldKind::OrderedSetOf(k),
                    None => FieldKind::Unknown(a.clone()),
                }
            } else {
                FieldKind::Unknown(c.clone())
            }
        },
        TypeSig::Generic2(c, a, b) => {
            if c.eq(&String::from_str("HashMap")) {
                FieldKind::Mapping(a.clone(), b.clone())
            } else if c.eq(&String::from_str("BTreeMap")) {
                FieldKind::OrderedMapping(a.clone(), b.clone())
            } else if c.eq(&String::from_str("Result")) {
                FieldKind::ResultKind(a.clone(), b.clone())
            } else {
                FieldKind::Unknown(c.clone())
            }
        },
        TypeSig::TupleSig => FieldKind::TupleKind,
        TypeSig::OtherSig => FieldKind::Unknown(String::new()),
    }
}

/// The display name of a kind, as error reports write it.
pub open spec fn kind_display(k: KindV) -> Seq<char> {
    match k {
        KindV::Primitive(s) => scalar_name(s),
        KindV::Optional(s) => "Option<"@ + scalar_name(s) + ">"@,
        KindV::Sequence(s) => "Vec<"@ + scalar_name(s) + ">"@,
        KindV::SetOf(s) => "HashSet<"@ + scalar_name(s) + ">"@,
        KindV::OrderedSetOf(s) => "BTreeSet<"@ + scalar_name(s) + ">"@,
        KindV::Mapping(a, b) => "HashMap<"@ + a + ", "@ + b + ">"@,
        KindV::OrderedMapping(a, b) => "BTreeMap<"@ + a + ", "@ + b + ">"@,
        KindV::ResultKind(a, b) => "Result<"@ + a + ", "@ + b + ">"@,
        KindV::TupleKind => "tuple"@,
        KindV::Unknown(n) => n,
    }
}

/// Executable form of `kind_display`.
pub fn kind_display_exec(k: &FieldKind) -> (out: String)
    ensures
        out@ == kind_display(k@),
{
    match k {
        FieldKind::Primitive(s) => scalar_name_exec(*s),
        FieldKind::Optional(s) => wrap_name("Option<", *s),
        FieldKind::Sequence(s) => wrap_name("Vec<", *s),
        FieldKind::SetOf(s) => wrap_name("HashSet<", *s),
        FieldKind::OrderedSetOf(s) => wrap_name("BTreeSet<", *s),
        FieldKind::Mapping(a, b) => pair_name("HashMap<", a, b),
        FieldKind::OrderedMapping(a, b) => pair_name("BTreeMap<", a, b),
        FieldKind::ResultKind(a, b) => pair_name("Result<", a, b),
        FieldKind::TupleKind => String::from_str("tuple"),
        FieldKind::Unknown(n) => n.clone(),
    }
}

fn wrap_name(prefix: &str, s: ScalarType) -> (out: String)
    ensures
        out@ == prefix@ + scalar_name(s) + ">"@,
{
    let mut out = String::from_str(prefix);
    let inner = scalar_name_exec(s);
    out.append(inner.as_str());
    out.append(">");
    out
}

fn pair_name(prefix: &str, a: &String, b: &String) -> (out: String)
    ensures
        out@ == prefix@ + a@ + ", "@ + b@ + ">"@,
{
    let mut out = String::from_str(prefix);
    out.append(a.as_str());
    out.append(", ");
    out.append(b.as_str());
    out.append(">");
    out
}

/// Whether a kind's captured span has a statically known, unambiguous form:
/// a single character, or one of the two boolean tokens. Only such a kind
/// may stand immediately before another placeholder.
pub open spec fn fixed_width(k: KindV) -> bool {
    match k {
        KindV::Primitive(ScalarType::Char) => true,
        KindV::Primitive(ScalarType::Bool) => true,
        KindV::Optional(ScalarType::Char) => true,
        KindV::Optional(ScalarType::Bool) => true,
        _ => false,
    }
}

/// Executable form of `fixed_width`.
pub fn fixed_width_exec(k: &FieldKind) -> (r: bool)
    ensures
        r == fixed_width(k@),
{
    match k {
        FieldKind::Primitive(ScalarType::Char) => true,
        FieldKind::Primitive(ScalarType::Bool) => true,
        FieldKind::Optional(ScalarType::Char) => true,
        FieldKind::Optional(ScalarType::Bool) => true,
        _ => false,
    }
}

// ---------------------------------------------------------------------------
// Registry lookups
// ---------------------------------------------------------------------------

/// The index of the first registry entry named `name`, or `-1`.
pub open spec fn field_index(fs: Seq<FieldSlotV>, name: Seq<char>) -> int
    decreases fs.len(),
{
    if fs.len() == 0 {
        -1
    } else if fs[0].name == name {
        0
    } else {
        let r = field_index(fs.drop_first(), name);
        if r < 0 {
            -1
        } else {
            r + 1
        }
    }
}

/// Whether the registry holds a field of this name.
pub open spec fn has_field(fs: Seq<FieldSlotV>, name: Seq<char>) -> bool {
    field_index(fs, name) >= 0
}

/// The kind of the named field.
pub open spec fn kind_of(fs: Seq<FieldSlotV>, name: Seq<char>) -> KindV {
    fs[field_index(fs, name)].kind
}

/// `field_index` finds the first entry of that name, in range, or reports
/// that none carries it.
pub proof fn lemma_field_index(fs: Seq<FieldSlotV>, name: Seq<char>)
    ensures
        ({
            let r = field_index(fs, name);
            if r >= 0 {
                r < fs.len() && fs[r].name == name && forall|k: int|
                    0 <= k < r ==> (#[trigger] fs[k]).name != name
            } else {
                forall|k: int| 0 <= k < fs.len() ==> (#[trigger] fs[k]).name != name
            }
        }),
    decreases fs.len(),
{
    if fs.len() == 0 {
    } else if fs[0].name == name {
    } else {
        lemma_field_index(fs.drop_first(), name);
        let r = field_index(fs.drop_first(), name);
        if r >= 0 {
            assert(forall|k: int|
                1 <= k < r + 1 ==> (#[trigger] fs[k]) == fs.drop_first()[k - 1]);
        } else {
            assert(forall|k: int|
                1 <= k < fs.len() ==> (#[trigger] fs[k]) == fs.drop_first()[k - 1]);
        }
    }
}

/// Looks a field up by name (executable form of `field_index`).
pub fn find_field(fs: &Vec<FieldSlot>, name: &String) -> (r: Option<usize>)
    ensures
        match r {
            Some(j) => field_index(slots_view(fs@), name@) == j as int,
            None => field_index(slots_view(fs@), name@) < 0,
        },
{
    let ghost fv = slots_view(fs@);
    proof {
        lemma_field_index(fv, name@);
    }
    let mut k: usize = 0;
    while k < fs.len()
        invariant
            k <= fs@.len(),
            fv == slots_view(fs@),
            forall|m: int| 0 <= m < k ==> (#[trigger] fv[m]).name != name@,
        decreases fs@.len() - k,
    {
        if fs[k].name.eq(name) {
            proof {
                assert(fv[k as int].name == name@);
                lemma_field_index(fv, name@);
                let r = field_index(fv, name@);
                assert(r >= 0);
                assert(r == k as int) by {
                    if r < k as int {
                        assert(fv[r].name == name@);
                    }
                    if r > k as int {
                        assert(fv[k as int].name != name@);
                    }
                }
            }
            return Some(k);
        }
        proof {
            assert(fv[k as int].name != name@);
        }
        k = k + 1;
    }
    proof {
        lemma_field_index(fv, name@);
        let r = field_index(fv, name@);
        if r >= 0 {
            assert(fv[r].name == name@);
        }
    }
    None
}

/// Whether all registry names are distinct.
pub open spec fn distinct_names(fs: Seq<FieldSlotV>) -> bool {
    forall|i: int, j: int|
        0 <= i < j < fs.len() ==> (#[trigger] fs[i]).name != (#[trigger] fs[j]).name
}

// ---------------------------------------------------------------------------
// The default template
// ---------------------------------------------------------------------------

/// One line of the default template.
pub open spec fn default_line(name: Seq<char>) -> Seq<char> {
    name + " = {"@ + name + "}"@
}

/// The default template over a list of field names: one `name = {name}` line
/// per field, newline-joined, in declared order.
pub open spec fn default_template_spec(names: Seq<Seq<char>>) -> Seq<char>
    decreases names.len(),
{
    if names.len() == 0 {
        Seq::empty()
    } else if names.len() == 1 {
        default_line(names[0])
    } else {
        default_line(names[0]) + "\n"@ + default_template_spec(names.drop_first())
    }
}

/// The names of a descriptor list, in order.
pub open spec fn desc_names(ds: Seq<FieldDescV>) -> Seq<Seq<char>> {
    Seq::new(ds.len(), |i: int| ds[i].name)
}

/// Builds the default template for a descriptor list (executable form of
/// `default_template_spec`).
pub fn default_template(fields: &Vec<FieldDescriptor>) -> (out: String)
    ensures
        out@ == default_template_spec(desc_names(descs_view(fields@))),
{
    let ghost names = desc_names(descs_view(fields@));
    let mut out = String::new();
    let mut k: usize = 0;
    while k < fields.len()
        invariant
            k <= fields@.len(),
            names == desc_names(descs_view(fields@)),
            out@ == default_template_spec(names.subrange(0, k as int)) + (
            if k > 0 && k < names.len() {
                "\n"@
            } else {
                Seq::<char>::empty()
            }),
            k == 0 ==> out@ == Seq::<char>::empty(),
        decreases fields@.len() - k,
    {
        let name = &fields[k].name;
        proof {
            assert(names[k as int] == name@);
        }
        out.append(name.as_str());
        out.append(" = {");
        out.append(name.as_str());
        out.append("}");
        if k + 1 < fields.len() {
            out.append("\n");
        }
        k = k + 1;
        proof {
            lemma_default_template_take(names, k as int);
            assert(out@ =~= default_template_spec(names.subrange(0, k as int)) + (
            if k < names.len() {
                "\n"@
            } else {
                Seq::<char>::empty()
            }));
        }
    }
    proof {
        assert(names.subrange(0, names.len() as int) =~= names);
        if k == 0 {
            assert(out@ =~= default_template_spec(names));
        }
    }
    out
}

/// The default template over the first `k` names, unrolled one line at the
/// end.
proof fn lemma_default_template_take(names: Seq<Seq<char>>, k: int)
    requires
        1 <= k <= names.len(),
    ensures
        default_template_spec(names.subrange(0, k)) == if k == 1 {
            default_line(names[0])
        } else {
            default_template_spec(names.subrange(0, k - 1)) + "\n"@ + default_line(names[k - 1])
        },
    decreases k,
{
    if k == 1 {
        let s = names.subrange(0, 1);
        assert(s.len() == 1);
        assert(s[0] == names[0]);
    } else {
        lemma_default_template_take(names.drop_first(), k - 1);
        let s = names.subrange(0, k);
        assert(s.len() == k);
        assert(s[0] == names[0]);
        assert(s.drop_first() =~= names.drop_first().subrange(0, k - 1));
        assert(default_template_spec(s) == default_line(names[0]) + "\n"@
            + default_template_spec(names.drop_first().subrange(0, k - 1)));
        if k == 2 {
            assert(names.drop_first().subrange(0, 1)[0] == names[1]);
            assert(names.subrange(0, 1)[0] == names[0]);
            assert(names.subrange(0, 1).len() == 1);
            assert(default_template_spec(names.subrange(0, 1)) == default_line(names[0]));
            assert(names.drop_first()[k - 2] == names[k - 1]);
        } else {
            assert(names.subrange(0, k - 1).drop_first() =~= names.drop_first().subrange(
                0,
                k - 2,
            ));
            assert(names.subrange(0, k - 1)[0] == names[0]);
            assert(names.subrange(0, k - 1).len() == k - 1);
            assert(names.drop_first()[k - 2] == names[k - 1]);
        }
    }
}

} // verus!
