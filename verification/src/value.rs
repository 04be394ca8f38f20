//! Field values and records: what a placeholder's capture is converted
//! into, how a value renders back to text, and the record a parse returns.

use vstd::prelude::*;
use crate::scalar::{
    scalar_default, scalar_default_exec, scalar_lt, scalar_lt_exec, scalar_eq_exec,
    scalar_render, scalar_render_exec, scalar_well_typed, value_fits, ScalarType, ScalarV,
    ScalarValue,
};
use crate::fields::{FieldKind, KindV};
use crate::chars::{chars_of, chars_eq};

verus! {

broadcast use vstd::std_specs::vec::group_vec_axioms;

/// The value a field carries in a record.
#[derive(Debug, Clone, PartialEq, Eq)]
pub enum FieldValue {
    Primitive(ScalarValue),
    Optional(Option<ScalarValue>),
    Sequence(Vec<ScalarValue>),
    SetOf(Vec<ScalarValue>),
    OrderedSetOf(Vec<ScalarValue>),
}

/// The mathematical form of a field value. Both set shapes keep their
/// elements sorted and duplicate-free; the unordered set's canonical order
/// is the sorted one.
pub enum ValueV {
    Primitive(ScalarV),
    Optional(Option<ScalarV>),
    Sequence(Seq<ScalarV>),
    SetOf(Seq<ScalarV>),
    OrderedSetOf(Seq<ScalarV>),
}

/// The views of a scalar vector.
pub open spec fn scalars_view(xs: Seq<ScalarValue>) -> Seq<ScalarV> {
    Seq::new(xs.len(), |i: int| xs[i]@)
}

impl View for FieldValue {
    type V = ValueV;

    open spec fn view(&self) -> ValueV {
        match self {
            FieldValue::Primitive(x) => ValueV::Primitive(x@),
            FieldValue::Optional(o) => ValueV::Optional(
                match o {
                    Some(x) => Some(x@),
                    None => None,
                },
            ),
            FieldValue::Sequence(xs) => ValueV::Sequence(scalars_view(xs@)),
            FieldValue::SetOf(xs) => ValueV::SetOf(scalars_view(xs@)),
            FieldValue::OrderedSetOf(xs) => ValueV::OrderedSetOf(scalars_view(xs@)),
        }
    }
}

/// Whether a scalar sequence is strictly ascending (hence duplicate-free).
pub open spec fn sorted_unique(xs: Seq<ScalarV>) -> bool {
    forall|i: int| 0 <= i < xs.len() - 1 ==> scalar_lt(#[trigger] xs[i], xs[i + 1])
}

/// Whether a value fits a field kind: the shapes match, every scalar is in
/// range, and a set's elements are in canonical sorted order.
pub open spec fn value_well_typed(v: ValueV, k: KindV) -> bool {
    match (k, v) {
        (KindV::Primitive(s), ValueV::Primitive(x)) => scalar_well_typed(x, s),
        (KindV::Optional(s), ValueV::Optional(o)) => match o {
            Some(x) => scalar_well_typed(x, s),
            None => true,
        },
        (KindV::Sequence(s), ValueV::Sequence(xs)) => forall|i: int|
            0 <= i < xs.len() ==> scalar_well_typed(#[trigger] xs[i], s),
        (KindV::SetOf(s), ValueV::SetOf(xs)) => (forall|i: int|
            0 <= i < xs.len() ==> scalar_well_typed(#[trigger] xs[i], s)) && sorted_unique(xs),
        (KindV::OrderedSetOf(s), ValueV::OrderedSetOf(xs)) => (forall|i: int|
            0 <= i < xs.len() ==> scalar_well_typed(#[trigger] xs[i], s)) && sorted_unique(xs),
        _ => false,
    }
}

/// Whether every element of an executable scalar vector is carried in the
/// representation of the given scalar type.
pub open spec fn elems_fit(xs: Seq<ScalarValue>, s: ScalarType) -> bool {
    forall|i: int| 0 <= i < xs.len() ==> value_fits(#[trigger] xs[i], s)
}

/// Whether an executable value is carried in the representation the kind
/// uses (shape of the enum, not ranges).
pub open spec fn fits_kind(v: FieldValue, k: KindV) -> bool {
    match (k, v) {
        (KindV::Primitive(s), FieldValue::Primitive(x)) => value_fits(x, s),
        (KindV::Optional(s), FieldValue::Optional(o)) => match o {
            Some(x) => value_fits(x, s),
            None => true,
        },
        (KindV::Sequence(s), FieldValue::Sequence(xs)) => elems_fit(xs@, s),
        (KindV::SetOf(s), FieldValue::SetOf(xs)) => elems_fit(xs@, s),
        (KindV::OrderedSetOf(s), FieldValue::OrderedSetOf(xs)) => elems_fit(xs@, s),
        _ => false,
    }
}

// ---------------------------------------------------------------------------
// Canonical rendering
// ---------------------------------------------------------------------------

/// Comma-joined pieces, as collections render and compare.
pub open spec fn join_commas(xs: Seq<Seq<char>>) -> Seq<char>
    decreases xs.len(),
{
    if xs.len() == 0 {
        Seq::empty()
    } else if xs.len() == 1 {
        xs[0]
    } else {
        xs[0] + seq![','] + join_commas(xs.drop_first())
    }
}

/// The renders of a scalar sequence, elementwise.
pub open spec fn renders_of(xs: Seq<ScalarV>) -> Seq<Seq<char>> {
    Seq::new(xs.len(), |i: int| scalar_render(xs[i]))
}

/// The canonical textual form of a field value: a scalar's own form, the
/// empty text for an absent optional, and the comma-join of a collection's
/// elements (sets in their sorted order).
pub open spec fn value_render(v: ValueV) -> Seq<char> {
    match v {
        ValueV::Primitive(x) => scalar_render(x),
        ValueV::Optional(o) => match o {
            Some(x) => scalar_render(x),
            None => Seq::empty(),
        },
        ValueV::Sequence(xs) => join_commas(renders_of(xs)),
        ValueV::SetOf(xs) => join_commas(renders_of(xs)),
        ValueV::OrderedSetOf(xs) => join_commas(renders_of(xs)),
    }
}

/// Renders the elements of a scalar vector, comma-joined.
fn join_scalars(xs: &Vec<ScalarValue>) -> (out: Vec<char>)
    ensures
        out@ == join_commas(renders_of(scalars_view(xs@))),
{
    let mut out: Vec<char> = Vec::new();
    let mut k: usize = 0;
    while k < xs.len()
        invariant
            k <= xs@.len(),
            out@ == join_commas(renders_of(scalars_view(xs@)).subrange(0, k as int)) + (
            if 0 < k < xs@.len() {
                seq![',']
            } else {
                Seq::<char>::empty()
            }),
            k == 0 ==> out@ == Seq::<char>::empty(),
        decreases xs@.len() - k,
    {
        let ghost pieces = renders_of(scalars_view(xs@));
        let mut piece = scalar_render_exec(&xs[k]);
        proof {
            assert(pieces[k as int] == scalar_render(xs@[k as int]@));
        }
        let mut m: usize = 0;
        while m < piece.len()
            invariant
                m <= piece@.len(),
                out@ == old_out_plus(pieces, k as int, xs@.len() as int) + piece@.subrange(
                    0,
                    m as int,
                ),
                pieces == renders_of(scalars_view(xs@)),
                piece@ == pieces[k as int],
                k < xs@.len(),
            decreases piece@.len() - m,
        {
            out.push(piece[m]);
            m = m + 1;
            proof {
                assert(out@ =~= old_out_plus(pieces, k as int, xs@.len() as int)
                    + piece@.subrange(0, m as int));
            }
        }
        if k + 1 < xs.len() {
            out.push(',');
        }
        k = k + 1;
        proof {
            assert(piece@.subrange(0, piece@.len() as int) =~= piece@);
            lemma_join_commas_take(pieces, k as int);
            assert(out@ =~= join_commas(pieces.subrange(0, k as int)) + (
            if 0 < k < xs@.len() {
                seq![',']
            } else {
                Seq::<char>::empty()
            }));
        }
    }
    proof {
        let pieces = renders_of(scalars_view(xs@));
        assert(pieces.subrange(0, pieces.len() as int) =~= pieces);
        if k == 0 {
            assert(out@ =~= join_commas(pieces));
        }
    }
    out
}

/// What `join_scalars` has written before appending piece `k`.
spec fn old_out_plus(pieces: Seq<Seq<char>>, k: int, n: int) -> Seq<char> {
    join_commas(pieces.subrange(0, k)) + (if 0 < k < n {
        seq![',']
    } else {
        Seq::<char>::empty()
    })
}

/// The join of the first `k` pieces, unrolled one piece at the end.
proof fn lemma_join_commas_take(pieces: Seq<Seq<char>>, k: int)
    requires
        1 <= k <= pieces.len(),
    ensures
        join_commas(pieces.subrange(0, k)) == if k == 1 {
            pieces[0]
        } else {
            join_commas(pieces.subrange(0, k - 1)) + seq![','] + pieces[k - 1]
        },
    decreases k,
{
    if k == 1 {
        let s = pieces.subrange(0, 1);
        assert(s.len() == 1);
        assert(s[0] == pieces[0]);
    } else {
        lemma_join_commas_take(pieces.drop_first(), k - 1);
        let s = pieces.subrange(0, k);
        assert(s.len() == k);
        assert(s[0] == pieces[0]);
        assert(s.drop_first() =~= pieces.drop_first().subrange(0, k - 1));
        if k == 2 {
            assert(pieces.drop_first().subrange(0, 1)[0] == pieces[1]);
            assert(pieces.drop_first().subrange(0, 1).len() == 1);
            assert(pieces.subrange(0, 1)[0] == pieces[0]);
            assert(pieces.subrange(0, 1).len() == 1);
            assert(pieces.drop_first()[k - 2] == pieces[k - 1]);
        } else {
            assert(pieces.subrange(0, k - 1).drop_first() =~= pieces.drop_first().subrange(
                0,
                k - 2,
            ));
            assert(pieces.subrange(0, k - 1)[0] == pieces[0]);
            assert(pieces.subrange(0, k - 1).len() == k - 1);
            assert(pieces.drop_first()[k - 2] == pieces[k - 1]);
        }
    }
}

/// The canonical character form of a field value (executable form of
/// `value_render`).
pub fn value_render_exec(v: &FieldValue) -> (out: Vec<char>)
    ensures
        out@ == value_render(v@),
{
    match v {
        FieldValue::Primitive(x) => scalar_render_exec(x),
        FieldValue::Optional(o) => match o {
            Some(x) => scalar_render_exec(x),
            None => Vec::new(),
        },
        FieldValue::Sequence(xs) => join_scalars(xs),
        FieldValue::SetOf(xs) => join_scalars(xs),
        FieldValue::OrderedSetOf(xs) => join_scalars(xs),
    }
}

// ---------------------------------------------------------------------------
// Defaults
// ---------------------------------------------------------------------------

/// Whether the matcher and renderer support a kind at all.
pub open spec fn kind_supported(k: KindV) -> bool {
    match k {
        KindV::Primitive(_) => true,
        KindV::Optional(_) => true,
        KindV::Sequence(_) => true,
        KindV::SetOf(_) => true,
        KindV::OrderedSetOf(_) => true,
        _ => false,
    }
}

/// Executable form of `kind_supported`.
pub fn kind_supported_exec(k: &FieldKind) -> (r: bool)
    ensures
        r == kind_supported(k@),
{
    match k {
        FieldKind::Primitive(_) => true,
        FieldKind::Optional(_) => true,
        FieldKind::Sequence(_) => true,
        FieldKind::SetOf(_) => true,
        FieldKind::OrderedSetOf(_) => true,
        _ => false,
    }
}

/// The value a field takes when its placeholder is permitted to be missing:
/// absent for an optional field, the type's default otherwise.
pub open spec fn value_default(k: KindV) -> ValueV {
    match k {
        KindV::Primitive(s) => ValueV::Primitive(scalar_default(s)),
        KindV::Optional(_) => ValueV::Optional(None),
        KindV::Sequence(_) => ValueV::Sequence(Seq::empty()),
        KindV::SetOf(_) => ValueV::SetOf(Seq::empty()),
        KindV::OrderedSetOf(_) => ValueV::OrderedSetOf(Seq::empty()),
        _ => ValueV::Optional(None),
    }
}

/// Executable form of `value_default`.
pub fn value_default_exec(k: &FieldKind) -> (out: FieldValue)
    requires
        kind_supported(k@),
    ensures
        out@ == value_default(k@),
        value_well_typed(out@, k@),
        fits_kind(out, k@),
{
    match k {
        FieldKind::Primitive(s) => FieldValue::Primitive(scalar_default_exec(*s)),
        FieldKind::Optional(_) => FieldValue::Optional(None),
        FieldKind::Sequence(_) => {
            let v = FieldValue::Sequence(Vec::new());
            proof {
                assert(scalars_view(Seq::<ScalarValue>::empty()) =~= Seq::<ScalarV>::empty());
            }
            v
        },
        FieldKind::SetOf(_) => {
            let v = FieldValue::SetOf(Vec::new());
            proof {
                assert(scalars_view(Seq::<ScalarValue>::empty()) =~= Seq::<ScalarV>::empty());
            }
            v
        },
        FieldKind::OrderedSetOf(_) => {
            let v = FieldValue::OrderedSetOf(Vec::new());
            proof {
                assert(scalars_view(Seq::<ScalarValue>::empty()) =~= Seq::<ScalarV>::empty());
            }
            v
        },
        _ => {
            proof {
                assert(false);
            }
            FieldValue::Optional(None)
        },
    }
}

// ---------------------------------------------------------------------------
// Sorted insertion (set collections)
// ---------------------------------------------------------------------------

/// `xs` with `x` inserted at its sorted position, or unchanged when an
/// equal element is already present.
pub open spec fn insert_sorted_spec(xs: Seq<ScalarV>, x: ScalarV) -> Seq<ScalarV>
    decreases xs.len(),
{
    if xs.len() == 0 {
        seq![x]
    } else if scalar_lt(x, xs[0]) {
        seq![x] + xs
    } else if x == xs[0] {
        xs
    } else {
        seq![xs[0]] + insert_sorted_spec(xs.drop_first(), x)
    }
}

/// Inserts `x` into the sorted vector `xs` (executable form of
/// `insert_sorted_spec`), deduplicating.
pub fn insert_sorted(xs: &mut Vec<ScalarValue>, x: ScalarValue, s: ScalarType)
    requires
        elems_fit(old(xs)@, s),
        value_fits(x, s),
    ensures
        scalars_view(final(xs)@) == insert_sorted_spec(scalars_view(old(xs)@), x@),
        elems_fit(final(xs)@, s),
    decreases old(xs)@.len(),
{
    let ghost orig = xs@;
    let mut idx: usize = 0;
    while idx < xs.len() && scalar_lt_exec(&xs[idx], &x)
        invariant
            idx <= xs@.len(),
            xs@ == orig,
            elems_fit(xs@, s),
            value_fits(x, s),
            forall|m: int| 0 <= m < idx ==> scalar_lt(#[trigger] xs@[m]@, x@),
        decreases xs@.len() - idx,
    {
        idx = idx + 1;
    }
    proof {
        assert forall|m: int| 0 <= m < orig.len() implies sv_same_shape(
            #[trigger] scalars_view(orig)[m],
            x@,
        ) by {
            lemma_fits_shape(orig[m], x, s);
        }
    }
    if idx < xs.len() && scalar_eq_exec(&xs[idx], &x) {
        proof {
            lemma_insert_sorted_at(scalars_view(orig), x@, idx as int, true);
        }
    } else {
        xs.insert(idx, x);
        proof {
            assert(scalars_view(xs@) =~= scalars_view(orig).insert(idx as int, x@)) by {
                assert(xs@ == orig.insert(idx as int, x));
                assert(forall|m: int|
                    0 <= m < idx ==> #[trigger] scalars_view(xs@)[m] == scalars_view(orig)[m]);
                assert(scalars_view(xs@)[idx as int] == x@);
                assert(forall|m: int|
                    idx < m < xs@.len() ==> #[trigger] scalars_view(xs@)[m] == scalars_view(
                        orig,
                    )[m - 1]);
            }
            lemma_insert_sorted_at(scalars_view(orig), x@, idx as int, false);
        }
    }
}

/// Where the first non-smaller element decides insertion: when it equals the
/// new element the sequence is unchanged, otherwise the element lands just
/// before it.
proof fn lemma_insert_sorted_at(xs: Seq<ScalarV>, x: ScalarV, idx: int, eq_here: bool)
    requires
        forall|m: int| 0 <= m < xs.len() ==> sv_same_shape(#[trigger] xs[m], x),
        0 <= idx <= xs.len(),
        forall|m: int| 0 <= m < idx ==> scalar_lt(#[trigger] xs[m], x),
        idx < xs.len() ==> !scalar_lt(xs[idx], x),
        eq_here <==> (idx < xs.len() && xs[idx] == x),
    ensures
        eq_here ==> insert_sorted_spec(xs, x) == xs,
        !eq_here ==> insert_sorted_spec(xs, x) == xs.insert(idx, x),
    decreases xs.len(),
{
    if xs.len() == 0 {
        assert(xs.insert(0, x) =~= seq![x]);
    } else if idx == 0 {
        if eq_here {
            if scalar_lt(x, xs[0]) {
                // x < xs[0] and x == xs[0] cannot both hold
                assert(!scalar_lt(x, x)) by {
                    lemma_scalar_lt_irrefl(x);
                }
            }
        } else {
            // !(xs[0] < x); if also !(x < xs[0]) and x != xs[0], insertion
            // still lands at the front only when x < xs[0]; the spec takes
            // the first branch exactly when scalar_lt(x, xs[0]).
            if scalar_lt(x, xs[0]) {
                assert(insert_sorted_spec(xs, x) == seq![x] + xs);
                assert(xs.insert(0, x) =~= seq![x] + xs);
            } else {
                // x and xs[0] are unordered and unequal: cannot happen for
                // values of one scalar type.
                lemma_scalar_lt_total(x, xs[0]);
                assert(false);
            }
        }
    } else {
        // xs[0] < x, so the spec recurses past the head.
        assert(scalar_lt(xs[0], x));
        assert(!scalar_lt(x, xs[0])) by {
            lemma_scalar_lt_asym(xs[0], x);
        }
        assert(x != xs[0]) by {
            lemma_scalar_lt_irrefl(x);
        }
        let tail = xs.drop_first();
        assert(forall|m: int| 0 <= m < tail.len() ==> sv_same_shape(#[trigger] tail[m], x));
        assert(forall|m: int| 0 <= m < idx - 1 ==> scalar_lt(#[trigger] tail[m], x));
        assert(idx - 1 < tail.len() ==> !scalar_lt(tail[idx - 1], x));
        lemma_insert_sorted_at(tail, x, idx - 1, eq_here);
        if eq_here {
            assert(insert_sorted_spec(xs, x) == seq![xs[0]] + insert_sorted_spec(tail, x));
            assert(seq![xs[0]] + tail =~= xs);
        } else {
            assert(insert_sorted_spec(xs, x) == seq![xs[0]] + tail.insert(idx - 1, x));
            assert(seq![xs[0]] + tail.insert(idx - 1, x) =~= xs.insert(idx, x));
        }
    }
}

// ---------------------------------------------------------------------------
// Order facts for scalar values of one type
// ---------------------------------------------------------------------------

/// No scalar is below itself.
pub proof fn lemma_scalar_lt_irrefl(a: ScalarV)
    ensures
        !scalar_lt(a, a),
{
    match a {
        ScalarV::Txt(t) => {
            lemma_lex_lt_irrefl(t);
        },
        _ => {},
    }
}

proof fn lemma_lex_lt_irrefl(t: Seq<char>)
    ensures
        !crate::scalar::lex_lt(t, t),
    decreases t.len(),
{
    if t.len() > 0 {
        lemma_lex_lt_irrefl(t.drop_first());
    }
}

/// The order is asymmetric.
pub proof fn lemma_scalar_lt_asym(a: ScalarV, b: ScalarV)
    ensures
        scalar_lt(a, b) ==> !scalar_lt(b, a),
{
    match (a, b) {
        (ScalarV::Txt(x), ScalarV::Txt(y)) => {
            lemma_lex_lt_asym(x, y);
        },
        _ => {},
    }
}

proof fn lemma_lex_lt_asym(x: Seq<char>, y: Seq<char>)
    ensures
        crate::scalar::lex_lt(x, y) ==> !crate::scalar::lex_lt(y, x),
    decreases x.len(),
{
    if x.len() > 0 && y.len() > 0 && x[0] == y[0] {
        lemma_lex_lt_asym(x.drop_first(), y.drop_first());
    }
}

/// Two same-shaped scalars are ordered one way or equal.
pub proof fn lemma_scalar_lt_total(a: ScalarV, b: ScalarV)
    requires
        sv_same_shape(a, b),
    ensures
        scalar_lt(a, b) || scalar_lt(b, a) || a == b,
{
    match (a, b) {
        (ScalarV::Txt(x), ScalarV::Txt(y)) => {
            lemma_lex_lt_total(x, y);
        },
        _ => {},
    }
}

proof fn lemma_lex_lt_total(x: Seq<char>, y: Seq<char>)
    ensures
        crate::scalar::lex_lt(x, y) || crate::scalar::lex_lt(y, x) || x == y,
    decreases x.len(),
{
    if y.len() == 0 {
        if x.len() == 0 {
            assert(x =~= y);
        } else {
            assert(crate::scalar::lex_lt(y, x));
        }
    } else if x.len() == 0 {
        assert(crate::scalar::lex_lt(x, y));
    } else if (x[0] as u32) < (y[0] as u32) {
        assert(crate::scalar::lex_lt(x, y));
    } else if x[0] == y[0] {
        lemma_lex_lt_total(x.drop_first(), y.drop_first());
        if x.drop_first() == y.drop_first() {
            assert(x.drop_first().len() == x.len() - 1);
            assert(y.drop_first().len() == y.len() - 1);
            assert(x.len() == y.len());
            assert forall|m: int| 0 <= m < x.len() implies x[m] == y[m] by {
                if m > 0 {
                    assert(x[m] == x.drop_first()[m - 1]);
                    assert(y[m] == y.drop_first()[m - 1]);
                }
            }
            assert(x =~= y);
        }
    } else {
        if (y[0] as u32) == (x[0] as u32) {
            lemma_char_cast_inj(y[0], x[0]);
        }
        assert((y[0] as u32) < (x[0] as u32));
        assert(crate::scalar::lex_lt(y, x));
    }
}

/// Distinct characters have distinct code points.
proof fn lemma_char_cast_inj(a: char, b: char)
    requires
        a as u32 == b as u32,
    ensures
        a == b,
{
}

/// The order is transitive.
pub proof fn lemma_scalar_lt_trans(a: ScalarV, b: ScalarV, c: ScalarV)
    ensures
        scalar_lt(a, b) && scalar_lt(b, c) ==> scalar_lt(a, c),
{
    match (a, b, c) {
        (ScalarV::Txt(x), ScalarV::Txt(y), ScalarV::Txt(z)) => {
            lemma_lex_lt_trans(x, y, z);
        },
        _ => {},
    }
}

proof fn lemma_lex_lt_trans(x: Seq<char>, y: Seq<char>, z: Seq<char>)
    ensures
        crate::scalar::lex_lt(x, y) && crate::scalar::lex_lt(y, z) ==> crate::scalar::lex_lt(
            x,
            z,
        ),
    decreases x.len() + y.len() + z.len(),
{
    if x.len() > 0 && y.len() > 0 && z.len() > 0 {
        lemma_lex_lt_trans(x.drop_first(), y.drop_first(), z.drop_first());
    }
}

/// Values carried for one scalar type view to same-shaped scalars.
pub proof fn lemma_fits_shape(a: ScalarValue, b: ScalarValue, s: ScalarType)
    requires
        value_fits(a, s),
        value_fits(b, s),
    ensures
        sv_same_shape(a@, b@),
{
}

/// Whether two mathematical scalars have the same shape.
pub open spec fn sv_same_shape(a: ScalarV, b: ScalarV) -> bool {
    match (a, b) {
        (ScalarV::Txt(_), ScalarV::Txt(_)) => true,
        (ScalarV::Flag(_), ScalarV::Flag(_)) => true,
        (ScalarV::Ch(_), ScalarV::Ch(_)) => true,
        (ScalarV::IntV(_), ScalarV::IntV(_)) => true,
        _ => false,
    }
}

// ---------------------------------------------------------------------------
// Records
// ---------------------------------------------------------------------------

/// One field of a record: its name and its value.
#[derive(Debug, Clone, PartialEq, Eq)]
pub struct Binding {
    pub name: String,
    pub value: FieldValue,
}

/// The mathematical form of a binding.
pub struct BindV {
    pub name: Seq<char>,
    pub value: ValueV,
}

impl View for Binding {
    type V = BindV;

    open spec fn view(&self) -> BindV {
        BindV { name: self.name@, value: self.value@ }
    }
}

/// A parsed (or to-be-rendered) record: named field values, one binding per
/// field, in the field registry's declared order.
#[derive(Debug, Clone, PartialEq, Eq)]
pub struct Record {
    pub entries: Vec<Binding>,
}

impl View for Record {
    type V = Seq<BindV>;

    open spec fn view(&self) -> Seq<BindV> {
        Seq::new(self.entries@.len(), |i: int| self.entries@[i]@)
    }
}

/// The index of the first binding named `name`, or `-1`.
pub open spec fn binding_index(r: Seq<BindV>, name: Seq<char>) -> int
    decreases r.len(),
{
    if r.len() == 0 {
        -1
    } else if r[0].name == name {
        0
    } else {
        let k = binding_index(r.drop_first(), name);
        if k < 0 {
            -1
        } else {
            k + 1
        }
    }
}

/// The value of the first binding of that name, if any.
pub open spec fn record_get(r: Seq<BindV>, name: Seq<char>) -> Option<ValueV> {
    if binding_index(r, name) >= 0 {
        Some(r[binding_index(r, name)].value)
    } else {
        None
    }
}

/// `binding_index` finds the first binding of that name, or reports that
/// none carries it.
pub proof fn lemma_binding_index(r: Seq<BindV>, name: Seq<char>)
    ensures
        ({
            let k = binding_index(r, name);
            if k >= 0 {
                k < r.len() && r[k].name == name && forall|m: int|
                    0 <= m < k ==> (#[trigger] r[m]).name != name
            } else {
                forall|m: int| 0 <= m < r.len() ==> (#[trigger] r[m]).name != name
            }
        }),
    decreases r.len(),
{
    if r.len() == 0 {
    } else if r[0].name == name {
    } else {
        lemma_binding_index(r.drop_first(), name);
        let k = binding_index(r.drop_first(), name);
        if k >= 0 {
            assert(forall|m: int| 1 <= m < k + 1 ==> (#[trigger] r[m]) == r.drop_first()[m - 1]);
        } else {
            assert(forall|m: int|
                1 <= m < r.len() ==> (#[trigger] r[m]) == r.drop_first()[m - 1]);
        }
    }
}

impl Record {
    /// An empty record.
    pub fn new() -> (out: Record)
        ensures
            out@ == Seq::<BindV>::empty(),
    {
        let out = Record { entries: Vec::new() };
        proof {
            assert(out@ =~= Seq::<BindV>::empty());
        }
        out
    }

    /// Appends a binding.
    pub fn push(&mut self, name: String, value: FieldValue)
        ensures
            final(self)@ == old(self)@.push(BindV { name: name@, value: value@ }),
    {
        let ghost before = self@;
        self.entries.push(Binding { name, value });
        proof {
            assert(self@ =~= before.push(self.entries@.last()@));
        }
    }

    /// The value bound to `name`, if any (executable form of `record_get`).
    pub fn get(&self, name: &str) -> (r: Option<&FieldValue>)
        ensures
            match r {
                Some(v) => record_get(self@, name@) == Some(v@),
                None => record_get(self@, name@) is None,
            },
    {
        let target = chars_of(name);
        proof {
            lemma_binding_index(self@, name@);
        }
        let mut k: usize = 0;
        while k < self.entries.len()
            invariant
                k <= self.entries@.len(),
                target@ == name@,
                forall|m: int| 0 <= m < k ==> (#[trigger] self@[m]).name != name@,
            decreases self.entries@.len() - k,
        {
            let cand = chars_of(self.entries[k].name.as_str());
            if chars_eq(&cand, &target) {
                proof {
                    lemma_binding_index(self@, name@);
                    let j = binding_index(self@, name@);
                    assert(self@[k as int].name == name@);
                    assert(j >= 0);
                    assert(j == k as int) by {
                        if j < k as int {
                            assert(self@[j].name == name@);
                        }
                        if j > k as int {
                            assert(self@[k as int].name != name@);
                        }
                    }
                }
                return Some(&self.entries[k].value);
            }
            proof {
                assert(self@[k as int].name != name@);
            }
            k = k + 1;
        }
        proof {
            lemma_binding_index(self@, name@);
            let j = binding_index(self@, name@);
            if j >= 0 {
                assert(self@[j].name == name@);
            }
        }
        None
    }
}

} // verus!
