//! The matcher: a single left-to-right scan of the input against a compiled
//! template. Literals must match where the cursor stands; a placeholder
//! captures a span — fixed-width kinds take their statically known form,
//! variable-width kinds take everything up to the next literal's first
//! occurrence (or the rest of the input) — and the span is converted by the
//! field's kind. A repeated placeholder must capture a consistent value;
//! fields the template never uses are filled with absent or default values.

use vstd::prelude::*;
use crate::chars::{
    chars_of, chars_eq, find_sub, find_occurrence, match_at, occurs_at, split_commas,
    split_commas_exec, string_of, subvec,
};
use crate::errors::{ErrV, TemplateError};
use crate::fields::{
    field_index, find_field, has_field, kind_display, kind_display_exec, kind_of,
    lemma_field_index, FieldKind, KindV,
};
use crate::scalar::{
    false_chars, scalar_parse, scalar_parse_exec, true_chars, ScalarType, ScalarV, ScalarValue,
};
use crate::segment::{SegV, TemplateSegments};
use crate::template::{fields_ok, phs_ok, segs_ok, CompiledTemplate, CompiledV};
use crate::value::{
    elems_fit, insert_sorted, insert_sorted_spec, kind_supported, scalars_view, value_default,
    value_default_exec, value_render, value_render_exec, BindV, FieldValue, Record, ValueV,
};

verus! {

/// The message of the error raised when input is left over after the last
/// segment.
pub open spec fn msg_trailing() -> Seq<char> {
    "unexpected trailing characters"@
}

/// Whether a kind captures a single character.
pub open spec fn is_char_kind(k: KindV) -> bool {
    k == KindV::Primitive(ScalarType::Char) || k == KindV::Optional(ScalarType::Char)
}

/// Whether a kind captures a boolean token.
pub open spec fn is_bool_kind(k: KindV) -> bool {
    k == KindV::Primitive(ScalarType::Bool) || k == KindV::Optional(ScalarType::Bool)
}

/// Whether a kind is one of the collection kinds, which compare repeated
/// captures by canonical re-rendering rather than by raw text.
pub open spec fn is_collection_kind(k: KindV) -> bool {
    k is Sequence || k is SetOf || k is OrderedSetOf
}

/// The region a variable-width capture may span: up to the next segment's
/// literal text, at its first occurrence from the cursor on, or the rest of
/// the input when that literal never occurs or no literal follows.
pub open spec fn var_region(c: CompiledV, s: Seq<char>, i: int, cur: int) -> Seq<char> {
    if i + 1 < c.segments.len() && c.segments[i + 1] is Literal {
        match find_sub(s, c.segments[i + 1]->Literal_0, cur) {
            Some(j) => s.subrange(cur, j),
            None => s.subrange(cur, s.len() as int),
        }
    } else {
        s.subrange(cur, s.len() as int)
    }
}

/// The span the placeholder at segment `i` captures at cursor `cur`: one
/// character (or nothing at the end of input) for a character kind; the
/// matching boolean token for a boolean kind, preferring `true`, with up to
/// five characters of the variable region captured when neither token
/// matches; and the variable region otherwise.
pub open spec fn capture_spec(c: CompiledV, s: Seq<char>, i: int, cur: int) -> Seq<char> {
    let k = kind_of(c.fields, c.segments[i]->Placeholder_0);
    if is_char_kind(k) {
        if cur < s.len() {
            s.subrange(cur, cur + 1)
        } else {
            Seq::empty()
        }
    } else if is_bool_kind(k) {
        if occurs_at(s, true_chars(), cur) {
            true_chars()
        } else if occurs_at(s, false_chars(), cur) {
            false_chars()
        } else {
            let r = var_region(c, s, i, cur);
            if r.len() > 5 {
                r.subrange(0, 5)
            } else {
                r
            }
        }
    } else {
        var_region(c, s, i, cur)
    }
}

// ---------------------------------------------------------------------------
// Converting a captured span
// ---------------------------------------------------------------------------

/// The scalars the pieces from `k` on parse to, if every piece parses.
pub open spec fn parse_pieces_from(sc: ScalarType, ps: Seq<Seq<char>>, k: int) -> Option<
    Seq<ScalarV>,
>
    decreases ps.len() + 1 - k,
{
    if k < 0 || k >= ps.len() {
        Some(Seq::empty())
    } else {
        match scalar_parse(sc, ps[k]) {
            None => None,
            Some(v) => match parse_pieces_from(sc, ps, k + 1) {
                None => None,
                Some(r) => Some(seq![v] + r),
            },
        }
    }
}

/// The elements inserted one by one, left to right, into a sorted
/// duplicate-free sequence.
pub open spec fn sorted_from(vs: Seq<ScalarV>) -> Seq<ScalarV>
    decreases vs.len(),
{
    if vs.len() == 0 {
        Seq::empty()
    } else {
        insert_sorted_spec(sorted_from(vs.drop_last()), vs.last())
    }
}

/// What a captured span converts to under a field kind, if anything: a
/// primitive parses directly; an optional is absent on an empty span (for a
/// string only when the empty-means-absent switch is on) and parses
/// otherwise; a collection is empty on an empty span and otherwise splits
/// on commas, parses each piece, and keeps order (sequence) or sorts and
/// deduplicates (both set shapes).
pub open spec fn convert_spec(k: KindV, span: Seq<char>, empty_absent: bool) -> Option<ValueV> {
    match k {
        KindV::Primitive(sc) => match scalar_parse(sc, span) {
            Some(v) => Some(ValueV::Primitive(v)),
            None => None,
        },
        KindV::Optional(sc) => if span.len() == 0 && (empty_absent || sc != ScalarType::Str) {
            Some(ValueV::Optional(None))
        } else {
            match scalar_parse(sc, span) {
                Some(v) => Some(ValueV::Optional(Some(v))),
                None => None,
            }
        },
        KindV::Sequence(sc) => if span.len() == 0 {
            Some(ValueV::Sequence(Seq::empty()))
        } else {
            match parse_pieces_from(sc, split_commas(span), 0) {
                Some(vs) => Some(ValueV::Sequence(vs)),
                None => None,
            }
        },
        KindV::SetOf(sc) => if span.len() == 0 {
            Some(ValueV::SetOf(Seq::empty()))
        } else {
            match parse_pieces_from(sc, split_commas(span), 0) {
                Some(vs) => Some(ValueV::SetOf(sorted_from(vs))),
                None => None,
            }
        },
        KindV::OrderedSetOf(sc) => if span.len() == 0 {
            Some(ValueV::OrderedSetOf(Seq::empty()))
        } else {
            match parse_pieces_from(sc, split_commas(span), 0) {
                Some(vs) => Some(ValueV::OrderedSetOf(sorted_from(vs))),
                None => None,
            }
        },
        _ => None,
    }
}

// ---------------------------------------------------------------------------
// The scan
// ---------------------------------------------------------------------------

/// One placeholder's step of the scan: capture the span at the cursor,
/// then — on the field's first occurrence — convert and bind it, or — on a
/// repeated occurrence — check consistency against the first capture, by
/// raw text for scalars and by canonical re-rendering for collections
/// (whose later occurrences are parsed for the comparison but never bound).
#[verifier::opaque]
pub open spec fn place_step(
    c: CompiledV,
    s: Seq<char>,
    i: int,
    cur: int,
    seen: Seq<Option<Seq<char>>>,
    acc: Seq<Option<ValueV>>,
) -> Result<(int, Seq<Option<Seq<char>>>, Seq<Option<ValueV>>), ErrV> {
    let name = c.segments[i]->Placeholder_0;
    let fi = field_index(c.fields, name);
    let k = kind_of(c.fields, name);
    let span = capture_spec(c, s, i, cur);
    if seen[fi] is Some {
        if is_collection_kind(k) {
            match convert_spec(k, span, c.empty_string_means_absent) {
                None => Err(
                    ErrV::ParseToType { placeholder: name, value: span, ty_name: kind_display(k) },
                ),
                Some(v) => if value_render(v) != value_render(acc[fi]->0) {
                    Err(
                        ErrV::InconsistentValues {
                            placeholder: name,
                            first_value: seen[fi]->0,
                            second_value: span,
                        },
                    )
                } else {
                    Ok((cur + span.len(), seen, acc))
                },
            }
        } else {
            if span != seen[fi]->0 {
                Err(
                    ErrV::InconsistentValues {
                        placeholder: name,
                        first_value: seen[fi]->0,
                        second_value: span,
                    },
                )
            } else {
                Ok((cur + span.len(), seen, acc))
            }
        }
    } else {
        match convert_spec(k, span, c.empty_string_means_absent) {
            None => Err(
                ErrV::ParseToType { placeholder: name, value: span, ty_name: kind_display(k) },
            ),
            Some(v) => Ok(
                (cur + span.len(), seen.update(fi, Some(span)), acc.update(fi, Some(v))),
            ),
        }
    }
}

/// One literal's step of the scan: the literal must stand at the cursor,
/// which then advances past it (moving the anchor with it); otherwise the
/// scan stops, reporting the literal and the input from the anchor on.
pub open spec fn lit_step(c: CompiledV, s: Seq<char>, i: int, cur: int, anchor: int) -> Result<
    int,
    ErrV,
> {
    let l = c.segments[i]->Literal_0;
    if occurs_at(s, l, cur) {
        Ok(cur + l.len())
    } else {
        Err(
            ErrV::UnexpectedInput {
                expected_next_literal: l,
                remaining_text: s.subrange(anchor, s.len() as int),
            },
        )
    }
}

/// One pass over the segments from `i` on: `cur` is the cursor, `anchor`
/// the position after the last matched literal, `seen` the raw first
/// capture of each field, `acc` each field's parsed value. Yields the
/// parsed values, or the first error: each literal takes a `lit_step`,
/// each placeholder a `place_step`; trailing input is refused.
#[verifier::opaque]
pub open spec fn run_from(
    c: CompiledV,
    s: Seq<char>,
    i: int,
    cur: int,
    anchor: int,
    seen: Seq<Option<Seq<char>>>,
    acc: Seq<Option<ValueV>>,
) -> Result<Seq<Option<ValueV>>, ErrV>
    decreases c.segments.len() + 1 - i,
{
    if i < 0 || i >= c.segments.len() {
        if cur == s.len() {
            Ok(acc)
        } else {
            Err(ErrV::Parse(msg_trailing()))
        }
    } else {
        match c.segments[i] {
            SegV::Literal(_) => match lit_step(c, s, i, cur, anchor) {
                Err(e) => Err(e),
                Ok(c2) => run_from(c, s, i + 1, c2, c2, seen, acc),
            },
            SegV::Placeholder(_) => match place_step(c, s, i, cur, seen, acc) {
                Err(e) => Err(e),
                Ok(t) => run_from(c, s, i + 1, t.0, anchor, t.1, t.2),
            },
            SegV::GroupBox { .. } => run_from(c, s, i + 1, cur, anchor, seen, acc),
        }
    }
}

/// The record a finished scan yields: one binding per field, in declared
/// order, with the captured value or — for a field the template never
/// bound — the absent or default value.
pub open spec fn finish_spec(c: CompiledV, acc: Seq<Option<ValueV>>) -> Seq<BindV> {
    Seq::new(
        c.fields.len(),
        |i: int|
            BindV {
                name: c.fields[i].name,
                value: match acc[i] {
                    Some(v) => v,
                    None => value_default(c.fields[i].kind),
                },
            },
    )
}

/// What parsing an input against a compiled template yields: the scan from
/// the first segment at cursor zero with nothing seen, finished with
/// defaults for unused fields, or the scan's first error.
pub open spec fn parse_spec(c: CompiledV, s: Seq<char>) -> Result<Seq<BindV>, ErrV> {
    let blank_seen = Seq::new(c.fields.len(), |i: int| None::<Seq<char>>);
    let blank_acc = Seq::new(c.fields.len(), |i: int| None::<ValueV>);
    match run_from(c, s, 0, 0, 0, blank_seen, blank_acc) {
        Ok(acc) => Ok(finish_spec(c, acc)),
        Err(e) => Err(e),
    }
}

// ---------------------------------------------------------------------------
// Executable scan
// ---------------------------------------------------------------------------

/// The views of the first-capture store.
pub open spec fn seen_view(s: Seq<Option<Vec<char>>>) -> Seq<Option<Seq<char>>> {
    Seq::new(
        s.len(),
        |i: int|
            match s[i] {
                Some(v) => Some(v@),
                None => None,
            },
    )
}

/// The views of the parsed-value store.
pub open spec fn acc_view(a: Seq<Option<FieldValue>>) -> Seq<Option<ValueV>> {
    Seq::new(
        a.len(),
        |i: int|
            match a[i] {
                Some(v) => Some(v@),
                None => None,
            },
    )
}

/// The boolean tokens as character vectors.
fn true_vec() -> (out: Vec<char>)
    ensures
        out@ == true_chars(),
{
    let mut out: Vec<char> = Vec::new();
    out.push('t');
    out.push('r');
    out.push('u');
    out.push('e');
    proof {
        assert(out@ =~= true_chars());
    }
    out
}

fn false_vec() -> (out: Vec<char>)
    ensures
        out@ == false_chars(),
{
    let mut out: Vec<char> = Vec::new();
    out.push('f');
    out.push('a');
    out.push('l');
    out.push('s');
    out.push('e');
    proof {
        assert(out@ =~= false_chars());
    }
    out
}

/// A conversion-failure error over the whole span.
fn parse_to_type_err(name: &String, span: &Vec<char>, kind: &FieldKind) -> (e: TemplateError)
    ensures
        e@ == (ErrV::ParseToType {
            placeholder: name@,
            value: span@,
            ty_name: kind_display(kind@),
        }),
{
    TemplateError::ParseToType {
        placeholder: name.clone(),
        value: string_of(span),
        ty_name: kind_display_exec(kind),
    }
}

/// Parses every piece from `k` on (executable form of `parse_pieces_from`).
fn parse_scalars_exec(sc: ScalarType, pieces: &Vec<Vec<char>>, k: usize) -> (r: Option<
    Vec<ScalarValue>,
>)
    ensures
        match (r, parse_pieces_from(sc, pieces@.map_values(|p: Vec<char>| p@), k as int)) {
            (Some(out), Some(vs)) => scalars_view(out@) == vs && elems_fit(out@, sc),
            (None, None) => true,
            _ => false,
        },
    decreases pieces@.len() - k,
{
    let ghost pv = pieces@.map_values(|p: Vec<char>| p@);
    if k >= pieces.len() {
        let out: Vec<ScalarValue> = Vec::new();
        proof {
            assert(scalars_view(out@) =~= Seq::<ScalarV>::empty());
        }
        Some(out)
    } else {
        proof {
            assert(pv[k as int] == pieces@[k as int]@);
        }
        match scalar_parse_exec(sc, &pieces[k]) {
            None => None,
            Some(v) => match parse_scalars_exec(sc, pieces, k + 1) {
                None => None,
                Some(mut rest) => {
                    let ghost restv = rest@;
                    let mut out: Vec<ScalarValue> = Vec::new();
                    out.push(v);
                    out.append(&mut rest);
                    proof {
                        let vs = parse_pieces_from(sc, pv, k as int)->Some_0;
                        assert(scalars_view(out@) =~= vs) by {
                            assert(scalars_view(restv) == parse_pieces_from(
                                sc,
                                pv,
                                k as int + 1,
                            )->Some_0);
                            assert(forall|m: int|
                                0 <= m < restv.len() ==> #[trigger] scalars_view(restv)[m]
                                    == restv[m]@);
                            assert(forall|m: int|
                                0 <= m < out@.len() ==> #[trigger] scalars_view(out@)[m] == out@[
                                m]@);
                        }
                    }
                    Some(out)
                },
            },
        }
    }
}

/// Sorts and deduplicates parsed elements (executable form of
/// `sorted_from`).
fn sort_dedup(vals: Vec<ScalarValue>, sc: ScalarType) -> (out: Vec<ScalarValue>)
    requires
        elems_fit(vals@, sc),
    ensures
        scalars_view(out@) == sorted_from(scalars_view(vals@)),
        elems_fit(out@, sc),
{
    let mut out: Vec<ScalarValue> = Vec::new();
    let mut k: usize = 0;
    proof {
        assert(scalars_view(out@) =~= Seq::<ScalarV>::empty());
        assert(scalars_view(vals@).subrange(0, 0) =~= Seq::<ScalarV>::empty());
    }
    while k < vals.len()
        invariant
            k <= vals@.len(),
            elems_fit(vals@, sc),
            elems_fit(out@, sc),
            scalars_view(out@) == sorted_from(scalars_view(vals@).subrange(0, k as int)),
        decreases vals@.len() - k,
    {
        let x = vals[k].clone_value();
        insert_sorted(&mut out, x, sc);
        k = k + 1;
        proof {
            let whole = scalars_view(vals@);
            let pre = whole.subrange(0, k as int - 1);
            let pre1 = whole.subrange(0, k as int);
            assert(pre1.drop_last() =~= pre);
            assert(pre1.last() == whole[k as int - 1]);
            assert(whole[k as int - 1] == vals@[k as int - 1]@);
            assert(sorted_from(pre1) == insert_sorted_spec(sorted_from(pre), pre1.last()));
        }
    }
    proof {
        assert(scalars_view(vals@).subrange(0, vals@.len() as int) =~= scalars_view(vals@));
    }
    out
}

impl ScalarValue {
    /// A copy of the scalar with the same mathematical value.
    pub fn clone_value(&self) -> (out: ScalarValue)
        ensures
            out@ == self@,
            forall|sc: ScalarType|
                crate::scalar::value_fits(*self, sc) ==> crate::scalar::value_fits(out, sc),
    {
        match self {
            ScalarValue::Str(s) => ScalarValue::Str(s.clone()),
            ScalarValue::Bool(b) => ScalarValue::Bool(*b),
            ScalarValue::Char(c) => ScalarValue::Char(*c),
            ScalarValue::U8(n) => ScalarValue::U8(*n),
            ScalarValue::U16(n) => ScalarValue::U16(*n),
            ScalarValue::U32(n) => ScalarValue::U32(*n),
            ScalarValue::U64(n) => ScalarValue::U64(*n),
            ScalarValue::I8(n) => ScalarValue::I8(*n),
            ScalarValue::I16(n) => ScalarValue::I16(*n),
            ScalarValue::I32(n) => ScalarValue::I32(*n),
            ScalarValue::I64(n) => ScalarValue::I64(*n),
        }
    }
}

/// Converts a captured span under a field kind (executable form of
/// `convert_spec`); a failure reports the placeholder, the whole span and
/// the kind's display name.
fn convert_exec(kind: &FieldKind, name: &String, span: &Vec<char>, empty_absent: bool) -> (r:
    Result<FieldValue, TemplateError>)
    requires
        kind_supported(kind@),
    ensures
        match (r, convert_spec(kind@, span@, empty_absent)) {
            (Ok(v), Some(vv)) => v@ == vv,
            (Err(e), None) => e@ == (ErrV::ParseToType {
                placeholder: name@,
                value: span@,
                ty_name: kind_display(kind@),
            }),
            _ => false,
        },
{
    match kind {
        FieldKind::Primitive(sc) => match scalar_parse_exec(*sc, span) {
            Some(v) => Ok(FieldValue::Primitive(v)),
            None => Err(parse_to_type_err(name, span, kind)),
        },
        FieldKind::Optional(sc) => {
            let strlike = match sc {
                ScalarType::Str => true,
                _ => false,
            };
            if span.len() == 0 && (empty_absent || !strlike) {
                Ok(FieldValue::Optional(None))
            } else {
                match scalar_parse_exec(*sc, span) {
                    Some(v) => Ok(FieldValue::Optional(Some(v))),
                    None => Err(parse_to_type_err(name, span, kind)),
                }
            }
        },
        FieldKind::Sequence(sc) => {
            if span.len() == 0 {
                let out = FieldValue::Sequence(Vec::new());
                proof {
                    assert(scalars_view(Seq::<ScalarValue>::empty()) =~= Seq::<
                        ScalarV,
                    >::empty());
                }
                Ok(out)
            } else {
                let pieces = split_commas_exec(span);
                match parse_scalars_exec(*sc, &pieces, 0) {
                    Some(vals) => Ok(FieldValue::Sequence(vals)),
                    None => Err(parse_to_type_err(name, span, kind)),
                }
            }
        },
        FieldKind::SetOf(sc) => {
            if span.len() == 0 {
                let out = FieldValue::SetOf(Vec::new());
                proof {
                    assert(scalars_view(Seq::<ScalarValue>::empty()) =~= Seq::<
                        ScalarV,
                    >::empty());
                }
                Ok(out)
            } else {
                let pieces = split_commas_exec(span);
                match parse_scalars_exec(*sc, &pieces, 0) {
                    Some(vals) => Ok(FieldValue::SetOf(sort_dedup(vals, *sc))),
                    None => Err(parse_to_type_err(name, span, kind)),
                }
            }
        },
        FieldKind::OrderedSetOf(sc) => {
            if span.len() == 0 {
                let out = FieldValue::OrderedSetOf(Vec::new());
                proof {
                    assert(scalars_view(Seq::<ScalarValue>::empty()) =~= Seq::<
                        ScalarV,
                    >::empty());
                }
                Ok(out)
            } else {
                let pieces = split_commas_exec(span);
                match parse_scalars_exec(*sc, &pieces, 0) {
                    Some(vals) => Ok(FieldValue::OrderedSetOf(sort_dedup(vals, *sc))),
                    None => Err(parse_to_type_err(name, span, kind)),
                }
            }
        },
        _ => {
            proof {
                assert(false);
            }
            Err(parse_to_type_err(name, span, kind))
        },
    }
}

impl CompiledTemplate {
    /// The variable-width capture region (executable form of `var_region`).
    fn var_region_exec(&self, s: &Vec<char>, i: usize, cur: usize) -> (out: Vec<char>)
        requires
            i < self@.segments.len(),
            cur <= s@.len(),
        ensures
            out@ == var_region(self@, s@, i as int, cur as int),
            cur + out@.len() <= s@.len(),
    {
        proof {
            self.view_parts();
        }
        let n_segs = self.segments.len();
        if i + 1 < n_segs {
            proof {
                assert(self@.segments[i as int + 1] == self.segments@[i as int + 1]@);
            }
            match &self.segments[i + 1] {
                TemplateSegments::Literal(lit) => {
                    let lv = chars_of(lit.as_str());
                    proof {
                        assert(self@.segments[i as int + 1]->Literal_0 == lv@);
                    }
                    match find_occurrence(s, &lv, cur) {
                        Some(j) => subvec(s, cur, j),
                        None => subvec(s, cur, s.len()),
                    }
                },
                _ => subvec(s, cur, s.len()),
            }
        } else {
            subvec(s, cur, s.len())
        }
    }

    /// The span the placeholder at segment `i` captures (executable form of
    /// `capture_spec`).
    fn capture_exec(&self, s: &Vec<char>, i: usize, cur: usize, fi: usize) -> (span: Vec<char>)
        requires
            i < self@.segments.len(),
            self@.segments[i as int] is Placeholder,
            cur <= s@.len(),
            fi < self@.fields.len(),
            field_index(self@.fields, self@.segments[i as int]->Placeholder_0) == fi as int,
        ensures
            span@ == capture_spec(self@, s@, i as int, cur as int),
            cur + span@.len() <= s@.len(),
    {
        proof {
            self.view_parts();
        }
        let ghost k = kind_of(self@.fields, self@.segments[i as int]->Placeholder_0);
        let kind = &self.fields[fi].kind;
        proof {
            assert(self@.fields[fi as int].kind == self.fields@[fi as int].kind@);
            assert(kind@ == k);
        }
        let char_kind = match kind {
            FieldKind::Primitive(ScalarType::Char) => true,
            FieldKind::Optional(ScalarType::Char) => true,
            _ => false,
        };
        let bool_kind = match kind {
            FieldKind::Primitive(ScalarType::Bool) => true,
            FieldKind::Optional(ScalarType::Bool) => true,
            _ => false,
        };
        proof {
            assert(char_kind == is_char_kind(k));
            assert(bool_kind == is_bool_kind(k));
        }
        if char_kind {
            if cur < s.len() {
                subvec(s, cur, cur + 1)
            } else {
                let out: Vec<char> = Vec::new();
                proof {
                    assert(out@ =~= Seq::<char>::empty());
                }
                out
            }
        } else if bool_kind {
            let tv = true_vec();
            if match_at(s, &tv, cur) {
                tv
            } else {
                let fv = false_vec();
                if match_at(s, &fv, cur) {
                    fv
                } else {
                    let region = self.var_region_exec(s, i, cur);
                    if region.len() > 5 {
                        subvec(&region, 0, 5)
                    } else {
                        region
                    }
                }
            }
        } else {
            self.var_region_exec(s, i, cur)
        }
    }

    /// One placeholder's step of the scan (executable form of
    /// `place_step`): returns the cursor after the captured span.
    #[verifier::rlimit(100)]
    #[verifier::spinoff_prover]
    fn step_exec(
        &self,
        s: &Vec<char>,
        i: usize,
        cur: usize,
        seen: &mut Vec<Option<Vec<char>>>,
        acc: &mut Vec<Option<FieldValue>>,
    ) -> (r: Result<usize, TemplateError>)
        requires
            i < self@.segments.len(),
            self@.segments[i as int] is Placeholder,
            has_field(self@.fields, self@.segments[i as int]->Placeholder_0),
            kind_supported(kind_of(self@.fields, self@.segments[i as int]->Placeholder_0)),
            cur <= s@.len(),
            old(seen)@.len() == self@.fields.len(),
            old(acc)@.len() == self@.fields.len(),
            forall|m: int|
                0 <= m < self@.fields.len() ==> ((#[trigger] old(seen)@[m]) is Some <==> old(
                    acc,
                )@[m] is Some),
        ensures
            final(seen)@.len() == self@.fields.len(),
            final(acc)@.len() == self@.fields.len(),
            forall|m: int|
                0 <= m < self@.fields.len() ==> ((#[trigger] final(seen)@[m]) is Some
                    <==> final(acc)@[m] is Some),
            match (r, place_step(
                self@,
                s@,
                i as int,
                cur as int,
                seen_view(old(seen)@),
                acc_view(old(acc)@),
            )) {
                (Ok(c2), Ok(t)) => c2 as int == t.0 && seen_view(final(seen)@) == t.1
                    && acc_view(final(acc)@) == t.2 && cur <= c2 <= s@.len(),
                (Err(e), Err(ev)) => e@ == ev,
                _ => false,
            },
    {
        proof {
            reveal(crate::matcher::place_step);
            self.view_parts();
            assert(self@.segments[i as int] == self.segments@[i as int]@);
        }
        let name = match &self.segments[i] {
            TemplateSegments::Placeholder(n) => n,
            _ => {
                proof {
                    assert(false);
                }
                &self.fields[0].name
            },
        };
        let ghost namev = name@;
        let fi = match find_field(&self.fields, name) {
            Some(fi) => fi,
            None => {
                proof {
                    assert(false);
                }
                0
            },
        };
        proof {
            lemma_field_index(self@.fields, namev);
            assert(fi < self@.fields.len());
            assert(self@.fields[fi as int].kind == kind_of(self@.fields, namev));
            assert(self@.fields[fi as int].kind == self.fields@[fi as int].kind@);
        }
        let _input_len = s.len();
        let span = self.capture_exec(s, i, cur, fi);
        let ghost k = kind_of(self@.fields, namev);
        let is_seen = match &seen[fi] {
            Some(_) => true,
            None => false,
        };
        proof {
            assert(seen_view(seen@)[fi as int] is Some <==> seen@[fi as int] is Some);
            assert(acc_view(acc@)[fi as int] is Some <==> acc@[fi as int] is Some);
        }
        if is_seen {
            let coll = match &self.fields[fi].kind {
                FieldKind::Sequence(_) => true,
                FieldKind::SetOf(_) => true,
                FieldKind::OrderedSetOf(_) => true,
                _ => false,
            };
            proof {
                assert(coll == is_collection_kind(k));
            }
            if coll {
                let kind = self.fields[fi].kind.clone_kind();
                match convert_exec(&kind, name, &span, self.empty_string_means_absent) {
                    Err(e) => Err(e),
                    Ok(v) => {
                        let canon_new = value_render_exec(&v);
                        let canon_prev = match &acc[fi] {
                            Some(pv) => value_render_exec(pv),
                            None => {
                                proof {
                                    assert(false);
                                }
                                Vec::new()
                            },
                        };
                        if !chars_eq(&canon_new, &canon_prev) {
                            let prev_raw = match &seen[fi] {
                                Some(p) => string_of(p),
                                None => {
                                    proof {
                                        assert(false);
                                    }
                                    String::new()
                                },
                            };
                            Err(
                                TemplateError::InconsistentValues {
                                    placeholder: name.clone(),
                                    first_value: prev_raw,
                                    second_value: string_of(&span),
                                },
                            )
                        } else {
                            Ok(cur + span.len())
                        }
                    },
                }
            } else {
                let prev_raw_eq = match &seen[fi] {
                    Some(p) => chars_eq(&span, p),
                    None => {
                        proof {
                            assert(false);
                        }
                        false
                    },
                };
                if !prev_raw_eq {
                    let prev_raw = match &seen[fi] {
                        Some(p) => string_of(p),
                        None => {
                            proof {
                                assert(false);
                            }
                            String::new()
                        },
                    };
                    Err(
                        TemplateError::InconsistentValues {
                            placeholder: name.clone(),
                            first_value: prev_raw,
                            second_value: string_of(&span),
                        },
                    )
                } else {
                    Ok(cur + span.len())
                }
            }
        } else {
            let kind = self.fields[fi].kind.clone_kind();
            match convert_exec(&kind, name, &span, self.empty_string_means_absent) {
                Err(e) => Err(e),
                Ok(v) => {
                    let ghost seen0 = seen_view(seen@);
                    let ghost acc0 = acc_view(acc@);
                    let ghost spanv = span@;
                    let ghost vv = v@;
                    let cur2 = cur + span.len();
                    seen.remove(fi);
                    seen.insert(fi, Some(span));
                    acc.remove(fi);
                    acc.insert(fi, Some(v));
                    proof {
                        assert(seen_view(seen@) =~= seen0.update(fi as int, Some(spanv)));
                        assert(acc_view(acc@) =~= acc0.update(fi as int, Some(vv)));
                    }
                    Ok(cur2)
                },
            }
        }
    }

    /// One literal's step of the scan (executable form of `lit_step`).
    fn lit_step_exec(&self, s: &Vec<char>, i: usize, cur: usize, anchor: usize) -> (r: Result<
        usize,
        TemplateError,
    >)
        requires
            i < self@.segments.len(),
            self@.segments[i as int] is Literal,
            anchor <= cur <= s@.len(),
        ensures
            match (r, lit_step(self@, s@, i as int, cur as int, anchor as int)) {
                (Ok(c2), Ok(sc2)) => c2 as int == sc2 && cur <= c2 <= s@.len(),
                (Err(e), Err(ev)) => e@ == ev,
                _ => false,
            },
    {
        proof {
            self.view_parts();
            assert(self@.segments[i as int] == self.segments@[i as int]@);
        }
        let _input_len = s.len();
        match &self.segments[i] {
            TemplateSegments::Literal(lit) => {
                let lv = chars_of(lit.as_str());
                proof {
                    assert(self@.segments[i as int]->Literal_0 == lv@);
                }
                if match_at(s, &lv, cur) {
                    Ok(cur + lv.len())
                } else {
                    Err(
                        TemplateError::UnexpectedInput {
                            expected_next_literal: lit.clone(),
                            remaining_text: string_of(&subvec(s, anchor, s.len())),
                        },
                    )
                }
            },
            _ => {
                proof {
                    assert(false);
                }
                Err(TemplateError::Parse(String::new()))
            },
        }
    }

    /// One segment's step of the scan, whatever the segment is: advances
    /// the cursor (and, past a literal, the anchor), or stops with the
    /// scan's error. The contract states exactly that the scan's outcome
    /// from the state before the step equals the outcome from the state
    /// after it.
    #[verifier::rlimit(100)]
    #[verifier::spinoff_prover]
    fn scan_step_exec(
        &self,
        s: &Vec<char>,
        i: usize,
        cur: usize,
        anchor: usize,
        seen: &mut Vec<Option<Vec<char>>>,
        acc: &mut Vec<Option<FieldValue>>,
    ) -> (r: Result<(usize, usize), TemplateError>)
        requires
            segs_ok(self@),
            phs_ok(self@),
            i < self@.segments.len(),
            anchor <= cur <= s@.len(),
            old(seen)@.len() == self@.fields.len(),
            old(acc)@.len() == self@.fields.len(),
            forall|m: int|
                0 <= m < self@.fields.len() ==> ((#[trigger] old(seen)@[m]) is Some <==> old(
                    acc,
                )@[m] is Some),
        ensures
            final(seen)@.len() == self@.fields.len(),
            final(acc)@.len() == self@.fields.len(),
            forall|m: int|
                0 <= m < self@.fields.len() ==> ((#[trigger] final(seen)@[m]) is Some
                    <==> final(acc)@[m] is Some),
            match r {
                Ok(t) => t.1 <= t.0 <= s@.len() && cur <= t.0 && anchor <= t.1 && run_from(
                    self@,
                    s@,
                    i as int,
                    cur as int,
                    anchor as int,
                    seen_view(old(seen)@),
                    acc_view(old(acc)@),
                ) == run_from(
                    self@,
                    s@,
                    i as int + 1,
                    t.0 as int,
                    t.1 as int,
                    seen_view(final(seen)@),
                    acc_view(final(acc)@),
                ),
                Err(e) => run_from(
                    self@,
                    s@,
                    i as int,
                    cur as int,
                    anchor as int,
                    seen_view(old(seen)@),
                    acc_view(old(acc)@),
                ) == Err::<Seq<Option<ValueV>>, ErrV>(e@),
            },
    {
        proof {
            reveal(crate::matcher::run_from);
            self.view_parts();
            assert(self@.segments[i as int] == self.segments@[i as int]@);
        }
        match &self.segments[i] {
            TemplateSegments::Literal(_) => {
                match self.lit_step_exec(s, i, cur, anchor) {
                    Err(e) => Err(e),
                    Ok(cur2) => Ok((cur2, cur2)),
                }
            },
            TemplateSegments::Placeholder(_) => {
                match self.step_exec(s, i, cur, seen, acc) {
                    Err(e) => Err(e),
                    Ok(cur2) => Ok((cur2, anchor)),
                }
            },
            TemplateSegments::GroupBox { .. } => {
                proof {
                    assert(self@.segments[i as int] is GroupBox);
                    assert(false);
                }
                Err(TemplateError::Parse(String::new()))
            },
        }
    }

    /// Runs the whole scan (executable form of `run_from` started at the
    /// first segment). The loop keeps one fact: the outcome of the scan
    /// still to come, from the current segment and state, is the outcome of
    /// the whole scan.
    fn run_exec(
        &self,
        s: &Vec<char>,
        seen: &mut Vec<Option<Vec<char>>>,
        acc: &mut Vec<Option<FieldValue>>,
    ) -> (r: Result<(), TemplateError>)
        requires
            segs_ok(self@),
            phs_ok(self@),
            old(seen)@.len() == self@.fields.len(),
            old(acc)@.len() == self@.fields.len(),
            forall|m: int|
                0 <= m < self@.fields.len() ==> ((#[trigger] old(seen)@[m]) is Some <==> old(
                    acc,
                )@[m] is Some),
        ensures
            match (r, run_from(
                self@,
                s@,
                0,
                0,
                0,
                seen_view(old(seen)@),
                acc_view(old(acc)@),
            )) {
                (Ok(()), Ok(a)) => acc_view(final(acc)@) == a && final(acc)@.len()
                    == self@.fields.len(),
                (Err(e), Err(ev)) => e@ == ev,
                _ => false,
            },
    {
        proof {
            self.view_parts();
        }
        let ghost whole = run_from(
            self@,
            s@,
            0,
            0,
            0,
            seen_view(seen@),
            acc_view(acc@),
        );
        let slen = s.len();
        let n_segs = self.segments.len();
        let mut i: usize = 0;
        let mut cur: usize = 0;
        let mut anchor: usize = 0;
        while i < n_segs
            invariant
                segs_ok(self@),
                phs_ok(self@),
                whole == run_from(
                    self@,
                    s@,
                    0,
                    0,
                    0,
                    seen_view(old(seen)@),
                    acc_view(old(acc)@),
                ),
                n_segs == self@.segments.len(),
                slen == s@.len(),
                i <= n_segs,
                anchor <= cur <= slen,
                seen@.len() == self@.fields.len(),
                acc@.len() == self@.fields.len(),
                forall|m: int|
                    0 <= m < self@.fields.len() ==> ((#[trigger] seen@[m]) is Some <==> acc@[m]
                        is Some),
                whole == run_from(
                    self@,
                    s@,
                    i as int,
                    cur as int,
                    anchor as int,
                    seen_view(seen@),
                    acc_view(acc@),
                ),
            decreases n_segs - i,
        {
            match self.scan_step_exec(s, i, cur, anchor, seen, acc) {
                Err(e) => {
                    return Err(e);
                },
                Ok(t) => {
                    cur = t.0;
                    anchor = t.1;
                    i = i + 1;
                },
            }
        }
        proof {
            reveal(crate::matcher::run_from);
        }
        if cur == slen {
            Ok(())
        } else {
            Err(TemplateError::Parse(String::from_str("unexpected trailing characters")))
        }
    }

    /// Parses an input string against the compiled template (executable
    /// form of `parse_spec`): one left-to-right scan, fail-fast on the
    /// first error, and a complete record — unused fields filled with
    /// absent or default values — on success.
    #[verifier::rlimit(60)]
    pub fn parse(&self, input: &str) -> (r: Result<Record, TemplateError>)
        ensures
            match (r, parse_spec(self@, input@)) {
                (Ok(rec), Ok(b)) => rec@ == b,
                (Err(e), Err(ev)) => e@ == ev,
                _ => false,
            },
    {
        proof {
            use_type_invariant(&*self);
            self.view_parts();
            assert(segs_ok(self@) && phs_ok(self@) && fields_ok(self@));
        }
        let s = chars_of(input);
        let n = self.fields.len();
        let mut seen: Vec<Option<Vec<char>>> = Vec::new();
        let mut acc: Vec<Option<FieldValue>> = Vec::new();
        let mut j: usize = 0;
        while j < n
            invariant
                j <= n,
                n == self@.fields.len(),
                seen@.len() == j,
                acc@.len() == j,
                forall|m: int| 0 <= m < j ==> (#[trigger] seen@[m]) is None,
                forall|m: int| 0 <= m < j ==> (#[trigger] acc@[m]) is None,
            decreases n - j,
        {
            seen.push(None);
            acc.push(None);
            j = j + 1;
        }
        proof {
            assert(seen_view(seen@) =~= Seq::new(
                self@.fields.len(),
                |i: int| None::<Seq<char>>,
            ));
            assert(acc_view(acc@) =~= Seq::new(self@.fields.len(), |i: int| None::<ValueV>));
        }
        match self.run_exec(&s, &mut seen, &mut acc) {
            Err(e) => Err(e),
            Ok(()) => {
                let mut rec = Record::new();
                let mut fi: usize = 0;
                let ghost accv = acc_view(acc@);
                proof {
                    assert(rec@ =~= finish_spec(self@, accv).subrange(0, 0));
                }
                while fi < self.fields.len()
                    invariant
                        fi <= self@.fields.len(),
                        fields_ok(self@),
                        self@.fields == crate::fields::slots_view(self.fields@),
                        acc@.len() == self@.fields.len(),
                        accv == acc_view(acc@),
                        rec@ == finish_spec(self@, accv).subrange(0, fi as int),
                    decreases self@.fields.len() - fi,
                {
                    proof {
                        assert(self@.fields[fi as int].kind == self.fields@[fi as int].kind@);
                        assert(self@.fields[fi as int].name == self.fields@[fi as int].name@);
                        assert(kind_supported(self@.fields[fi as int].kind));
                    }
                    let value = match &acc[fi] {
                        Some(v) => v.clone_field_value(),
                        None => value_default_exec(&self.fields[fi].kind),
                    };
                    let name = self.fields[fi].name.clone();
                    rec.push(name, value);
                    fi = fi + 1;
                    proof {
                        assert(rec@ =~= finish_spec(self@, accv).subrange(0, fi as int));
                    }
                }
                proof {
                    assert(finish_spec(self@, accv).subrange(
                        0,
                        self@.fields.len() as int,
                    ) =~= finish_spec(self@, accv));
                }
                Ok(rec)
            },
        }
    }
}

impl FieldKind {
    /// A copy of the kind with the same view.
    pub fn clone_kind(&self) -> (out: FieldKind)
        ensures
            out@ == self@,
    {
        match self {
            FieldKind::Primitive(s) => FieldKind::Primitive(*s),
            FieldKind::Optional(s) => FieldKind::Optional(*s),
            FieldKind::Sequence(s) => FieldKind::Sequence(*s),
            FieldKind::SetOf(s) => FieldKind::SetOf(*s),
            FieldKind::OrderedSetOf(s) => FieldKind::OrderedSetOf(*s),
            FieldKind::Mapping(a, b) => FieldKind::Mapping(a.clone(), b.clone()),
            FieldKind::OrderedMapping(a, b) => FieldKind::OrderedMapping(a.clone(), b.clone()),
            FieldKind::ResultKind(a, b) => FieldKind::ResultKind(a.clone(), b.clone()),
            FieldKind::TupleKind => FieldKind::TupleKind,
            FieldKind::Unknown(n) => FieldKind::Unknown(n.clone()),
        }
    }
}

impl FieldValue {
    /// A copy of the value with the same view.
    pub fn clone_field_value(&self) -> (out: FieldValue)
        ensures
            out@ == self@,
    {
        match self {
            FieldValue::Primitive(x) => FieldValue::Primitive(x.clone_value()),
            FieldValue::Optional(o) => FieldValue::Optional(
                match o {
                    Some(x) => Some(x.clone_value()),
                    None => None,
                },
            ),
            FieldValue::Sequence(xs) => FieldValue::Sequence(clone_scalars(xs)),
            FieldValue::SetOf(xs) => FieldValue::SetOf(clone_scalars(xs)),
            FieldValue::OrderedSetOf(xs) => FieldValue::OrderedSetOf(clone_scalars(xs)),
        }
    }
}

/// A copy of a scalar vector with the same views.
fn clone_scalars(xs: &Vec<ScalarValue>) -> (out: Vec<ScalarValue>)
    ensures
        scalars_view(out@) == scalars_view(xs@),
{
    let mut out: Vec<ScalarValue> = Vec::new();
    let mut k: usize = 0;
    while k < xs.len()
        invariant
            k <= xs@.len(),
            out@.len() == k,
            forall|m: int| 0 <= m < k ==> (#[trigger] out@[m])@ == xs@[m]@,
        decreases xs@.len() - k,
    {
        out.push(xs[k].clone_value());
        k = k + 1;
    }
    proof {
        assert(scalars_view(out@) =~= scalars_view(xs@));
    }
    out
}

/// Round trip at the level of one captured value, for the scalar-shaped
/// kinds: converting the canonical rendering of a well-typed primitive or
/// optional value yields the value back. The two documented optional-string
/// asymmetries are the only exceptions and are left out: an absent string
/// when an empty capture is not read as absent (it would come back as a
/// present empty string), and a present empty string when it is (it would
/// come back absent).
pub proof fn lemma_convert_render_round_trip(k: KindV, v: ValueV, empty_absent: bool)
    requires
        k is Primitive || k is Optional,
        crate::value::value_well_typed(v, k),
        (k is Optional && v == ValueV::Optional(None::<ScalarV>) && !empty_absent) ==> k
            ->Optional_0 != ScalarType::Str,
        (k is Optional && v == ValueV::Optional(
            Some(ScalarV::Txt(Seq::<char>::empty())),
        )) ==> !empty_absent,
    ensures
        convert_spec(k, value_render(v), empty_absent) == Some(v),
{
    match (k, v) {
        (KindV::Primitive(sc), ValueV::Primitive(x)) => {
            crate::scalar::lemma_scalar_round_trip(sc, x);
        },
        (KindV::Optional(sc), ValueV::Optional(o)) => {
            match o {
                None => {
                    assert(value_render(v).len() == 0);
                },
                Some(x) => {
                    crate::scalar::lemma_scalar_round_trip(sc, x);
                    if crate::scalar::scalar_render(x).len() == 0 {
                        crate::scalar::lemma_scalar_render_empty(x);
                        assert(x is Txt);
                        assert(x->Txt_0 =~= Seq::<char>::empty());
                    }
                },
            }
        },
        _ => {},
    }
}

} // verus!
