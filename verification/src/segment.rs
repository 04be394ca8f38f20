//! The segmenter: splits a template string into literal text and named
//! placeholders. `{{` and `}}` are escapes for literal braces; `{name}` is a
//! placeholder whose name is trimmed. A bracketed group `[...]` holding
//! exactly one placeholder is recognised as a reserved construct and carried
//! through as a segment of its own; nothing downstream gives it meaning.

use vstd::prelude::*;
use crate::chars::{
    chars_of, find_ch, find_char, find_either, find_either_char, lemma_find_ch_first,
    lemma_find_either_first, string_of, subvec, trim_range, trim_spec,
};

verus! {

broadcast use vstd::std_specs::vec::group_vec_axioms, vstd::seq::group_seq_axioms;

/// One segment of a template: fixed text, a named placeholder, or a reserved
/// bracketed group holding its sub-segments and its single placeholder name.
#[derive(Debug)]
pub enum TemplateSegments {
    Literal(String),
    Placeholder(String),
    GroupBox { segments: Vec<TemplateSegments>, placeholder: String },
}

/// The mathematical form of a segment.
pub enum SegV {
    Literal(Seq<char>),
    Placeholder(Seq<char>),
    GroupBox { segments: Seq<SegV>, placeholder: Seq<char> },
}

/// The view of a segment that stands inside a group. The brace grammar that
/// fills a group emits only literals and placeholders, so this shallow view
/// is exact for every group the segmenter builds.
pub open spec fn member_view(s: TemplateSegments) -> SegV {
    match s {
        TemplateSegments::Literal(x) => SegV::Literal(x@),
        TemplateSegments::Placeholder(x) => SegV::Placeholder(x@),
        TemplateSegments::GroupBox { .. } => SegV::Literal(Seq::empty()),
    }
}

impl View for TemplateSegments {
    type V = SegV;

    open spec fn view(&self) -> SegV {
        match self {
            TemplateSegments::Literal(s) => SegV::Literal(s@),
            TemplateSegments::Placeholder(s) => SegV::Placeholder(s@),
            TemplateSegments::GroupBox { segments, placeholder } => SegV::GroupBox {
                segments: Seq::new(segments@.len(), |i: int| member_view(segments@[i])),
                placeholder: placeholder@,
            },
        }
    }
}

/// The views of a sequence of segments.
pub open spec fn views_of(s: Seq<TemplateSegments>) -> Seq<SegV> {
    Seq::new(s.len(), |i: int| s[i]@)
}

// ---------------------------------------------------------------------------
// Error messages
// ---------------------------------------------------------------------------

pub open spec fn msg_unmatched_open() -> Seq<char> {
    "Unmatched opening brace '{'"@
}

pub open spec fn msg_unmatched_close() -> Seq<char> {
    "Unmatched closing brace '}'"@
}

pub open spec fn msg_nested(p: Seq<char>) -> Seq<char> {
    "Nested braces are not supported: "@ + p
}

pub open spec fn msg_unmatched_bracket() -> Seq<char> {
    "Unmatched opening bracket '['"@
}

pub open spec fn msg_group_many(g: Seq<char>) -> Seq<char> {
    "Group box can only contain one placeholder: "@ + g
}

pub open spec fn msg_group_none(g: Seq<char>) -> Seq<char> {
    "Group box must contain at least one placeholder: "@ + g
}

// ---------------------------------------------------------------------------
// Brace-level segmentation
// ---------------------------------------------------------------------------

/// The segments of template text `t` under the brace grammar: text up to the
/// next special character is literal; `{{` and `}}` emit a literal ending in
/// the escaped brace; `{name}` emits a placeholder with `name` trimmed; a
/// lone `{` with no closing brace, a placeholder holding another `{`, and a
/// lone `}` are errors.
pub open spec fn seg_base(t: Seq<char>) -> Result<Seq<SegV>, Seq<char>>
    decreases t.len(),
    via seg_base_decreases
{
    match find_either(t, '{', '}', 0) {
        None => if t.len() == 0 {
            Ok(Seq::empty())
        } else {
            Ok(seq![SegV::Literal(t)])
        },
        Some(i) => if t[i] == '{' {
            if i + 1 < t.len() && t[i + 1] == '{' {
                match seg_base(t.subrange(i + 2, t.len() as int)) {
                    Ok(rest) => Ok(seq![SegV::Literal(t.subrange(0, i + 1))] + rest),
                    Err(m) => Err(m),
                }
            } else {
                match find_ch(t, '}', i + 1) {
                    None => Err(msg_unmatched_open()),
                    Some(e) => {
                        let p = t.subrange(i + 1, e);
                        if find_ch(p, '{', 0) is Some {
                            Err(msg_nested(p))
                        } else {
                            match seg_base(t.subrange(e + 1, t.len() as int)) {
                                Ok(rest) => {
                                    let ph = seq![SegV::Placeholder(trim_spec(p))];
                                    if i > 0 {
                                        Ok(seq![SegV::Literal(t.subrange(0, i))] + ph + rest)
                                    } else {
                                        Ok(ph + rest)
                                    }
                                },
                                Err(m) => Err(m),
                            }
                        }
                    },
                }
            }
        } else {
            // t[i] == '}'
            if i + 1 < t.len() && t[i + 1] == '}' {
                match seg_base(t.subrange(i + 2, t.len() as int)) {
                    Ok(rest) => Ok(seq![SegV::Literal(t.subrange(0, i + 1))] + rest),
                    Err(m) => Err(m),
                }
            } else {
                Err(msg_unmatched_close())
            }
        },
    }
}

#[via_fn]
proof fn seg_base_decreases(t: Seq<char>) {
    lemma_find_either_first(t, '{', '}', 0);
    match find_either(t, '{', '}', 0) {
        Some(i) => {
            lemma_find_ch_first(t, '}', i + 1);
        },
        None => {},
    }
}

/// In brace-level output every segment is a literal or a placeholder, and no
/// literal is empty.
pub proof fn lemma_seg_base_shape(t: Seq<char>)
    ensures
        match seg_base(t) {
            Ok(s) => forall|i: int|
                0 <= i < s.len() ==> ((#[trigger] s[i]) is Literal || s[i] is Placeholder) && (
                s[i] is Literal ==> s[i]->Literal_0.len() > 0),
            Err(_) => true,
        },
    decreases t.len(),
{
    lemma_find_either_first(t, '{', '}', 0);
    match find_either(t, '{', '}', 0) {
        None => {},
        Some(i) => {
            if t[i] == '{' {
                if i + 1 < t.len() && t[i + 1] == '{' {
                    lemma_seg_base_shape(t.subrange(i + 2, t.len() as int));
                } else {
                    lemma_find_ch_first(t, '}', i + 1);
                    match find_ch(t, '}', i + 1) {
                        None => {},
                        Some(e) => {
                            lemma_seg_base_shape(t.subrange(e + 1, t.len() as int));
                        },
                    }
                }
            } else {
                if i + 1 < t.len() && t[i + 1] == '}' {
                    lemma_seg_base_shape(t.subrange(i + 2, t.len() as int));
                }
            }
        },
    }
}

/// Splits template text into segments under the brace grammar (executable
/// form of `seg_base`). Errors carry the offending construct in the message.
pub fn parse_template_base(template: &str) -> (r: Result<Vec<TemplateSegments>, String>)
    ensures
        match (r, seg_base(template@)) {
            (Ok(out), Ok(s)) => views_of(out@) == s,
            (Err(m), Err(em)) => m@ == em,
            _ => false,
        },
{
    let v = chars_of(template);
    seg_base_exec(&v)
}

fn seg_base_exec(v: &Vec<char>) -> (r: Result<Vec<TemplateSegments>, String>)
    ensures
        match (r, seg_base(v@)) {
            (Ok(out), Ok(s)) => views_of(out@) == s,
            (Err(m), Err(em)) => m@ == em,
            _ => false,
        },
    decreases v@.len(),
{
    proof {
        lemma_find_either_first(v@, '{', '}', 0);
    }
    match find_either_char(v, '{', '}', 0) {
        None => {
            if v.len() == 0 {
                let out: Vec<TemplateSegments> = Vec::new();
                proof {
                    assert(views_of(out@) =~= Seq::<SegV>::empty());
                }
                Ok(out)
            } else {
                let all = subvec(v, 0, v.len());
                proof {
                    assert(all@ =~= v@);
                }
                let mut out: Vec<TemplateSegments> = Vec::new();
                out.push(TemplateSegments::Literal(string_of(&all)));
                proof {
                    assert(views_of(out@) =~= seq![SegV::Literal(v@)]);
                }
                Ok(out)
            }
        },
        Some(i) => {
            let n = v.len();
            if v[i] == '{' {
                if i + 1 < n && v[i + 1] == '{' {
                    let lit = subvec(v, 0, i + 1);
                    let tail = subvec(v, i + 2, v.len());
                    match seg_base_exec(&tail) {
                        Ok(mut rest) => {
                            let mut out: Vec<TemplateSegments> = Vec::new();
                            out.push(TemplateSegments::Literal(string_of(&lit)));
                            let ghost rest0 = rest@;
                            out.append(&mut rest);
                            proof {
                                let s = seg_base(v@)->Ok_0;
                                assert(views_of(out@) =~= s) by {
                                    assert(s == seq![SegV::Literal(v@.subrange(0, i + 1))]
                                        + seg_base(tail@)->Ok_0);
                                    assert(views_of(rest0) == seg_base(tail@)->Ok_0);
                                    assert(forall|m: int|
                                        0 <= m < rest0.len() ==> views_of(rest0)[m] == rest0[m]@);
                                }
                            }
                            Ok(out)
                        },
                        Err(m) => Err(m),
                    }
                } else {
                    proof {
                        lemma_find_ch_first(v@, '}', i + 1);
                    }
                    match find_char(v, '}', i + 1) {
                        None => Err(lit_string("Unmatched opening brace '{'")),
                        Some(e) => {
                            let p = subvec(v, i + 1, e);
                            match find_char(&p, '{', 0) {
                                Some(_) => {
                                    let mut m = lit_string("Nested braces are not supported: ");
                                    let ps = string_of(&p);
                                    m.append(ps.as_str());
                                    Err(m)
                                },
                                None => {
                                    let name = string_of(&trim_range(v, i + 1, e));
                                    let tail = subvec(v, e + 1, v.len());
                                    match seg_base_exec(&tail) {
                                        Ok(mut rest) => {
                                            let mut out: Vec<TemplateSegments> = Vec::new();
                                            if i > 0 {
                                                let pre = subvec(v, 0, i);
                                                out.push(
                                                    TemplateSegments::Literal(string_of(&pre)),
                                                );
                                            }
                                            out.push(TemplateSegments::Placeholder(name));
                                            let ghost head = out@;
                                            let ghost rest0 = rest@;
                                            out.append(&mut rest);
                                            proof {
                                                let s = seg_base(v@)->Ok_0;
                                                assert(views_of(out@) =~= s) by {
                                                    assert(views_of(rest0) == seg_base(
                                                        tail@,
                                                    )->Ok_0);
                                                    assert(forall|m: int|
                                                        0 <= m < rest0.len() ==> views_of(rest0)[m]
                                                            == rest0[m]@);
                                                }
                                            }
                                            Ok(out)
                                        },
                                        Err(m) => Err(m),
                                    }
                                },
                            }
                        },
                    }
                }
            } else {
                if i + 1 < n && v[i + 1] == '}' {
                    let lit = subvec(v, 0, i + 1);
                    let tail = subvec(v, i + 2, v.len());
                    match seg_base_exec(&tail) {
                        Ok(mut rest) => {
                            let mut out: Vec<TemplateSegments> = Vec::new();
                            out.push(TemplateSegments::Literal(string_of(&lit)));
                            let ghost rest0 = rest@;
                            out.append(&mut rest);
                            proof {
                                let s = seg_base(v@)->Ok_0;
                                assert(views_of(out@) =~= s) by {
                                    assert(views_of(rest0) == seg_base(tail@)->Ok_0);
                                    assert(forall|m: int|
                                        0 <= m < rest0.len() ==> views_of(rest0)[m] == rest0[m]@);
                                }
                            }
                            Ok(out)
                        },
                        Err(m) => Err(m),
                    }
                } else {
                    Err(lit_string("Unmatched closing brace '}'"))
                }
            }
        },
    }
}

/// An owned copy of a string literal.
fn lit_string(s: &str) -> (out: String)
    ensures
        out@ == s@,
{
    String::from_str(s)
}

// ---------------------------------------------------------------------------
// Bracket-level segmentation (reserved group construct)
// ---------------------------------------------------------------------------

/// The names of the placeholders among `s`, in order.
pub open spec fn ph_names(s: Seq<SegV>) -> Seq<Seq<char>>
    decreases s.len(),
{
    if s.len() == 0 {
        Seq::empty()
    } else {
        (match s[0] {
            SegV::Placeholder(n) => seq![n],
            _ => Seq::empty(),
        }) + ph_names(s.drop_first())
    }
}

proof fn lemma_ph_names_push(s: Seq<SegV>, x: SegV)
    ensures
        ph_names(s.push(x)) == ph_names(s) + (match x {
            SegV::Placeholder(n) => seq![n],
            _ => Seq::<Seq<char>>::empty(),
        }),
    decreases s.len(),
{
    let tail = match x {
        SegV::Placeholder(n) => seq![n],
        _ => Seq::<Seq<char>>::empty(),
    };
    if s.len() == 0 {
        assert(s.push(x)[0] == x);
        assert(s.push(x).drop_first() =~= Seq::<SegV>::empty());
        assert(ph_names(Seq::<SegV>::empty()) == Seq::<Seq<char>>::empty());
        assert(ph_names(s) == Seq::<Seq<char>>::empty());
        assert(ph_names(s.push(x)) == (match x {
            SegV::Placeholder(n) => seq![n],
            _ => Seq::<Seq<char>>::empty(),
        }) + Seq::<Seq<char>>::empty());
        assert(ph_names(s.push(x)) =~= ph_names(s) + tail);
    } else {
        lemma_ph_names_push(s.drop_first(), x);
        assert(s.push(x)[0] == s[0]);
        assert(s.push(x).drop_first() =~= s.drop_first().push(x));
        assert(ph_names(s.push(x)) == (match s[0] {
            SegV::Placeholder(n) => seq![n],
            _ => Seq::<Seq<char>>::empty(),
        }) + ph_names(s.drop_first().push(x)));
        assert(ph_names(s.push(x)) =~= ph_names(s) + tail);
    }
}

/// The segments of template text `t` scanned from position `i` with pending
/// literal text starting at `last_end`, under the bracket-aware scan: `[[`
/// and `]]` flush the pending text (escaped-bracket style), a `[` opens a
/// group whose text is segmented under the brace grammar and must hold
/// exactly one placeholder, and whatever text is still pending at the end of
/// the scan is segmented under the brace grammar. Opening a group leaves the
/// pending-text mark where it was, so text around a group is emitted again
/// by later flushes; the construct is reserved and nothing downstream gives
/// it meaning.
pub open spec fn seg_brackets(t: Seq<char>, i: int, last_end: int) -> Result<
    Seq<SegV>,
    Seq<char>,
>
    decreases t.len() + 2 - i,
{
    if i < 0 || i >= t.len() {
        if 0 <= last_end < t.len() {
            seg_base(t.subrange(last_end, t.len() as int))
        } else {
            Ok(Seq::empty())
        }
    } else if t[i] == '[' {
        if i + 1 < t.len() && t[i + 1] == '[' {
            if i + 1 > last_end {
                match seg_base(t.subrange(last_end, i + 1)) {
                    Ok(s1) => match seg_brackets(t, i + 2, i + 2) {
                        Ok(rest) => Ok(s1 + rest),
                        Err(m) => Err(m),
                    },
                    Err(m) => Err(m),
                }
            } else {
                seg_brackets(t, i + 2, last_end)
            }
        } else {
            let pre = if i > last_end {
                seg_base(t.subrange(last_end, i))
            } else {
                Ok(Seq::empty())
            };
            match pre {
                Err(m) => Err(m),
                Ok(s1) => match find_ch(t, ']', i + 1) {
                    None => Err(msg_unmatched_bracket()),
                    Some(e) => {
                        let g = t.subrange(i + 1, e);
                        match seg_base(g) {
                            Err(m) => Err(m),
                            Ok(gs) => {
                                let phs = ph_names(gs);
                                if phs.len() > 1 {
                                    Err(msg_group_many(g))
                                } else if phs.len() == 0 {
                                    Err(msg_group_none(g))
                                } else {
                                    match seg_brackets(t, i + 1, last_end) {
                                        Ok(rest) => Ok(
                                            s1 + seq![
                                                SegV::GroupBox {
                                                    segments: gs,
                                                    placeholder: phs[0],
                                                },
                                            ] + rest,
                                        ),
                                        Err(m) => Err(m),
                                    }
                                }
                            },
                        }
                    },
                },
            }
        }
    } else if t[i] == ']' {
        if i + 1 < t.len() && t[i + 1] == ']' {
            if i + 1 > last_end {
                match seg_base(t.subrange(last_end, i + 1)) {
                    Ok(s1) => match seg_brackets(t, i + 2, i + 2) {
                        Ok(rest) => Ok(s1 + rest),
                        Err(m) => Err(m),
                    },
                    Err(m) => Err(m),
                }
            } else {
                seg_brackets(t, i + 2, last_end)
            }
        } else {
            seg_brackets(t, i + 1, last_end)
        }
    } else {
        seg_brackets(t, i + 1, last_end)
    }
}

/// The segments of a whole template: the bracket-aware scan when the text
/// holds a `[`, the plain brace grammar otherwise.
pub open spec fn seg_template(t: Seq<char>) -> Result<Seq<SegV>, Seq<char>> {
    if find_ch(t, '[', 0) is Some {
        seg_brackets(t, 0, 0)
    } else {
        seg_base(t)
    }
}

/// Splits a template into segments, recognising the reserved bracketed group
/// construct (executable form of `seg_template`).
pub fn parse_template(template: &str) -> (r: Result<Vec<TemplateSegments>, String>)
    ensures
        match (r, seg_template(template@)) {
            (Ok(out), Ok(s)) => views_of(out@) == s,
            (Err(m), Err(em)) => m@ == em,
            _ => false,
        },
{
    let v = chars_of(template);
    match find_char(&v, '[', 0) {
        Some(_) => seg_brackets_exec(&v, 0, 0),
        None => seg_base_exec(&v),
    }
}

fn seg_brackets_exec(v: &Vec<char>, i: usize, last_end: usize) -> (r: Result<
    Vec<TemplateSegments>,
    String,
>)
    requires
        last_end <= v@.len(),
    ensures
        match (r, seg_brackets(v@, i as int, last_end as int)) {
            (Ok(out), Ok(s)) => views_of(out@) == s,
            (Err(m), Err(em)) => m@ == em,
            _ => false,
        },
    decreases v@.len() + 2 - i,
{
    let n = v.len();
    if i >= n {
        if last_end < n {
            let tail = subvec(v, last_end, n);
            seg_base_exec(&tail)
        } else {
            let out: Vec<TemplateSegments> = Vec::new();
            proof {
                assert(views_of(out@) =~= Seq::<SegV>::empty());
            }
            Ok(out)
        }
    } else if v[i] == '[' {
        if i + 1 < n && v[i + 1] == '[' {
            if i + 1 > last_end {
                let pre = subvec(v, last_end, i + 1);
                match seg_base_exec(&pre) {
                    Ok(mut s1) => match seg_brackets_exec(v, i + 2, i + 2) {
                        Ok(mut rest) => {
                            let ghost s1v = s1@;
                            let ghost restv = rest@;
                            let mut out = s1;
                            out.append(&mut rest);
                            proof {
                                concat_views(out@, s1v, restv);
                            }
                            Ok(out)
                        },
                        Err(m) => Err(m),
                    },
                    Err(m) => Err(m),
                }
            } else {
                seg_brackets_exec(v, i + 2, last_end)
            }
        } else {
            let mut s1: Vec<TemplateSegments> = Vec::new();
            if i > last_end {
                let pre = subvec(v, last_end, i);
                match seg_base_exec(&pre) {
                    Ok(s) => {
                        s1 = s;
                    },
                    Err(m) => {
                        return Err(m);
                    },
                }
            } else {
                proof {
                    assert(views_of(s1@) =~= Seq::<SegV>::empty());
                }
            }
            proof {
                lemma_find_ch_first(v@, ']', i + 1);
            }
            match find_char(v, ']', i + 1) {
                None => Err(lit_string("Unmatched opening bracket '['")),
                Some(e) => {
                    let g = subvec(v, i + 1, e);
                    match seg_base_exec(&g) {
                        Err(m) => Err(m),
                        Ok(gs) => {
                            let ghost gsv = seg_base(g@)->Ok_0;
                            let (count, first) = count_placeholders(&gs);
                            if count > 1 {
                                let mut m = lit_string(
                                    "Group box can only contain one placeholder: ",
                                );
                                let gstr = string_of(&g);
                                m.append(gstr.as_str());
                                Err(m)
                            } else if count == 0 {
                                let mut m = lit_string(
                                    "Group box must contain at least one placeholder: ",
                                );
                                let gstr = string_of(&g);
                                m.append(gstr.as_str());
                                Err(m)
                            } else {
                                let name = match first {
                                    Some(name) => name,
                                    None => {
                                        proof {
                                            assert(false);
                                        }
                                        lit_string("")
                                    },
                                };
                                match seg_brackets_exec(v, i + 1, last_end) {
                                    Ok(mut rest) => {
                                        let ghost s1v = s1@;
                                        let ghost restv = rest@;
                                        let mut out = s1;
                                        let group = TemplateSegments::GroupBox {
                                            segments: gs,
                                            placeholder: name,
                                        };
                                        proof {
                                            lemma_seg_base_shape(g@);
                                            assert(group@ == SegV::GroupBox {
                                                segments: gsv,
                                                placeholder: ph_names(gsv)[0],
                                            }) by {
                                                let inner = match group {
                                                    TemplateSegments::GroupBox {
                                                        segments: gg,
                                                        ..
                                                    } => gg,
                                                    _ => arbitrary(),
                                                };
                                                assert(Seq::new(
                                                    inner@.len(),
                                                    |k: int| member_view(inner@[k]),
                                                ) =~= gsv) by {
                                                    assert forall|k: int|
                                                        0 <= k < inner@.len() implies member_view(
                                                        inner@[k],
                                                    ) == gsv[k] by {
                                                        assert(views_of(inner@)[k] == inner@[k]@);
                                                        assert(inner@[k]@ == gsv[k]);
                                                        match inner@[k] {
                                                            TemplateSegments::GroupBox {
                                                                ..
                                                            } => {
                                                                assert(gsv[k] is GroupBox);
                                                            },
                                                            _ => {},
                                                        }
                                                    }
                                                }
                                            }
                                        }
                                        out.push(group);
                                        let ghost midv = out@;
                                        out.append(&mut rest);
                                        proof {
                                            let s = seg_brackets(
                                                v@,
                                                i as int,
                                                last_end as int,
                                            )->Ok_0;
                                            assert(views_of(out@) =~= s) by {
                                                assert(forall|m: int|
                                                    0 <= m < restv.len() ==> views_of(restv)[m]
                                                        == restv[m]@);
                                                assert(forall|m: int|
                                                    0 <= m < s1v.len() ==> views_of(s1v)[m] == s1v[
                                                    m]@);
                                            }
                                        }
                                        Ok(out)
                                    },
                                    Err(m) => Err(m),
                                }
                            }
                        },
                    }
                },
            }
        }
    } else if v[i] == ']' {
        if i + 1 < n && v[i + 1] == ']' {
            if i + 1 > last_end {
                let pre = subvec(v, last_end, i + 1);
                match seg_base_exec(&pre) {
                    Ok(mut s1) => match seg_brackets_exec(v, i + 2, i + 2) {
                        Ok(mut rest) => {
                            let ghost s1v = s1@;
                            let ghost restv = rest@;
                            let mut out = s1;
                            out.append(&mut rest);
                            proof {
                                concat_views(out@, s1v, restv);
                            }
                            Ok(out)
                        },
                        Err(m) => Err(m),
                    },
                    Err(m) => Err(m),
                }
            } else {
                seg_brackets_exec(v, i + 2, last_end)
            }
        } else {
            seg_brackets_exec(v, i + 1, last_end)
        }
    } else {
        seg_brackets_exec(v, i + 1, last_end)
    }
}

/// Views of a concatenation, elementwise.
proof fn concat_views(whole: Seq<TemplateSegments>, a: Seq<TemplateSegments>, b: Seq<
    TemplateSegments,
>)
    requires
        whole == a + b,
    ensures
        views_of(whole) == views_of(a) + views_of(b),
{
    assert(views_of(whole) =~= views_of(a) + views_of(b)) by {
        assert(forall|m: int| 0 <= m < a.len() ==> views_of(a)[m] == a[m]@);
        assert(forall|m: int| 0 <= m < b.len() ==> views_of(b)[m] == b[m]@);
        assert(forall|m: int| 0 <= m < whole.len() ==> views_of(whole)[m] == whole[m]@);
        assert(forall|m: int| 0 <= m < a.len() ==> whole[m] == a[m]);
        assert(forall|m: int| 0 <= m < b.len() ==> whole[a.len() + m] == b[m]);
    }
}

/// Counts the placeholders among `gs` and hands back the first one's name.
fn count_placeholders(gs: &Vec<TemplateSegments>) -> (r: (usize, Option<String>))
    ensures
        r.0 == ph_names(views_of(gs@)).len() || (ph_names(views_of(gs@)).len() > usize::MAX
            && r.0 == usize::MAX),
        ph_names(views_of(gs@)).len() > 0 && r.0 > 0 ==> r.1 is Some && r.1->0@ == ph_names(
            views_of(gs@),
        )[0],
        r.0 == 0 ==> r.1 is None,
        r.0 > 0 ==> ph_names(views_of(gs@)).len() > 0,
{
    let mut count: usize = 0;
    let mut first: Option<String> = None;
    let mut k: usize = 0;
    while k < gs.len()
        invariant
            k <= gs@.len(),
            count <= k,
            count == ph_names(views_of(gs@).subrange(0, k as int)).len(),
            count > 0 ==> first is Some && first->0@ == ph_names(
                views_of(gs@).subrange(0, k as int),
            )[0],
            count == 0 ==> first is None,
        decreases gs@.len() - k,
    {
        let ghost pref = views_of(gs@).subrange(0, k as int);
        let ghost pref1 = views_of(gs@).subrange(0, k as int + 1);
        proof {
            assert(pref1 =~= pref.push(views_of(gs@)[k as int]));
            lemma_ph_names_push(pref, views_of(gs@)[k as int]);
        }
        match &gs[k] {
            TemplateSegments::Placeholder(name) => {
                proof {
                    assert(views_of(gs@)[k as int] == gs@[k as int]@);
                    assert(gs@[k as int]@ is Placeholder);
                }
                if count == 0 {
                    first = Some(name.clone());
                }
                count = count + 1;
            },
            _ => {
                proof {
                    assert(views_of(gs@)[k as int] == gs@[k as int]@);
                    assert(ph_names(pref1) =~= ph_names(pref));
                }
            },
        }
        k = k + 1;
    }
    proof {
        assert(views_of(gs@).subrange(0, gs@.len() as int) =~= views_of(gs@));
    }
    (count, first)
}

} // verus!
