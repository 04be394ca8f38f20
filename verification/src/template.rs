//! Compiling a template against a field set: classification of the fields,
//! segmentation of the template under the brace grammar, and the build-time
//! checks — every placeholder must name a field of a supported kind, no two
//! adjacent placeholders may both be of variable width, and (unless missing
//! placeholders are allowed) every field must appear in the template.

use vstd::prelude::*;
use crate::errors::{BuildError, BuildV};
use crate::fields::{
    classify, classify_exec, descs_view, distinct_names, find_field, fixed_width,
    fixed_width_exec, has_field, kind_display, kind_display_exec, kind_of, lemma_field_index,
    slots_view, FieldDescriptor, FieldSlot, FieldSlotV,
};
use crate::segment::{parse_template_base, seg_base, views_of, SegV, TemplateSegments};
use crate::value::{kind_supported, kind_supported_exec};

verus! {

/// What a compiled template is built from, besides the fields: the template
/// text and the two behaviour switches.
#[derive(Debug, Clone)]
pub struct Config {
    /// The template string.
    pub template: String,
    /// Whether fields may be absent from the template; absent optional
    /// fields then parse to absent, others to their type's default.
    pub allow_missing_placeholders: bool,
    /// Whether an empty capture for an optional string-like field means
    /// absent rather than the empty string.
    pub empty_string_means_absent: bool,
}

/// The mathematical form of a configuration.
pub struct ConfigV {
    pub template: Seq<char>,
    pub allow_missing_placeholders: bool,
    pub empty_string_means_absent: bool,
}

impl View for Config {
    type V = ConfigV;

    open spec fn view(&self) -> ConfigV {
        ConfigV {
            template: self.template@,
            allow_missing_placeholders: self.allow_missing_placeholders,
            empty_string_means_absent: self.empty_string_means_absent,
        }
    }
}

impl Config {
    /// A configuration with the default switches: missing placeholders
    /// refused, and an empty optional string capture read as absent.
    pub fn new(template: String) -> (out: Config)
        ensures
            out@.template == template@,
            !out@.allow_missing_placeholders,
            out@.empty_string_means_absent,
    {
        Config {
            template,
            allow_missing_placeholders: false,
            empty_string_means_absent: true,
        }
    }
}

/// A compiled template: the segments, the classified fields, and the
/// configuration switches, fixed once and reusable across parse and render
/// calls.
#[derive(Debug)]
pub struct CompiledTemplate {
    pub(crate) segments: Vec<TemplateSegments>,
    pub(crate) fields: Vec<FieldSlot>,
    pub(crate) allow_missing_placeholders: bool,
    pub(crate) empty_string_means_absent: bool,
}

/// The mathematical form of a compiled template.
pub struct CompiledV {
    pub segments: Seq<SegV>,
    pub fields: Seq<FieldSlotV>,
    pub allow_missing_placeholders: bool,
    pub empty_string_means_absent: bool,
}

impl View for CompiledTemplate {
    type V = CompiledV;

    closed spec fn view(&self) -> CompiledV {
        CompiledV {
            segments: views_of(self.segments@),
            fields: slots_view(self.fields@),
            allow_missing_placeholders: self.allow_missing_placeholders,
            empty_string_means_absent: self.empty_string_means_absent,
        }
    }
}

/// Whether a segment sequence uses the name as a placeholder.
pub open spec fn name_used(segs: Seq<SegV>, name: Seq<char>) -> bool {
    exists|i: int| 0 <= i < segs.len() && segs[i] == SegV::Placeholder(name)
}

/// Every segment is a literal or a placeholder (no group reaches a
/// compiled template).
pub open spec fn segs_ok(c: CompiledV) -> bool {
    forall|i: int|
        0 <= i < c.segments.len() ==> ((#[trigger] c.segments[i]) is Literal || c.segments[i]
            is Placeholder)
}

/// Every placeholder names a field whose kind the matcher supports.
pub open spec fn phs_ok(c: CompiledV) -> bool {
    forall|i: int|
        0 <= i < c.segments.len() && (#[trigger] c.segments[i]) is Placeholder ==> has_field(
            c.fields,
            c.segments[i]->Placeholder_0,
        ) && kind_supported(kind_of(c.fields, c.segments[i]->Placeholder_0))
}

/// Every field's kind is supported.
pub open spec fn fields_ok(c: CompiledV) -> bool {
    forall|j: int| 0 <= j < c.fields.len() ==> kind_supported((#[trigger] c.fields[j]).kind)
}

/// What compilation guarantees of a compiled template: every segment is a
/// nonempty literal or a placeholder; every placeholder names a distinct
/// field of a supported kind; a placeholder directly before another is
/// fixed-width; every field kind is supported; and, unless missing
/// placeholders are allowed, every field appears in the template.
pub open spec fn compiled_wf(c: CompiledV) -> bool {
    &&& segs_ok(c)
    &&& forall|i: int|
        0 <= i < c.segments.len() && (#[trigger] c.segments[i]) is Literal
            ==> c.segments[i]->Literal_0.len() > 0
    &&& phs_ok(c)
    &&& forall|i: int|
        0 <= i < c.segments.len() - 1 && (#[trigger] c.segments[i]) is Placeholder
            && c.segments[i + 1] is Placeholder ==> fixed_width(
            kind_of(c.fields, c.segments[i]->Placeholder_0),
        )
    &&& distinct_names(c.fields)
    &&& fields_ok(c)
    &&& !c.allow_missing_placeholders ==> forall|j: int|
        0 <= j < c.fields.len() ==> name_used(c.segments, (#[trigger] c.fields[j]).name)
}

// ---------------------------------------------------------------------------
// The build-time checks, in the order they are made
// ---------------------------------------------------------------------------

/// The classified registry of a descriptor list.
pub open spec fn slots_of(ds: Seq<crate::fields::FieldDescV>) -> Seq<FieldSlotV> {
    Seq::new(ds.len(), |i: int| FieldSlotV { name: ds[i].name, kind: classify(ds[i].ty) })
}

/// The first placeholder from `i` on that names no field.
pub open spec fn first_unknown_from(segs: Seq<SegV>, fs: Seq<FieldSlotV>, i: int) -> Option<
    Seq<char>,
>
    decreases segs.len() + 1 - i,
{
    if i < 0 || i >= segs.len() {
        None
    } else {
        match segs[i] {
            SegV::Placeholder(n) => if !has_field(fs, n) {
                Some(n)
            } else {
                first_unknown_from(segs, fs, i + 1)
            },
            _ => first_unknown_from(segs, fs, i + 1),
        }
    }
}

/// The first adjacent placeholder pair from `i` on whose first member is
/// not fixed-width.
pub open spec fn first_ambiguous_from(segs: Seq<SegV>, fs: Seq<FieldSlotV>, i: int) -> Option<
    (Seq<char>, Seq<char>),
>
    decreases segs.len() + 1 - i,
{
    if i < 0 || i + 1 >= segs.len() {
        None
    } else if segs[i] is Placeholder && segs[i + 1] is Placeholder && !fixed_width(
        kind_of(fs, segs[i]->Placeholder_0),
    ) {
        Some((segs[i]->Placeholder_0, segs[i + 1]->Placeholder_0))
    } else {
        first_ambiguous_from(segs, fs, i + 1)
    }
}

/// The first placeholder from `i` on whose field kind is unsupported.
pub open spec fn first_unsupported_from(segs: Seq<SegV>, fs: Seq<FieldSlotV>, i: int) -> Option<
    Seq<char>,
>
    decreases segs.len() + 1 - i,
{
    if i < 0 || i >= segs.len() {
        None
    } else {
        match segs[i] {
            SegV::Placeholder(n) => if !kind_supported(kind_of(fs, n)) {
                Some(n)
            } else {
                first_unsupported_from(segs, fs, i + 1)
            },
            _ => first_unsupported_from(segs, fs, i + 1),
        }
    }
}

/// The names of the fields from `j` on that the template never uses, in
/// declared order.
pub open spec fn missing_from(segs: Seq<SegV>, fs: Seq<FieldSlotV>, j: int) -> Seq<Seq<char>>
    decreases fs.len() + 1 - j,
{
    if j < 0 || j >= fs.len() {
        Seq::empty()
    } else if !name_used(segs, fs[j].name) {
        seq![fs[j].name] + missing_from(segs, fs, j + 1)
    } else {
        missing_from(segs, fs, j + 1)
    }
}

/// The first field from `j` on whose kind is unsupported.
pub open spec fn first_bad_field_from(fs: Seq<FieldSlotV>, j: int) -> Option<Seq<char>>
    decreases fs.len() + 1 - j,
{
    if j < 0 || j >= fs.len() {
        None
    } else if !kind_supported(fs[j].kind) {
        Some(fs[j].name)
    } else {
        first_bad_field_from(fs, j + 1)
    }
}

/// What compiling a descriptor list against a configuration yields: the
/// template segmented under the brace grammar, the classified registry, and
/// the first failed check's error — segmentation failure, an unknown
/// placeholder, an ambiguous adjacent pair, an unsupported placeholder
/// kind, missing fields (unless allowed), or an unsupported field kind left
/// to defaulting.
pub open spec fn compile_spec(ds: Seq<crate::fields::FieldDescV>, cfg: ConfigV) -> Result<
    CompiledV,
    BuildV,
> {
    match seg_base(cfg.template) {
        Err(m) => Err(BuildV::Template(m)),
        Ok(segs) => {
            let fs = slots_of(ds);
            match first_unknown_from(segs, fs, 0) {
                Some(n) => Err(BuildV::UnknownPlaceholder { name: n }),
                None => match first_ambiguous_from(segs, fs, 0) {
                    Some(pair) => Err(
                        BuildV::ConsecutivePlaceholdersAmbiguous {
                            first: pair.0,
                            second: pair.1,
                            first_kind: kind_display(kind_of(fs, pair.0)),
                        },
                    ),
                    None => match first_unsupported_from(segs, fs, 0) {
                        Some(n) => Err(
                            BuildV::UnsupportedFieldKind {
                                name: n,
                                kind_name: kind_display(kind_of(fs, n)),
                            },
                        ),
                        None => {
                            let miss = missing_from(segs, fs, 0);
                            if !cfg.allow_missing_placeholders && miss.len() > 0 {
                                Err(BuildV::MissingPlaceholders { names: miss })
                            } else {
                                match first_bad_field_from(fs, 0) {
                                    Some(n) => Err(
                                        BuildV::UnsupportedFieldKind {
                                            name: n,
                                            kind_name: kind_display(kind_of(fs, n)),
                                        },
                                    ),
                                    None => Ok(
                                        CompiledV {
                                            segments: segs,
                                            fields: fs,
                                            allow_missing_placeholders:
                                                cfg.allow_missing_placeholders,
                                            empty_string_means_absent:
                                                cfg.empty_string_means_absent,
                                        },
                                    ),
                                }
                            }
                        },
                    },
                },
            }
        },
    }
}

// ---------------------------------------------------------------------------
// A passed check covers every position
// ---------------------------------------------------------------------------

proof fn lemma_first_unknown_none(segs: Seq<SegV>, fs: Seq<FieldSlotV>, i: int)
    requires
        0 <= i,
        first_unknown_from(segs, fs, i) is None,
    ensures
        forall|k: int|
            i <= k < segs.len() && (#[trigger] segs[k]) is Placeholder ==> has_field(
                fs,
                segs[k]->Placeholder_0,
            ),
    decreases segs.len() + 1 - i,
{
    if i < segs.len() {
        lemma_first_unknown_none(segs, fs, i + 1);
    }
}

proof fn lemma_first_ambiguous_none(segs: Seq<SegV>, fs: Seq<FieldSlotV>, i: int)
    requires
        0 <= i,
        first_ambiguous_from(segs, fs, i) is None,
    ensures
        forall|k: int|
            i <= k < segs.len() - 1 && (#[trigger] segs[k]) is Placeholder && segs[k + 1]
                is Placeholder ==> fixed_width(kind_of(fs, segs[k]->Placeholder_0)),
    decreases segs.len() + 1 - i,
{
    if i + 1 < segs.len() {
        lemma_first_ambiguous_none(segs, fs, i + 1);
    }
}

proof fn lemma_first_unsupported_none(segs: Seq<SegV>, fs: Seq<FieldSlotV>, i: int)
    requires
        0 <= i,
        first_unsupported_from(segs, fs, i) is None,
    ensures
        forall|k: int|
            i <= k < segs.len() && (#[trigger] segs[k]) is Placeholder ==> kind_supported(
                kind_of(fs, segs[k]->Placeholder_0),
            ),
    decreases segs.len() + 1 - i,
{
    if i < segs.len() {
        lemma_first_unsupported_none(segs, fs, i + 1);
    }
}

proof fn lemma_missing_empty(segs: Seq<SegV>, fs: Seq<FieldSlotV>, j: int)
    requires
        0 <= j,
        missing_from(segs, fs, j).len() == 0,
    ensures
        forall|k: int| j <= k < fs.len() ==> name_used(segs, (#[trigger] fs[k]).name),
    decreases fs.len() + 1 - j,
{
    if j < fs.len() {
        lemma_missing_empty(segs, fs, j + 1);
    }
}

proof fn lemma_first_bad_field_none(fs: Seq<FieldSlotV>, j: int)
    requires
        0 <= j,
        first_bad_field_from(fs, j) is None,
    ensures
        forall|k: int| j <= k < fs.len() ==> kind_supported((#[trigger] fs[k]).kind),
    decreases fs.len() + 1 - j,
{
    if j < fs.len() {
        lemma_first_bad_field_none(fs, j + 1);
    }
}

/// A successful compilation yields a well-formed compiled template.
pub proof fn lemma_compile_wf(ds: Seq<crate::fields::FieldDescV>, cfg: ConfigV)
    requires
        distinct_names(slots_of(ds)),
        compile_spec(ds, cfg) is Ok,
    ensures
        compiled_wf(compile_spec(ds, cfg)->Ok_0),
{
    let segs = seg_base(cfg.template)->Ok_0;
    let fs = slots_of(ds);
    crate::segment::lemma_seg_base_shape(cfg.template);
    lemma_first_unknown_none(segs, fs, 0);
    lemma_first_ambiguous_none(segs, fs, 0);
    lemma_first_unsupported_none(segs, fs, 0);
    lemma_first_bad_field_none(fs, 0);
    if !cfg.allow_missing_placeholders {
        lemma_missing_empty(segs, fs, 0);
    }
}

// ---------------------------------------------------------------------------
// Executable compilation
// ---------------------------------------------------------------------------

/// Whether a name is used as a placeholder (executable form of
/// `name_used`).
fn name_used_exec(segs: &Vec<TemplateSegments>, name: &String) -> (r: bool)
    ensures
        r == name_used(views_of(segs@), name@),
{
    let ghost sv = views_of(segs@);
    let mut k: usize = 0;
    while k < segs.len()
        invariant
            k <= segs@.len(),
            sv == views_of(segs@),
            forall|m: int| 0 <= m < k ==> sv[m] != SegV::Placeholder(name@),
        decreases segs@.len() - k,
    {
        match &segs[k] {
            TemplateSegments::Placeholder(n) => {
                if n.eq(name) {
                    proof {
                        assert(sv[k as int] == SegV::Placeholder(name@));
                    }
                    return true;
                }
                proof {
                    assert(sv[k as int] == segs@[k as int]@);
                    assert(sv[k as int] != SegV::Placeholder(name@));
                }
            },
            _ => {
                proof {
                    assert(sv[k as int] == segs@[k as int]@);
                    assert(sv[k as int] != SegV::Placeholder(name@));
                }
            },
        }
        k = k + 1;
    }
    proof {
        if name_used(sv, name@) {
            let i = choose|i: int| 0 <= i < sv.len() && sv[i] == SegV::Placeholder(name@);
            assert(sv[i] != SegV::Placeholder(name@));
        }
    }
    false
}

fn first_unknown_exec(segs: &Vec<TemplateSegments>, fs: &Vec<FieldSlot>, i: usize) -> (r: Option<
    String,
>)
    ensures
        match r {
            Some(n) => first_unknown_from(views_of(segs@), slots_view(fs@), i as int) == Some(n@),
            None => first_unknown_from(views_of(segs@), slots_view(fs@), i as int) is None,
        },
    decreases segs@.len() - i,
{
    if i >= segs.len() {
        None
    } else {
        match &segs[i] {
            TemplateSegments::Placeholder(n) => {
                proof {
                    assert(views_of(segs@)[i as int] == SegV::Placeholder(n@));
                }
                match find_field(fs, n) {
                    Some(_) => first_unknown_exec(segs, fs, i + 1),
                    None => Some(n.clone()),
                }
            },
            _ => {
                proof {
                    assert(views_of(segs@)[i as int] == segs@[i as int]@);
                    assert(!(views_of(segs@)[i as int] is Placeholder));
                }
                first_unknown_exec(segs, fs, i + 1)
            },
        }
    }
}

fn first_ambiguous_exec(segs: &Vec<TemplateSegments>, fs: &Vec<FieldSlot>, i: usize) -> (r:
    Option<(String, String)>)
    requires
        first_unknown_from(views_of(segs@), slots_view(fs@), 0) is None,
    ensures
        match r {
            Some(pair) => first_ambiguous_from(views_of(segs@), slots_view(fs@), i as int)
                == Some((pair.0@, pair.1@)),
            None => first_ambiguous_from(views_of(segs@), slots_view(fs@), i as int) is None,
        },
    decreases segs@.len() - i,
{
    let ghost sv = views_of(segs@);
    let ghost fv = slots_view(fs@);
    let n_segs = segs.len();
    if i >= n_segs {
        None
    } else if i + 1 >= n_segs {
        None
    } else {
        let both = match (&segs[i], &segs[i + 1]) {
            (TemplateSegments::Placeholder(_), TemplateSegments::Placeholder(_)) => true,
            _ => false,
        };
        proof {
            assert(sv[i as int] == segs@[i as int]@);
            assert(sv[i as int + 1] == segs@[i as int + 1]@);
        }
        if both {
            let a = match &segs[i] {
                TemplateSegments::Placeholder(n) => n.clone(),
                _ => String::new(),
            };
            let b = match &segs[i + 1] {
                TemplateSegments::Placeholder(n) => n.clone(),
                _ => String::new(),
            };
            proof {
                assert(sv[i as int] == SegV::Placeholder(a@));
                assert(sv[i as int + 1] == SegV::Placeholder(b@));
                lemma_first_unknown_none(sv, fv, 0);
                lemma_field_index(fv, a@);
            }
            match find_field(fs, &a) {
                Some(fi) => {
                    proof {
                        lemma_field_index(fv, a@);
                        assert(fi < fs@.len());
                        assert(fv[fi as int].kind == kind_of(fv, a@));
                        assert(fv[fi as int].kind == fs@[fi as int].kind@);
                    }
                    if !fixed_width_exec(&fs[fi].kind) {
                        Some((a, b))
                    } else {
                        first_ambiguous_exec(segs, fs, i + 1)
                    }
                },
                None => {
                    proof {
                        assert(false);
                    }
                    None
                },
            }
        } else {
            first_ambiguous_exec(segs, fs, i + 1)
        }
    }
}

fn first_unsupported_exec(segs: &Vec<TemplateSegments>, fs: &Vec<FieldSlot>, i: usize) -> (r:
    Option<String>)
    requires
        first_unknown_from(views_of(segs@), slots_view(fs@), 0) is None,
    ensures
        match r {
            Some(n) => first_unsupported_from(views_of(segs@), slots_view(fs@), i as int)
                == Some(n@),
            None => first_unsupported_from(views_of(segs@), slots_view(fs@), i as int) is None,
        },
    decreases segs@.len() - i,
{
    let ghost sv = views_of(segs@);
    let ghost fv = slots_view(fs@);
    if i >= segs.len() {
        None
    } else {
        match &segs[i] {
            TemplateSegments::Placeholder(n) => {
                proof {
                    assert(sv[i as int] == SegV::Placeholder(n@));
                    lemma_first_unknown_none(sv, fv, 0);
                }
                match find_field(fs, n) {
                    Some(fi) => {
                        proof {
                            lemma_field_index(fv, n@);
                            assert(fi < fs@.len());
                            assert(fv[fi as int].kind == kind_of(fv, n@));
                            assert(fv[fi as int].kind == fs@[fi as int].kind@);
                        }
                        if !kind_supported_exec(&fs[fi].kind) {
                            Some(n.clone())
                        } else {
                            first_unsupported_exec(segs, fs, i + 1)
                        }
                    },
                    None => {
                        proof {
                            assert(false);
                        }
                        None
                    },
                }
            },
            _ => {
                proof {
                    assert(sv[i as int] == segs@[i as int]@);
                    assert(!(sv[i as int] is Placeholder));
                }
                first_unsupported_exec(segs, fs, i + 1)
            },
        }
    }
}

fn missing_exec(segs: &Vec<TemplateSegments>, fs: &Vec<FieldSlot>, j: usize) -> (r: Vec<String>)
    ensures
        Seq::new(r@.len(), |m: int| r@[m]@) == missing_from(
            views_of(segs@),
            slots_view(fs@),
            j as int,
        ),
    decreases fs@.len() - j,
{
    let ghost fv = slots_view(fs@);
    if j >= fs.len() {
        let r: Vec<String> = Vec::new();
        proof {
            assert(Seq::new(r@.len(), |m: int| r@[m]@) =~= missing_from(
                views_of(segs@),
                fv,
                j as int,
            ));
        }
        r
    } else {
        proof {
            assert(fv[j as int].name == fs@[j as int].name@);
        }
        let rest = missing_exec(segs, fs, j + 1);
        if !name_used_exec(segs, &fs[j].name) {
            let mut r: Vec<String> = Vec::new();
            r.push(fs[j].name.clone());
            let mut k: usize = 0;
            let ghost restv = rest@;
            while k < rest.len()
                invariant
                    k <= rest@.len(),
                    rest@ == restv,
                    r@.len() == k + 1,
                    r@[0]@ == fs@[j as int].name@,
                    forall|m: int| 0 <= m < k ==> r@[m + 1] == restv[m],
                decreases rest.len() - k,
            {
                r.push(rest[k].clone());
                k = k + 1;
            }
            proof {
                assert(Seq::new(r@.len(), |m: int| r@[m]@) =~= missing_from(
                    views_of(segs@),
                    fv,
                    j as int,
                )) by {
                    assert(Seq::new(restv.len(), |m: int| restv[m]@) == missing_from(
                        views_of(segs@),
                        fv,
                        j as int + 1,
                    ));
                    assert(forall|m: int|
                        0 <= m < restv.len() ==> Seq::new(restv.len(), |m2: int| restv[m2]@)[m]
                            == restv[m]@);
                }
            }
            r
        } else {
            rest
        }
    }
}

fn first_bad_field_exec(fs: &Vec<FieldSlot>, j: usize) -> (r: Option<String>)
    ensures
        match r {
            Some(n) => first_bad_field_from(slots_view(fs@), j as int) == Some(n@),
            None => first_bad_field_from(slots_view(fs@), j as int) is None,
        },
    decreases fs@.len() - j,
{
    let ghost fv = slots_view(fs@);
    if j >= fs.len() {
        None
    } else {
        proof {
            assert(fv[j as int].kind == fs@[j as int].kind@);
            assert(fv[j as int].name == fs@[j as int].name@);
        }
        if !kind_supported_exec(&fs[j].kind) {
            Some(fs[j].name.clone())
        } else {
            first_bad_field_exec(fs, j + 1)
        }
    }
}

impl CompiledTemplate {
    /// Compilation establishes well-formedness once; parsing and rendering
    /// rely on it.
    #[verifier::type_invariant]
    pub open spec fn wf(self) -> bool {
        compiled_wf(self.view())
    }

    /// How the view is put together from the stored parts; the matcher and
    /// renderer read the parts through this.
    pub(crate) proof fn view_parts(&self)
        ensures
            self@.segments == views_of(self.segments@),
            self@.fields == slots_view(self.fields@),
            self@.allow_missing_placeholders == self.allow_missing_placeholders,
            self@.empty_string_means_absent == self.empty_string_means_absent,
    {
    }

    /// Compiles a template against a list of field descriptors
    /// (executable form of `compile_spec`). The template is segmented under
    /// the brace grammar; the bracketed group construct that
    /// `parse_template` recognises is a reserved extension and takes no
    /// part here.
    pub fn compile(fields: Vec<FieldDescriptor>, config: Config) -> (r: Result<
        CompiledTemplate,
        BuildError,
    >)
        requires
            distinct_names(slots_of(descs_view(fields@))),
        ensures
            match (r, compile_spec(descs_view(fields@), config@)) {
                (Ok(ct), Ok(cv)) => ct@ == cv && compiled_wf(ct@),
                (Err(e), Err(ev)) => e@ == ev,
                _ => false,
            },
    {
        let ghost ds = descs_view(fields@);
        let segs = match parse_template_base(config.template.as_str()) {
            Ok(s) => s,
            Err(m) => {
                return Err(BuildError::Template(m));
            },
        };
        let mut slots: Vec<FieldSlot> = Vec::new();
        let mut j: usize = 0;
        while j < fields.len()
            invariant
                j <= fields@.len(),
                ds == descs_view(fields@),
                slots@.len() == j,
                forall|m: int|
                    0 <= m < j ==> #[trigger] slots_view(slots@)[m] == slots_of(ds)[m],
            decreases fields@.len() - j,
        {
            let ghost pre = slots@;
            let kind = classify_exec(&fields[j].ty);
            slots.push(FieldSlot { name: fields[j].name.clone(), kind });
            j = j + 1;
            proof {
                assert forall|m: int|
                    0 <= m < j implies #[trigger] slots_view(slots@)[m] == slots_of(ds)[m] by {
                    assert(slots_view(slots@)[m] == slots@[m]@);
                    if m < j - 1 {
                        assert(slots@[m] == pre[m]);
                        assert(slots_view(pre)[m] == pre[m]@);
                        assert(slots_view(pre)[m] == slots_of(ds)[m]);
                    } else {
                        assert(slots@[m] == slots@.last());
                        assert(ds[m] == fields@[m]@);
                    }
                }
            }
        }
        proof {
            assert(slots_view(slots@) =~= slots_of(ds));
        }
        let ghost sv = views_of(segs@);
        let ghost fv = slots_view(slots@);
        match first_unknown_exec(&segs, &slots, 0) {
            Some(n) => {
                return Err(BuildError::UnknownPlaceholder { name: n });
            },
            None => {},
        }
        match first_ambiguous_exec(&segs, &slots, 0) {
            Some(pair) => {
                proof {
                    lemma_first_unknown_none(sv, fv, 0);
                }
                let fi = match find_field(&slots, &pair.0) {
                    Some(fi) => fi,
                    None => {
                        proof {
                            lemma_first_ambiguous_some_known(sv, fv, 0);
                            assert(false);
                        }
                        0
                    },
                };
                proof {
                    lemma_field_index(fv, pair.0@);
                    assert(fi < slots@.len());
                    assert(fv[fi as int].kind == kind_of(fv, pair.0@));
                    assert(fv[fi as int].kind == slots@[fi as int].kind@);
                }
                let fk = kind_display_exec(&slots[fi].kind);
                return Err(
                    BuildError::ConsecutivePlaceholdersAmbiguous {
                        first: pair.0,
                        second: pair.1,
                        first_kind: fk,
                    },
                );
            },
            None => {},
        }
        match first_unsupported_exec(&segs, &slots, 0) {
            Some(n) => {
                let fi = match find_field(&slots, &n) {
                    Some(fi) => fi,
                    None => {
                        proof {
                            lemma_first_unsupported_some_known(sv, fv, 0);
                            assert(false);
                        }
                        0
                    },
                };
                proof {
                    lemma_field_index(fv, n@);
                    assert(fi < slots@.len());
                    assert(fv[fi as int].kind == kind_of(fv, n@));
                    assert(fv[fi as int].kind == slots@[fi as int].kind@);
                }
                let fk = kind_display_exec(&slots[fi].kind);
                return Err(BuildError::UnsupportedFieldKind { name: n, kind_name: fk });
            },
            None => {},
        }
        let miss = missing_exec(&segs, &slots, 0);
        if !config.allow_missing_placeholders && miss.len() > 0 {
            return Err(BuildError::MissingPlaceholders { names: miss });
        }
        match first_bad_field_exec(&slots, 0) {
            Some(n) => {
                let fi = match find_field(&slots, &n) {
                    Some(fi) => fi,
                    None => {
                        proof {
                            lemma_first_bad_field_some_known(fv, 0);
                            assert(false);
                        }
                        0
                    },
                };
                proof {
                    lemma_field_index(fv, n@);
                    assert(fi < slots@.len());
                    assert(fv[fi as int].kind == kind_of(fv, n@));
                    assert(fv[fi as int].kind == slots@[fi as int].kind@);
                }
                let fk = kind_display_exec(&slots[fi].kind);
                return Err(BuildError::UnsupportedFieldKind { name: n, kind_name: fk });
            },
            None => {},
        }
        proof {
            lemma_compile_wf(ds, config@);
        }
        let out = CompiledTemplate {
            segments: segs,
            fields: slots,
            allow_missing_placeholders: config.allow_missing_placeholders,
            empty_string_means_absent: config.empty_string_means_absent,
        };
        Ok(out)
    }
}

/// When the ambiguity check reports a pair, its first name is a known
/// field (the unknown-placeholder check ran first).
proof fn lemma_first_ambiguous_some_known(segs: Seq<SegV>, fs: Seq<FieldSlotV>, i: int)
    requires
        0 <= i,
        first_unknown_from(segs, fs, 0) is None,
        first_ambiguous_from(segs, fs, i) is Some,
    ensures
        has_field(fs, first_ambiguous_from(segs, fs, i)->Some_0.0),
    decreases segs.len() + 1 - i,
{
    if i + 1 >= segs.len() {
    } else if segs[i] is Placeholder && segs[i + 1] is Placeholder && !fixed_width(
        kind_of(fs, segs[i]->Placeholder_0),
    ) {
        lemma_first_unknown_none(segs, fs, 0);
    } else {
        lemma_first_ambiguous_some_known(segs, fs, i + 1);
    }
}

/// When the unsupported-kind check reports a name, it is a known field.
proof fn lemma_first_unsupported_some_known(segs: Seq<SegV>, fs: Seq<FieldSlotV>, i: int)
    requires
        0 <= i,
        first_unknown_from(segs, fs, 0) is None,
        first_unsupported_from(segs, fs, i) is Some,
    ensures
        has_field(fs, first_unsupported_from(segs, fs, i)->Some_0),
    decreases segs.len() + 1 - i,
{
    if i >= segs.len() {
    } else {
        match segs[i] {
            SegV::Placeholder(n) => {
                if !kind_supported(kind_of(fs, n)) {
                    lemma_first_unknown_none(segs, fs, 0);
                } else {
                    lemma_first_unsupported_some_known(segs, fs, i + 1);
                }
            },
            _ => {
                lemma_first_unsupported_some_known(segs, fs, i + 1);
            },
        }
    }
}

/// When the field check reports a name, it is a field of the registry.
proof fn lemma_first_bad_field_some_known(fs: Seq<FieldSlotV>, j: int)
    requires
        0 <= j,
        first_bad_field_from(fs, j) is Some,
    ensures
        has_field(fs, first_bad_field_from(fs, j)->Some_0),
    decreases fs.len() + 1 - j,
{
    if j >= fs.len() {
    } else if !kind_supported(fs[j].kind) {
        lemma_field_index(fs, fs[j].name);
    } else {
        lemma_first_bad_field_some_known(fs, j + 1);
    }
}

} // verus!
