//! The renderer: the inverse pass of the matcher. Literal segments are
//! written as they stand; each placeholder is replaced by the canonical
//! textual form of the record's value for that field, repeated at every
//! occurrence. A name the record does not bind contributes nothing.

use vstd::prelude::*;
use crate::chars::{chars_of, string_of};
use crate::segment::{SegV, TemplateSegments};
use crate::template::{CompiledTemplate, CompiledV};
use crate::value::{record_get, value_render, value_render_exec, BindV, Record};

verus! {

/// The text the segments from `i` on render to, over a record: literals as
/// they stand, placeholders as the canonical form of the bound value (an
/// unbound name renders as nothing, as does a group).
pub open spec fn render_spec(c: CompiledV, rec: Seq<BindV>, i: int) -> Seq<char>
    decreases c.segments.len() + 1 - i,
{
    if i < 0 || i >= c.segments.len() {
        Seq::empty()
    } else {
        (match c.segments[i] {
            SegV::Literal(l) => l,
            SegV::Placeholder(n) => match record_get(rec, n) {
                Some(v) => value_render(v),
                None => Seq::empty(),
            },
            SegV::GroupBox { .. } => Seq::empty(),
        }) + render_spec(c, rec, i + 1)
    }
}

impl CompiledTemplate {
    /// Renders a record back into the template's text (executable form of
    /// `render_spec`).
    pub fn render(&self, rec: &Record) -> (out: String)
        ensures
            out@ == render_spec(self@, rec@, 0),
    {
        proof {
            use_type_invariant(&*self);
            self.view_parts();
        }
        let mut out: Vec<char> = Vec::new();
        let n_segs = self.segments.len();
        let mut i: usize = 0;
        proof {
            assert(out@ =~= Seq::<char>::empty());
        }
        while i < n_segs
            invariant
                i <= n_segs,
                n_segs == self@.segments.len(),
                self@.segments == crate::segment::views_of(self.segments@),
                out@ + render_spec(self@, rec@, i as int) == render_spec(self@, rec@, 0),
            decreases n_segs - i,
        {
            proof {
                assert(self@.segments[i as int] == self.segments@[i as int]@);
            }
            let piece: Vec<char> = match &self.segments[i] {
                TemplateSegments::Literal(l) => chars_of(l.as_str()),
                TemplateSegments::Placeholder(name) => {
                    match rec.get(name.as_str()) {
                        Some(v) => value_render_exec(v),
                        None => Vec::new(),
                    }
                },
                TemplateSegments::GroupBox { .. } => Vec::new(),
            };
            proof {
                assert(piece@ == (match self@.segments[i as int] {
                    SegV::Literal(l) => l,
                    SegV::Placeholder(n) => match record_get(rec@, n) {
                        Some(v) => value_render(v),
                        None => Seq::<char>::empty(),
                    },
                    SegV::GroupBox { .. } => Seq::<char>::empty(),
                })) by {
                    if piece@.len() == 0 {
                        assert(piece@ =~= Seq::<char>::empty());
                    }
                }
            }
            let ghost out0 = out@;
            let mut k: usize = 0;
            while k < piece.len()
                invariant
                    k <= piece@.len(),
                    out@ == out0 + piece@.subrange(0, k as int),
                decreases piece@.len() - k,
            {
                out.push(piece[k]);
                k = k + 1;
                proof {
                    assert(out@ =~= out0 + piece@.subrange(0, k as int));
                }
            }
            i = i + 1;
            proof {
                assert(piece@.subrange(0, piece@.len() as int) =~= piece@);
                assert(out@ + render_spec(self@, rec@, i as int) =~= render_spec(
                    self@,
                    rec@,
                    0,
                ));
            }
        }
        proof {
            assert(render_spec(self@, rec@, n_segs as int) =~= Seq::<char>::empty());
            assert(out@ =~= render_spec(self@, rec@, 0));
        }
        string_of(&out)
    }
}

} // verus!
