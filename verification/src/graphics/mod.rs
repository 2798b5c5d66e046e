//! The graphics state and content-stream builder: accumulates drawing
//! commands as a byte stream, tracking the current fill and stroke colors
//! so a color-space-selection command is emitted only when the kind of a
//! color changes.

use vstd::prelude::*;
use vstd::string::StringSliceAdditionalSpecFns;

pub mod context;
pub mod path;
pub mod text;

pub use context::{Color, ColorKind, ColorV, Graphic, GraphicParameters, GraphicsContextType, PatternBuilder, Point, Rect};
pub use path::Path;
pub use text::{Font, Text};

use crate::num::{dec_bytes, fixed_bytes, push_dec, push_fixed, Fixed};
use crate::pdf::types::{
    dict_get, dict_insert, entries_refs, has_key, key_index, keys_unique, push_all, val_refs,
};
use crate::pdf::{Dict, Name, Stream, Value};
use context::{kind_of, opt_color_view};

verus! {

/// A compiled command operand: raw bytes without surrounding whitespace.
#[derive(Debug)]
pub struct Parameter {
    pub raw: Vec<u8>,
}

impl View for Parameter {
    type V = Seq<u8>;

    open spec fn view(&self) -> Seq<u8> {
        self.raw@
    }
}

impl Parameter {
    /// A fixed-point number operand.
    pub fn from_fixed(x: Fixed) -> (p: Parameter)
        ensures
            p@ == fixed_bytes(x.milli as int),
    {
        let mut raw: Vec<u8> = Vec::new();
        push_fixed(x, &mut raw);
        Parameter { raw }
    }

    /// A point operand: two space-separated coordinates.
    pub fn from_point(pt: context::Point) -> (p: Parameter)
        ensures
            p@ == context::point_bytes(pt),
    {
        let mut raw: Vec<u8> = Vec::new();
        push_fixed(pt.x, &mut raw);
        raw.push(32);
        push_fixed(pt.y, &mut raw);
        proof {
            assert(raw@ =~= context::point_bytes(pt));
        }
        Parameter { raw }
    }

    /// A rectangle operand: four space-separated coordinates.
    pub fn from_rect(r: context::Rect) -> (p: Parameter)
        ensures
            p@ == context::rect_bytes(r),
    {
        let mut raw: Vec<u8> = Vec::new();
        push_fixed(r.x, &mut raw);
        raw.push(32);
        push_fixed(r.y, &mut raw);
        raw.push(32);
        push_fixed(r.w, &mut raw);
        raw.push(32);
        push_fixed(r.h, &mut raw);
        proof {
            assert(raw@ =~= context::rect_bytes(r));
        }
        Parameter { raw }
    }

    /// A name operand with its leading delimiter.
    pub fn from_name(n: &Name) -> (p: Parameter)
        ensures
            p@ == seq![47u8] + n@,
    {
        let mut raw: Vec<u8> = Vec::new();
        raw.push(47);
        n.push_to(&mut raw);
        proof {
            assert(raw@ =~= seq![47u8] + n@);
        }
        Parameter { raw }
    }

    /// A parenthesis-delimited text string operand.
    pub fn from_text(t: &Vec<u8>) -> (p: Parameter)
        ensures
            p@ == seq![40u8] + t@ + seq![41u8],
    {
        let mut raw: Vec<u8> = Vec::new();
        raw.push(40);
        push_all(&mut raw, t);
        raw.push(41);
        proof {
            assert(raw@ =~= seq![40u8] + t@ + seq![41u8]);
        }
        Parameter { raw }
    }

    /// An unsigned integer operand in decimal.
    pub fn from_usize(n: usize) -> (p: Parameter)
        ensures
            p@ == dec_bytes(n as nat),
    {
        let mut raw: Vec<u8> = Vec::new();
        push_dec(n as u64, &mut raw);
        Parameter { raw }
    }
}

/// The bytes of a parameter list: each operand preceded by one space.
pub open spec fn params_bytes(ps: Seq<Seq<u8>>) -> Seq<u8>
    decreases ps.len(),
{
    if ps.len() == 0 {
        Seq::empty()
    } else {
        params_bytes(ps.drop_last()) + seq![32u8] + ps.last()
    }
}

/// The color-space name bytes for a color kind.
pub open spec fn cs_name_bytes(k: ColorKind) -> Seq<u8> {
    match k {
        ColorKind::Gray => seq![68u8, 101u8, 118u8, 105u8, 99u8, 101u8, 71u8, 114u8, 97u8, 121u8],
        ColorKind::Rgb => seq![68u8, 101u8, 118u8, 105u8, 99u8, 101u8, 82u8, 71u8, 66u8],
        ColorKind::Cmyk => seq![68u8, 101u8, 118u8, 105u8, 99u8, 101u8, 67u8, 77u8, 89u8, 75u8],
        ColorKind::Pattern => seq![80u8, 97u8, 116u8, 116u8, 101u8, 114u8, 110u8],
    }
}

/// The color-space-selection operator: `CS` for stroke, `cs` for fill.
pub open spec fn cs_op_bytes(stroke: bool) -> Seq<u8> {
    if stroke {
        seq![67u8, 83u8]
    } else {
        seq![99u8, 115u8]
    }
}

/// The color-set operator: `SCN` for stroke, `scn` for fill.
pub open spec fn sc_op_bytes(stroke: bool) -> Seq<u8> {
    if stroke {
        seq![83u8, 67u8, 78u8]
    } else {
        seq![115u8, 99u8, 110u8]
    }
}

/// The operand bytes of a color: its components, or the pattern's name,
/// each preceded by one space.
pub open spec fn color_operand_bytes(cv: ColorV) -> Seq<u8> {
    match cv {
        ColorV::Gray(g) => seq![32u8] + fixed_bytes(g.milli as int),
        ColorV::Rgb(r, g, b) => seq![32u8] + fixed_bytes(r.milli as int) + seq![32u8] + fixed_bytes(
            g.milli as int,
        ) + seq![32u8] + fixed_bytes(b.milli as int),
        ColorV::Cmyk(c, m, y, k) => seq![32u8] + fixed_bytes(c.milli as int) + seq![32u8]
            + fixed_bytes(m.milli as int) + seq![32u8] + fixed_bytes(y.milli as int) + seq![32u8]
            + fixed_bytes(k.milli as int),
        ColorV::Pattern(nm, _) => seq![32u8, 47u8] + nm,
    }
}

/// The bytes emitted to apply one color: a color-space-selection command
/// exactly when the color's kind differs from the current kind of that
/// channel, then always the numeric color-set command.
pub open spec fn color_sync_bytes(cur: ColorKind, cv: ColorV, stroke: bool) -> Seq<u8> {
    (if kind_of(cv) != cur {
        seq![32u8, 47u8] + cs_name_bytes(kind_of(cv)) + seq![32u8] + cs_op_bytes(stroke)
    } else {
        Seq::empty()
    }) + color_operand_bytes(cv) + seq![32u8] + sc_op_bytes(stroke)
}

/// The bytes emitted for one optional channel.
pub open spec fn sync_bytes(cur: ColorKind, c: Option<ColorV>, stroke: bool) -> Seq<u8> {
    match c {
        Some(cv) => color_sync_bytes(cur, cv, stroke),
        None => Seq::empty(),
    }
}

/// The pattern content-stream nodes a color makes the page depend on.
pub open spec fn pattern_ids(cv: ColorV) -> Seq<usize> {
    match cv {
        ColorV::Pattern(_, id) => seq![id],
        _ => Seq::empty(),
    }
}

/// The entries of a mapping, with keys by text.
pub open spec fn dict_view(s: Seq<(Name, Value)>) -> Seq<(Seq<u8>, Value)> {
    s.map_values(|p: (Name, Value)| (p.0@, p.1))
}

pub open spec fn vhas_key(vs: Seq<(Seq<u8>, Value)>, k: Seq<u8>) -> bool {
    exists|i: int| 0 <= i < vs.len() && vs[i].0 == k
}

pub open spec fn vkey_index(vs: Seq<(Seq<u8>, Value)>, k: Seq<u8>) -> int {
    choose|i: int| 0 <= i < vs.len() && vs[i].0 == k
}

/// Last-write-wins insertion over entry views.
pub open spec fn vdict_insert(vs: Seq<(Seq<u8>, Value)>, k: Seq<u8>, v: Value) -> Seq<
    (Seq<u8>, Value),
> {
    if vhas_key(vs, k) {
        vs.update(vkey_index(vs, k), (k, v))
    } else {
        vs.push((k, v))
    }
}

/// Inserting into a mapping and taking entry views commutes with
/// inserting at the view level.
pub proof fn lemma_dict_insert_view(s: Seq<(Name, Value)>, n: Name, v: Value)
    requires
        keys_unique(s),
    ensures
        dict_view(dict_insert(s, n, v)) =~= vdict_insert(dict_view(s), n@, v),
{
    let vs = dict_view(s);
    assert(vs.len() == s.len());
    assert(forall|i: int| 0 <= i < s.len() ==> (#[trigger] vs[i]) == (s[i].0@, s[i].1));
    if has_key(s, n@) {
        let i = key_index(s, n@);
        assert(0 <= i < s.len() && s[i].0@ == n@);
        assert(vs[i].0 == n@);
        assert(vhas_key(vs, n@));
        let j = vkey_index(vs, n@);
        assert(vs[j].0 == n@);
        assert(s[j].0@ == n@);
        assert(j == i);
    } else {
        if vhas_key(vs, n@) {
            let j = vkey_index(vs, n@);
            assert(vs[j].0 == n@);
            assert(s[j].0@ == n@);
            assert(false);
        }
    }
}

/// The fonts mapping after registering a run of font uses, at the view
/// level: each use inserts a reference to its font object under its name.
pub open spec fn fonts_after(vs: Seq<(Seq<u8>, Value)>, fs: Seq<(Seq<u8>, usize)>) -> Seq<
    (Seq<u8>, Value),
>
    decreases fs.len(),
{
    if fs.len() == 0 {
        vs
    } else {
        fonts_after(vdict_insert(vs, fs[0].0, Value::Ref(fs[0].1)), fs.drop_first())
    }
}

/// The node indices of a run of font uses.
pub open spec fn font_ids(fs: Seq<(Seq<u8>, usize)>) -> Seq<usize> {
    fs.map_values(|p: (Seq<u8>, usize)| p.1)
}

/// The base resource mapping every fresh builder starts from: exactly the
/// `ProcSet` entry naming the `PDF` and `Text` procedure sets, and in
/// particular no `Font` entry yet.
pub open spec fn base_resources(d: Dict) -> bool {
    &&& d.entries@.len() == 1
    &&& d.entries@[0].0@ == "ProcSet".spec_bytes()
    &&& (d.entries@[0].1 matches Value::Array(vs) && (vs@.len() == 2 && ((vs@[0]
        matches Value::Name(n0) && n0@ == "PDF".spec_bytes()) && (vs@[1] matches Value::Name(n1)
        && n1@ == "Text".spec_bytes()))))
    &&& dict_get(d.entries@, "ProcSet".spec_bytes()) == Some(d.entries@[0].1)
    &&& dict_get(d.entries@, "Font".spec_bytes()) is None
    &&& val_refs(d.entries@[0].1) == Seq::<usize>::empty()
}

/// The stateful content-stream builder: the current colors, the growing
/// command stream, and the resource mappings the page will need.
#[derive(Debug)]
pub struct GraphicContext {
    /// Whether this context emits color commands at all.
    pub context_type: GraphicsContextType,
    /// The current fill color.
    pub fill: Color,
    /// The current stroke color.
    pub stroke: Color,
    /// The accumulated command bytes.
    pub stream: Vec<u8>,
    /// The page's resource mapping.
    pub resources: Dict,
    /// The font resource mapping, attached under `Font` on compilation.
    pub fonts: Dict,
    /// Pattern content-stream nodes referenced by applied colors.
    pub external_resources: Vec<usize>,
    /// Node indices of the font objects the fonts mapping references.
    pub font_ref_ids: Vec<usize>,
}

impl GraphicContext {
    /// The builder's invariant: its mappings have unique keys and its
    /// resources reference no graph nodes.
    pub open spec fn wf(&self) -> bool {
        &&& keys_unique(self.resources.entries@)
        &&& keys_unique(self.fonts.entries@)
        &&& forall|r: usize| !entries_refs(self.resources.entries@).contains(r)
        &&& forall|r: usize|
            entries_refs(self.fonts.entries@).contains(r) ==> self.font_ref_ids@.contains(r)
    }

    /// A colorful builder with an empty stream and the base resources.
    pub fn new() -> (g: GraphicContext)
        ensures
            g.wf(),
            g.context_type == GraphicsContextType::Normal,
            g.fill@ == ColorV::Gray(Fixed { milli: 0 }),
            g.stroke@ == ColorV::Gray(Fixed { milli: 0 }),
            g.stream@ == Seq::<u8>::empty(),
            g.fonts.entries@ == Seq::<(Name, Value)>::empty(),
            g.external_resources@ == Seq::<usize>::empty(),
            g.font_ref_ids@ == Seq::<usize>::empty(),
            base_resources(g.resources),
    {
        GraphicContext::with_type(GraphicsContextType::Normal)
    }

    /// A builder of the given context kind with an empty stream.
    #[verifier::rlimit(100)]
    pub fn with_type(t: GraphicsContextType) -> (g: GraphicContext)
        ensures
            g.wf(),
            g.context_type == t,
            g.fill@ == ColorV::Gray(Fixed { milli: 0 }),
            g.stroke@ == ColorV::Gray(Fixed { milli: 0 }),
            g.stream@ == Seq::<u8>::empty(),
            g.fonts.entries@ == Seq::<(Name, Value)>::empty(),
            g.external_resources@ == Seq::<usize>::empty(),
            g.font_ref_ids@ == Seq::<usize>::empty(),
            base_resources(g.resources),
    {
        let mut procset: Vec<Value> = Vec::new();
        procset.push(Value::Name(Name::new("PDF")));
        procset.push(Value::Name(Name::new("Text")));
        let ghost ps = procset@;
        let arr = Value::Array(procset);
        proof {
            assert forall|k: int| 0 <= k < ps.len() implies val_refs(#[trigger] ps[k]) == Seq::<
                usize,
            >::empty() by {
                assert(val_refs(ps[k]) =~= Seq::<usize>::empty());
            }
            crate::pdf::types::lemma_list_refs_empty(ps);
            assert(val_refs(arr) =~= Seq::<usize>::empty());
        }
        let mut resources = Dict::new();
        let n = Name::new("ProcSet");
        proof {
            crate::pdf::types::lemma_dict_insert_get(
                resources.entries@,
                n,
                arr,
                "ProcSet".spec_bytes(),
            );
        }
        let ghost empty_entries = resources.entries@;
        resources.add_entry(n, arr);
        proof {
            assert forall|r: usize| !entries_refs(resources.entries@).contains(r) by {
                crate::pdf::types::lemma_dict_insert_refs_mem(empty_entries, n, arr, r);
                assert(!entries_refs(empty_entries).contains(r));
            }
            crate::pdf::types::lemma_key_literals();
            assert(resources.entries@ =~= Seq::<(Name, Value)>::empty().push((n, arr)));
            assert(resources.entries@[0].1 == arr);
            if has_key(resources.entries@, "Font".spec_bytes()) {
                let i = choose|i: int|
                    0 <= i < resources.entries@.len() && resources.entries@[i].0@
                        == "Font".spec_bytes();
                assert(resources.entries@[i].0@ == "ProcSet".spec_bytes());
                assert("ProcSet".spec_bytes().len() == 7);
                assert("Font".spec_bytes().len() == 4);
                assert(false);
            }
            assert(has_key(resources.entries@, "ProcSet".spec_bytes())) by {
                assert(resources.entries@[0].0@ == "ProcSet".spec_bytes());
            }
            let ki = key_index(resources.entries@, "ProcSet".spec_bytes());
            assert(0 <= ki < resources.entries@.len() && resources.entries@[ki].0@
                == "ProcSet".spec_bytes());
            assert(ki == 0);
        }
        let g = GraphicContext {
            context_type: t,
            fill: Color::default(),
            stroke: Color::default(),
            stream: Vec::new(),
            resources,
            fonts: Dict::new(),
            external_resources: Vec::new(),
            font_ref_ids: Vec::new(),
        };
        g
    }

    /// Appends one command: each operand preceded by a space, then a
    /// space and the operator mnemonic.
    #[verifier::loop_isolation(false)]
    pub fn command(&mut self, params: &Vec<Parameter>, op: &Vec<u8>)
        ensures
            final(self).stream@ == old(self).stream@ + params_bytes(
                params@.map_values(|p: Parameter| p@),
            ) + seq![32u8] + op@,
            final(self).context_type == old(self).context_type,
            final(self).fill == old(self).fill,
            final(self).stroke == old(self).stroke,
            final(self).resources == old(self).resources,
            final(self).fonts == old(self).fonts,
            final(self).external_resources == old(self).external_resources,
            final(self).font_ref_ids == old(self).font_ref_ids,
    {
        let ghost ps = params@.map_values(|p: Parameter| p@);
        let mut k: usize = 0;
        while k < params.len()
            invariant
                k <= params@.len(),
                self.stream@ == old(self).stream@ + params_bytes(ps.take(k as int)),
                self.context_type == old(self).context_type,
                self.fill == old(self).fill,
                self.stroke == old(self).stroke,
                self.resources == old(self).resources,
                self.fonts == old(self).fonts,
                self.external_resources == old(self).external_resources,
                self.font_ref_ids == old(self).font_ref_ids,
            decreases params@.len() - k,
        {
            self.stream.push(32);
            push_all(&mut self.stream, &params[k].raw);
            proof {
                assert(ps.take(k + 1).drop_last() =~= ps.take(k as int));
                assert(ps.take(k + 1).last() == ps[k as int]);
                assert(ps[k as int] == params@[k as int]@);
                assert(self.stream@ =~= old(self).stream@ + params_bytes(ps.take(k + 1)));
            }
            k = k + 1;
        }
        self.stream.push(32);
        push_all(&mut self.stream, op);
        proof {
            assert(ps.take(ps.len() as int) =~= ps);
            assert(final(self).stream@ =~= old(self).stream@ + params_bytes(ps) + seq![32u8]
                + op@);
        }
    }

    /// Records a pattern content-stream node the page depends on.
    pub fn add_resource(&mut self, id: usize)
        ensures
            final(self).external_resources@ == old(self).external_resources@.push(id),
            final(self).stream == old(self).stream,
            final(self).context_type == old(self).context_type,
            final(self).fill == old(self).fill,
            final(self).stroke == old(self).stroke,
            final(self).resources == old(self).resources,
            final(self).fonts == old(self).fonts,
            final(self).font_ref_ids == old(self).font_ref_ids,
    {
        self.external_resources.push(id);
    }

    /// Emits the color-space-selection command for the given kind.
    fn emit_colorspace(&mut self, k: ColorKind, stroke: bool)
        ensures
            final(self).stream@ == old(self).stream@ + seq![32u8, 47u8] + cs_name_bytes(k)
                + seq![32u8] + cs_op_bytes(stroke),
            final(self).context_type == old(self).context_type,
            final(self).fill == old(self).fill,
            final(self).stroke == old(self).stroke,
            final(self).resources == old(self).resources,
            final(self).fonts == old(self).fonts,
            final(self).external_resources == old(self).external_resources,
            final(self).font_ref_ids == old(self).font_ref_ids,
    {
        let mut ps: Vec<Parameter> = Vec::new();
        ps.push(cs_name_param(k));
        let mut op: Vec<u8> = Vec::new();
        if stroke {
            op.push(67);
            op.push(83);
        } else {
            op.push(99);
            op.push(115);
        }
        proof {
            let pv = ps@.map_values(|p: Parameter| p@);
                    reveal_with_fuel(params_bytes, 6);
            assert(pv.len() == 1);
            assert(pv[0] == ps@[0]@);
            assert(pv.drop_last() =~= pv.take(0));
            assert(op@ =~= cs_op_bytes(stroke));
        }
        self.command(&ps, &op);
        proof {
            let pv = ps@.map_values(|p: Parameter| p@);
                    reveal_with_fuel(params_bytes, 6);
            assert(pv.len() == 1);
            assert(pv[0] == ps@[0]@);
            assert(pv.last() == pv[0]);
            assert(pv.drop_last() =~= pv.take(0));
            assert(params_bytes(pv.drop_last()) == Seq::<u8>::empty());
            assert(params_bytes(pv) =~= seq![32u8, 47u8] + cs_name_bytes(k));
            assert(final(self).stream@ =~= old(self).stream@ + seq![32u8, 47u8] + cs_name_bytes(
                k,
            ) + seq![32u8] + cs_op_bytes(stroke));
        }
    }

    /// Emits the operand-setting command for the given color, recording a
    /// pattern's content stream as an external resource.
    #[verifier::rlimit(100)]
    fn emit_set_color(&mut self, c: &Color, stroke: bool)
        ensures
            final(self).stream@ == old(self).stream@ + color_operand_bytes(c@) + seq![32u8]
                + sc_op_bytes(stroke),
            final(self).external_resources@ == old(self).external_resources@ + pattern_ids(c@),
            final(self).context_type == old(self).context_type,
            final(self).fill == old(self).fill,
            final(self).stroke == old(self).stroke,
            final(self).resources == old(self).resources,
            final(self).fonts == old(self).fonts,
            final(self).font_ref_ids == old(self).font_ref_ids,
    {
        let mut ps: Vec<Parameter> = Vec::new();
        match c {
            Color::DeviceGray(g) => {
                ps.push(Parameter::from_fixed(*g));
                proof {
                    let pv = ps@.map_values(|p: Parameter| p@);
                    reveal_with_fuel(params_bytes, 6);
                    assert(pv.len() == 1);
                    assert(pv[0] == ps@[0]@);
                    assert(pv.last() == pv[0]);
                    assert(pv.drop_last() =~= pv.take(0));
                    assert(params_bytes(pv.drop_last()) == Seq::<u8>::empty());
                    assert(params_bytes(pv) =~= color_operand_bytes(c@));
                }
            },
            Color::DeviceRGB(r, g, b) => {
                ps.push(Parameter::from_fixed(*r));
                ps.push(Parameter::from_fixed(*g));
                ps.push(Parameter::from_fixed(*b));
                proof {
                    let pv = ps@.map_values(|p: Parameter| p@);
                    reveal_with_fuel(params_bytes, 6);
                    assert(pv.len() == 3);
                    assert(pv[0] == ps@[0]@);
                    assert(pv[1] == ps@[1]@);
                    assert(pv[2] == ps@[2]@);
                    assert(pv.drop_last() =~= pv.take(2));
                    assert(pv.take(2).drop_last() =~= pv.take(1));
                    assert(pv.take(1).drop_last() =~= pv.take(0));
                    assert(pv.take(2).last() == pv[1]);
                    assert(pv.take(1).last() == pv[0]);
                    assert(pv.last() == pv[2]);
                    assert(params_bytes(pv.take(0)) == Seq::<u8>::empty());
                    assert(params_bytes(pv) =~= color_operand_bytes(c@));
                }
            },
            Color::DeviceCMYK(cc, m, y, k) => {
                ps.push(Parameter::from_fixed(*cc));
                ps.push(Parameter::from_fixed(*m));
                ps.push(Parameter::from_fixed(*y));
                ps.push(Parameter::from_fixed(*k));
                proof {
                    let pv = ps@.map_values(|p: Parameter| p@);
                    reveal_with_fuel(params_bytes, 6);
                    assert(pv.len() == 4);
                    assert(pv[0] == ps@[0]@);
                    assert(pv[1] == ps@[1]@);
                    assert(pv[2] == ps@[2]@);
                    assert(pv[3] == ps@[3]@);
                    assert(pv.drop_last() =~= pv.take(3));
                    assert(pv.take(3).drop_last() =~= pv.take(2));
                    assert(pv.take(2).drop_last() =~= pv.take(1));
                    assert(pv.take(1).drop_last() =~= pv.take(0));
                    assert(pv.take(3).last() == pv[2]);
                    assert(pv.take(2).last() == pv[1]);
                    assert(pv.take(1).last() == pv[0]);
                    assert(pv.last() == pv[3]);
                    assert(params_bytes(pv.take(0)) == Seq::<u8>::empty());
                    assert(params_bytes(pv) =~= color_operand_bytes(c@));
                }
            },
            Color::Pattern(n, id) => {
                self.add_resource(*id);
                ps.push(Parameter::from_name(n));
                proof {
                    let pv = ps@.map_values(|p: Parameter| p@);
                    reveal_with_fuel(params_bytes, 6);
                    assert(pv.len() == 1);
                    assert(pv[0] == ps@[0]@);
                    assert(pv.last() == pv[0]);
                    assert(pv.drop_last() =~= pv.take(0));
                    assert(params_bytes(pv.drop_last()) == Seq::<u8>::empty());
                    assert(params_bytes(pv) =~= color_operand_bytes(c@));
                }
            },
        }
        let mut op: Vec<u8> = Vec::new();
        if stroke {
            op.push(83);
            op.push(67);
            op.push(78);
        } else {
            op.push(115);
            op.push(99);
            op.push(110);
        }
        proof {
            assert(op@ =~= sc_op_bytes(stroke));
            assert(params_bytes(ps@.map_values(|p: Parameter| p@)) == color_operand_bytes(c@));
        }
        self.command(&ps, &op);
        proof {
            assert(final(self).stream@ =~= old(self).stream@ + color_operand_bytes(c@)
                + seq![32u8] + sc_op_bytes(stroke));
            assert(final(self).external_resources@ =~= old(self).external_resources@
                + pattern_ids(c@));
        }
    }

    /// Applies one color to one channel: selects the color space exactly
    /// when the kind changes, always sets the operands, and updates the
    /// channel's current color.
    pub fn apply_color(&mut self, c: &Color, stroke: bool)
        ensures
            final(self).stream@ == old(self).stream@ + color_sync_bytes(
                kind_of(if stroke {
                    old(self).stroke@
                } else {
                    old(self).fill@
                }),
                c@,
                stroke,
            ),
            stroke ==> final(self).stroke@ == c@ && final(self).fill == old(self).fill,
            !stroke ==> final(self).fill@ == c@ && final(self).stroke == old(self).stroke,
            final(self).external_resources@ == old(self).external_resources@ + pattern_ids(c@),
            final(self).context_type == old(self).context_type,
            final(self).resources == old(self).resources,
            final(self).fonts == old(self).fonts,
            final(self).font_ref_ids == old(self).font_ref_ids,
    {
        let ghost cur = if stroke {
            old(self).stroke@
        } else {
            old(self).fill@
        };
        let cur_kind = if stroke {
            self.stroke.kind()
        } else {
            self.fill.kind()
        };
        let new_kind = c.kind();
        if new_kind != cur_kind {
            self.emit_colorspace(new_kind, stroke);
        }
        self.emit_set_color(c, stroke);
        if stroke {
            self.stroke = c.dup();
        } else {
            self.fill = c.dup();
        }
        proof {
            assert(final(self).stream@ =~= old(self).stream@ + color_sync_bytes(
                kind_of(cur),
                c@,
                stroke,
            ));
        }
    }

    /// Renders one drawable: registers its fonts, synchronizes the color
    /// state (emitting a color-space selection only on a kind change and
    /// the operand-setting command always), then appends the drawable's
    /// own commands.
    #[verifier::loop_isolation(false)]
    #[verifier::rlimit(100)]
    pub fn render<G: Graphic>(&mut self, g: &G)
        requires
            old(self).wf(),
            g.valid(),
        ensures
            final(self).wf(),
            final(self).stream@ == old(self).stream@ + (if old(self).context_type.spec_color() {
                sync_bytes(kind_of(old(self).fill@), g.fill_spec(), false) + sync_bytes(
                    kind_of(old(self).stroke@),
                    g.stroke_spec(),
                    true,
                )
            } else {
                Seq::<u8>::empty()
            }) + g.commands(),
            final(self).context_type == old(self).context_type,
            final(self).resources == old(self).resources,
            dict_view(final(self).fonts.entries@) == fonts_after(
                dict_view(old(self).fonts.entries@),
                g.font_entries(),
            ),
            final(self).font_ref_ids@ == old(self).font_ref_ids@ + font_ids(g.font_entries()),
    {
        let mut fs = g.fonts();
        let ghost all = g.font_entries();
        proof {
            assert(fs@.map_values(|p: (Name, usize)| (p.0@, p.1)) == all);
            assert(self.font_ref_ids@ + font_ids(fs@.map_values(|p: (Name, usize)| (p.0@, p.1)))
                =~= old(self).font_ref_ids@ + font_ids(all));
        }
        while fs.len() > 0
            invariant
                self.wf(),
                fonts_after(
                    dict_view(self.fonts.entries@),
                    fs@.map_values(|p: (Name, usize)| (p.0@, p.1)),
                ) == fonts_after(dict_view(old(self).fonts.entries@), all),
                self.font_ref_ids@ + font_ids(fs@.map_values(|p: (Name, usize)| (p.0@, p.1)))
                    =~= old(self).font_ref_ids@ + font_ids(all),
                self.stream == old(self).stream,
                self.context_type == old(self).context_type,
                self.fill == old(self).fill,
                self.stroke == old(self).stroke,
                self.resources == old(self).resources,
                self.external_resources == old(self).external_resources,
            decreases fs.len(),
        {
            let ghost fsv0 = fs@.map_values(|p: (Name, usize)| (p.0@, p.1));
            let (n, id) = fs.remove(0);
            proof {
                assert(fs@.map_values(|p: (Name, usize)| (p.0@, p.1)) =~= fsv0.drop_first());
                assert(fsv0[0] == (n@, id));
                lemma_dict_insert_view(self.fonts.entries@, n, Value::Ref(id));
            }
            let ghost before_entries = self.fonts.entries@;
            let ghost before_ids = self.font_ref_ids@;
            self.fonts.add_entry(n, Value::Ref(id));
            self.font_ref_ids.push(id);
            proof {
                assert forall|r: usize|
                    entries_refs(self.fonts.entries@).contains(r) implies self.font_ref_ids@.contains(
                    r,
                ) by {
                    crate::pdf::types::lemma_dict_insert_refs_mem(
                        before_entries,
                        n,
                        Value::Ref(id),
                        r,
                    );
                    if entries_refs(before_entries).contains(r) {
                        assert(before_ids.contains(r));
                        let i = choose|i: int| 0 <= i < before_ids.len() && before_ids[i] == r;
                        assert(self.font_ref_ids@[i] == r);
                    } else {
                        assert(val_refs(Value::Ref(id)) =~= seq![id]);
                        assert(val_refs(Value::Ref(id)).contains(r));
                        assert(r == id);
                        assert(self.font_ref_ids@.last() == id);
                    }
                }
                assert(vdict_insert(dict_view(before_entries), n@, Value::Ref(id))
                    == vdict_insert(dict_view(before_entries), fsv0[0].0, Value::Ref(fsv0[0].1)));
                assert(self.font_ref_ids@ + font_ids(fsv0.drop_first()) =~= old(
                    self,
                ).font_ref_ids@ + font_ids(all)) by {
                    assert(font_ids(fsv0)[0] == id);
                    assert(font_ids(fsv0.drop_first()) =~= font_ids(fsv0).drop_first());
                    assert(before_ids + font_ids(fsv0) =~= old(self).font_ref_ids@ + font_ids(
                        all,
                    ));
                }
            }
        }
        proof {
            assert(fs@.map_values(|p: (Name, usize)| (p.0@, p.1)) =~= Seq::<
                (Seq<u8>, usize),
            >::empty());
            assert(dict_view(self.fonts.entries@) == fonts_after(
                dict_view(old(self).fonts.entries@),
                all,
            ));
            assert(self.font_ref_ids@ =~= old(self).font_ref_ids@ + font_ids(all));
        }
        let p = g.get_graphics_parameters();
        GraphicParameters::update(self, &p);
        g.render(self);
        proof {
            assert(final(self).stream@ =~= old(self).stream@ + (if old(
                self,
            ).context_type.spec_color() {
                sync_bytes(kind_of(old(self).fill@), g.fill_spec(), false) + sync_bytes(
                    kind_of(old(self).stroke@),
                    g.stroke_spec(),
                    true,
                )
            } else {
                Seq::<u8>::empty()
            }) + g.commands());
        }
    }

    /// Consumes the builder and produces the content stream as a binary
    /// block (whose `Length` header holds the payload's byte count)
    /// together with the page's resource mapping; a non-empty font table
    /// is attached to the resources under `Font`.
    pub fn compile(self) -> (r: (Stream, Dict))
        requires
            self.wf(),
        ensures
            r.0.data@ == self.stream@,
            dict_get(r.0.meta.entries@, "Length".spec_bytes()) == Some(
                Value::Int(self.stream@.len() as usize),
            ),
            entries_refs(r.0.meta.entries@) == Seq::<usize>::empty(),
            keys_unique(r.0.meta.entries@),
            keys_unique(r.1.entries@),
            self.fonts.entries@.len() == 0 ==> r.1 == self.resources,
            self.fonts.entries@.len() > 0 ==> dict_get(r.1.entries@, "Font".spec_bytes())
                == Some(Value::Dict(self.fonts)),
            forall|r2: usize|
                entries_refs(r.1.entries@).contains(r2) ==> self.font_ref_ids@.contains(r2),
    {
        let GraphicContext { stream, mut resources, fonts, font_ref_ids, .. } = self;
        let has_fonts = !fonts.is_empty();
        let ghost fonts_snapshot = fonts;
        let ghost res0 = resources.entries@;
        if has_fonts {
            let n = Name::new("Font");
            proof {
                crate::pdf::types::lemma_dict_insert_get(
                    res0,
                    n,
                    Value::Dict(fonts_snapshot),
                    "Font".spec_bytes(),
                );
            }
            resources.add_entry(n, Value::Dict(fonts));
            proof {
                assert forall|r2: usize|
                    entries_refs(resources.entries@).contains(r2) implies self.font_ref_ids@.contains(
                    r2,
                ) by {
                    crate::pdf::types::lemma_dict_insert_refs_mem(
                        res0,
                        n,
                        Value::Dict(fonts_snapshot),
                        r2,
                    );
                    assert(!entries_refs(res0).contains(r2));
                    assert(val_refs(Value::Dict(fonts_snapshot)) == entries_refs(
                        fonts_snapshot.entries@,
                    ));
                }
            }
        } else {
            proof {
                assert forall|r2: usize|
                    entries_refs(resources.entries@).contains(r2) implies self.font_ref_ids@.contains(
                    r2,
                ) by {
                    assert(!entries_refs(res0).contains(r2));
                }
            }
        }
        let meta = Dict::new();
        let st = Stream::new(meta, stream);
        proof {
            assert forall|r2: usize| !entries_refs(st.meta.entries@).contains(r2) by {
                crate::pdf::types::lemma_entries_refs_mem(st.meta.entries@, r2);
                if entries_refs(st.meta.entries@).contains(r2) {
                    let k = choose|k: int|
                        0 <= k < st.meta.entries@.len() && val_refs(
                            (#[trigger] st.meta.entries@[k]).1,
                        ).contains(r2);
                    assert(dict_get(st.meta.entries@, st.meta.entries@[k].0@) is Some);
                    assert(false);
                }
            }
            if entries_refs(st.meta.entries@).len() > 0 {
                assert(entries_refs(st.meta.entries@).contains(entries_refs(st.meta.entries@)[0]));
            }
            assert(entries_refs(st.meta.entries@) =~= Seq::<usize>::empty());
        }
        (st, resources)
    }
}

/// For every color applied to a channel, the color-space-selection
/// command appears in the emitted bytes exactly when the color's kind
/// differs from the channel's current kind; the operand-setting command
/// appears in every case.
pub proof fn lemma_colorspace_selection(cur: ColorKind, cv: ColorV, stroke: bool)
    ensures
        kind_of(cv) != cur ==> color_sync_bytes(cur, cv, stroke) == seq![32u8, 47u8]
            + cs_name_bytes(kind_of(cv)) + seq![32u8] + cs_op_bytes(stroke) + color_operand_bytes(
            cv,
        ) + seq![32u8] + sc_op_bytes(stroke),
        kind_of(cv) == cur ==> color_sync_bytes(cur, cv, stroke) == color_operand_bytes(cv)
            + seq![32u8] + sc_op_bytes(stroke),
{
    if kind_of(cv) != cur {
        assert(color_sync_bytes(cur, cv, stroke) =~= seq![32u8, 47u8] + cs_name_bytes(kind_of(cv))
            + seq![32u8] + cs_op_bytes(stroke) + color_operand_bytes(cv) + seq![32u8]
            + sc_op_bytes(stroke));
    } else {
        assert(color_sync_bytes(cur, cv, stroke) =~= color_operand_bytes(cv) + seq![32u8]
            + sc_op_bytes(stroke));
    }
}

/// A builder that rendered no drawable compiles to a valid empty content
/// stream: the payload has length zero and the injected `Length` header
/// holds zero. The premises are what `compile` guarantees about its
/// result for a builder with an empty stream.
pub proof fn lemma_empty_content_stream(g: GraphicContext, st: Stream)
    requires
        g.stream@.len() == 0,
        st.data@ == g.stream@,
        dict_get(st.meta.entries@, "Length".spec_bytes()) == Some(
            Value::Int(st.data@.len() as usize),
        ),
    ensures
        st.data@.len() == 0,
        dict_get(st.meta.entries@, "Length".spec_bytes()) == Some(Value::Int(0)),
{
}

/// The color-space name operand for a color kind, with its delimiter.
fn cs_name_param(k: ColorKind) -> (p: Parameter)
    ensures
        p@ == seq![47u8] + cs_name_bytes(k),
{
    let mut raw: Vec<u8> = Vec::new();
    raw.push(47);
    match k {
        ColorKind::Gray => {
            raw.push(68);
            raw.push(101);
            raw.push(118);
            raw.push(105);
            raw.push(99);
            raw.push(101);
            raw.push(71);
            raw.push(114);
            raw.push(97);
            raw.push(121);
        },
        ColorKind::Rgb => {
            raw.push(68);
            raw.push(101);
            raw.push(118);
            raw.push(105);
            raw.push(99);
            raw.push(101);
            raw.push(82);
            raw.push(71);
            raw.push(66);
        },
        ColorKind::Cmyk => {
            raw.push(68);
            raw.push(101);
            raw.push(118);
            raw.push(105);
            raw.push(99);
            raw.push(101);
            raw.push(67);
            raw.push(77);
            raw.push(89);
            raw.push(75);
        },
        ColorKind::Pattern => {
            raw.push(80);
            raw.push(97);
            raw.push(116);
            raw.push(116);
            raw.push(101);
            raw.push(114);
            raw.push(110);
        },
    }
    proof {
        assert(raw@ =~= seq![47u8] + cs_name_bytes(k));
    }
    Parameter { raw }
}

} // verus!
