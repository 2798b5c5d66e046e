//! Colors, graphics parameters and geometry values, and the capability
//! that every drawable implements.

use vstd::prelude::*;
use vstd::string::StringSliceAdditionalSpecFns;
use crate::num::{fixed_bytes, Fixed};
use crate::pdf::Name;
use crate::pdf::types::entries_refs;
use crate::pdf::types::val_refs;
use crate::pdf::types::Value;
use crate::pdf::ObjRef;
use crate::pdf::PDFWrite;
use crate::pdf::Stream;
use crate::graphics::{dict_view, font_ids, fonts_after, pattern_ids, sync_bytes, GraphicContext};

verus! {

/// Whether a rendering context emits color commands.
#[derive(Clone, Copy, PartialEq, Eq, Structural, Debug)]
pub enum GraphicsContextType {
    Normal,
    NoColor,
}

impl GraphicsContextType {
    /// Whether this context kind carries color state.
    pub open spec fn spec_color(&self) -> bool {
        match self {
            GraphicsContextType::NoColor => false,
            GraphicsContextType::Normal => true,
        }
    }

    /// Whether this context kind carries color state.
    pub fn color(&self) -> (r: bool)
        ensures
            r == self.spec_color(),
    {
        match self {
            GraphicsContextType::NoColor => false,
            GraphicsContextType::Normal => true,
        }
    }
}

/// The kind of a color: which color space its operands belong to.
#[derive(Clone, Copy, PartialEq, Eq, Structural, Debug)]
pub enum ColorKind {
    Gray,
    Rgb,
    Cmyk,
    Pattern,
}

/// A color: a tagged tuple of fixed-point components, or a reference to a
/// pattern by name and by the node index of its content stream.
#[derive(Debug)]
pub enum Color {
    DeviceGray(Fixed),
    DeviceRGB(Fixed, Fixed, Fixed),
    DeviceCMYK(Fixed, Fixed, Fixed, Fixed),
    Pattern(Name, usize),
}

/// The mathematical value of a color: components, or the pattern's name
/// text and node index.
pub enum ColorV {
    Gray(Fixed),
    Rgb(Fixed, Fixed, Fixed),
    Cmyk(Fixed, Fixed, Fixed, Fixed),
    Pattern(Seq<u8>, usize),
}

impl View for Color {
    type V = ColorV;

    open spec fn view(&self) -> ColorV {
        match self {
            Color::DeviceGray(g) => ColorV::Gray(*g),
            Color::DeviceRGB(r, g, b) => ColorV::Rgb(*r, *g, *b),
            Color::DeviceCMYK(c, m, y, k) => ColorV::Cmyk(*c, *m, *y, *k),
            Color::Pattern(n, id) => ColorV::Pattern(n@, *id),
        }
    }
}

/// The kind of a color value.
pub open spec fn kind_of(cv: ColorV) -> ColorKind {
    match cv {
        ColorV::Gray(_) => ColorKind::Gray,
        ColorV::Rgb(_, _, _) => ColorKind::Rgb,
        ColorV::Cmyk(_, _, _, _) => ColorKind::Cmyk,
        ColorV::Pattern(_, _) => ColorKind::Pattern,
    }
}

impl Color {
    /// The kind of this color.
    pub fn kind(&self) -> (k: ColorKind)
        ensures
            k == kind_of(self@),
    {
        match self {
            Color::DeviceGray(_) => ColorKind::Gray,
            Color::DeviceRGB(_, _, _) => ColorKind::Rgb,
            Color::DeviceCMYK(_, _, _, _) => ColorKind::Cmyk,
            Color::Pattern(_, _) => ColorKind::Pattern,
        }
    }

    /// Black in the gray color space, the initial color of every context.
    pub fn default() -> (c: Color)
        ensures
            c@ == ColorV::Gray(Fixed { milli: 0 }),
    {
        Color::DeviceGray(Fixed { milli: 0 })
    }

    /// Pure red in the RGB color space.
    pub fn red() -> (c: Color)
        ensures
            c@ == ColorV::Rgb(Fixed { milli: 1000 }, Fixed { milli: 0 }, Fixed { milli: 0 }),
    {
        Color::DeviceRGB(Fixed { milli: 1000 }, Fixed { milli: 0 }, Fixed { milli: 0 })
    }

    /// A copy of this color.
    pub fn dup(&self) -> (c: Color)
        ensures
            c@ == self@,
    {
        match self {
            Color::DeviceGray(g) => Color::DeviceGray(*g),
            Color::DeviceRGB(r, g, b) => Color::DeviceRGB(*r, *g, *b),
            Color::DeviceCMYK(c, m, y, k) => Color::DeviceCMYK(*c, *m, *y, *k),
            Color::Pattern(n, id) => Color::Pattern(n.dup(), *id),
        }
    }
}

/// The view of an optional color.
pub open spec fn opt_color_view(c: Option<Color>) -> Option<ColorV> {
    match c {
        Some(c) => Some(c@),
        None => None,
    }
}

/// A point with fixed-point coordinates.
#[derive(Clone, Copy, PartialEq, Eq, Structural, Debug)]
pub struct Point {
    pub x: Fixed,
    pub y: Fixed,
}

impl Point {
    pub fn new(x: Fixed, y: Fixed) -> (p: Point)
        ensures
            p == (Point { x, y }),
    {
        Point { x, y }
    }

    /// A point with whole-number coordinates.
    pub fn at(x: i32, y: i32) -> (p: Point)
        ensures
            p.x.milli == x as int * 1000,
            p.y.milli == y as int * 1000,
    {
        Point { x: Fixed::from_int(x), y: Fixed::from_int(y) }
    }
}

/// The operand bytes of a point: its two coordinates, space-separated.
pub open spec fn point_bytes(p: Point) -> Seq<u8> {
    fixed_bytes(p.x.milli as int) + seq![32u8] + fixed_bytes(p.y.milli as int)
}

/// A rectangle: origin plus width and height, in fixed-point units.
#[derive(Clone, Copy, PartialEq, Eq, Structural, Debug)]
pub struct Rect {
    pub x: Fixed,
    pub y: Fixed,
    pub w: Fixed,
    pub h: Fixed,
}

impl Rect {
    pub fn new(x: Fixed, y: Fixed, w: Fixed, h: Fixed) -> (r: Rect)
        ensures
            r == (Rect { x, y, w, h }),
    {
        Rect { x, y, w, h }
    }

    /// A rectangle with whole-number coordinates.
    pub fn at(x: i32, y: i32, w: i32, h: i32) -> (r: Rect)
        ensures
            r.x.milli == x as int * 1000,
            r.y.milli == y as int * 1000,
            r.w.milli == w as int * 1000,
            r.h.milli == h as int * 1000,
    {
        Rect { x: Fixed::from_int(x), y: Fixed::from_int(y), w: Fixed::from_int(w), h: Fixed::from_int(h) }
    }

    /// The rectangle as an array value of its four coordinates, for use as
    /// a document object (for example a page's media box).
    pub fn as_data(&self) -> (v: Value)
        ensures
            v matches Value::Array(vs) && vs@ == seq![
                Value::Real(self.x),
                Value::Real(self.y),
                Value::Real(self.w),
                Value::Real(self.h),
            ],
            val_refs(v) == Seq::<usize>::empty(),
    {
        let mut vs: Vec<Value> = Vec::new();
        vs.push(Value::Real(self.x));
        vs.push(Value::Real(self.y));
        vs.push(Value::Real(self.w));
        vs.push(Value::Real(self.h));
        proof {
            assert(vs@ =~= seq![
                Value::Real(self.x),
                Value::Real(self.y),
                Value::Real(self.w),
                Value::Real(self.h),
            ]);
        }
        let v = Value::Array(vs);
        proof {
            let ghost s = (v->Array_0)@;
            assert forall|k: int| 0 <= k < s.len() implies val_refs(#[trigger] s[k]) == Seq::<
                usize,
            >::empty() by {
                assert(val_refs(s[k]) =~= Seq::<usize>::empty());
            }
            crate::pdf::types::lemma_list_refs_empty(s);
            assert(val_refs(v) =~= Seq::<usize>::empty());
        }
        v
    }
}

/// The operand bytes of a rectangle: origin, width and height.
pub open spec fn rect_bytes(r: Rect) -> Seq<u8> {
    fixed_bytes(r.x.milli as int) + seq![32u8] + fixed_bytes(r.y.milli as int) + seq![32u8]
        + fixed_bytes(r.w.milli as int) + seq![32u8] + fixed_bytes(r.h.milli as int)
}

/// The graphics parameters a drawable requests before it renders: the
/// context kind and the fill and stroke colors it needs, if any. Unset
/// channels leave the context's current color untouched.
///
/// Transform, clipping path, text state, line state, rendering intent and
/// blend state are further slots of the format's graphics state; no
/// drawable of this library sets them yet, so they stay extension points
/// rather than fields.
#[derive(Debug)]
pub struct GraphicParameters {
    pub context_type: GraphicsContextType,
    pub fill: Option<Color>,
    pub stroke: Option<Color>,
}

impl GraphicParameters {
    /// Parameters for a normal context requesting the given colors.
    pub fn with_colors(fill: Option<Color>, stroke: Option<Color>) -> (p: GraphicParameters)
        ensures
            p.context_type == GraphicsContextType::Normal,
            p.fill == fill,
            p.stroke == stroke,
    {
        GraphicParameters { context_type: GraphicsContextType::Normal, fill, stroke }
    }

    /// Parameters for the given context kind, requesting no colors.
    pub fn with_type(context_type: GraphicsContextType) -> (p: GraphicParameters)
        ensures
            p.context_type == context_type,
            p.fill is None,
            p.stroke is None,
    {
        GraphicParameters { context_type, fill: None, stroke: None }
    }

    /// Requests the given fill color.
    pub fn fill_color(&mut self, color: Color)
        ensures
            final(self).fill == Some(color),
            final(self).stroke == old(self).stroke,
            final(self).context_type == old(self).context_type,
    {
        self.fill = Some(color);
    }

    /// Requests the given stroke color.
    pub fn stroke_color(&mut self, color: Color)
        ensures
            final(self).stroke == Some(color),
            final(self).fill == old(self).fill,
            final(self).context_type == old(self).context_type,
    {
        self.stroke = Some(color);
    }

    /// Synchronizes the context's color state with the requested colors:
    /// for each requested channel a color-space-selection command is
    /// emitted exactly when the color's kind changes, and the numeric
    /// color-set command is always emitted; a colorless context emits
    /// nothing and keeps its state.
    pub fn update(ctx: &mut GraphicContext, new: &GraphicParameters)
        requires
            old(ctx).wf(),
        ensures
            final(ctx).wf(),
            final(ctx).stream@ == old(ctx).stream@ + (if old(ctx).context_type.spec_color() {
                sync_bytes(kind_of(old(ctx).fill@), opt_color_view(new.fill), false) + sync_bytes(
                    kind_of(old(ctx).stroke@),
                    opt_color_view(new.stroke),
                    true,
                )
            } else {
                Seq::<u8>::empty()
            }),
            final(ctx).fill@ == (if old(ctx).context_type.spec_color() {
                match new.fill {
                    Some(c) => c@,
                    None => old(ctx).fill@,
                }
            } else {
                old(ctx).fill@
            }),
            final(ctx).stroke@ == (if old(ctx).context_type.spec_color() {
                match new.stroke {
                    Some(c) => c@,
                    None => old(ctx).stroke@,
                }
            } else {
                old(ctx).stroke@
            }),
            final(ctx).external_resources@ == old(ctx).external_resources@ + (if old(
                ctx,
            ).context_type.spec_color() {
                (match new.fill {
                    Some(c) => pattern_ids(c@),
                    None => Seq::<usize>::empty(),
                }) + (match new.stroke {
                    Some(c) => pattern_ids(c@),
                    None => Seq::<usize>::empty(),
                })
            } else {
                Seq::<usize>::empty()
            }),
            final(ctx).context_type == old(ctx).context_type,
            final(ctx).resources == old(ctx).resources,
            final(ctx).fonts == old(ctx).fonts,
            final(ctx).font_ref_ids == old(ctx).font_ref_ids,
    {
        let enabled = ctx.context_type.color();
        if enabled {
            match &new.fill {
                Some(c) => ctx.apply_color(c, false),
                None => {},
            }
            match &new.stroke {
                Some(c) => ctx.apply_color(c, true),
                None => {},
            }
            proof {
                assert(final(ctx).stream@ =~= old(ctx).stream@ + (sync_bytes(
                    kind_of(old(ctx).fill@),
                    opt_color_view(new.fill),
                    false,
                ) + sync_bytes(kind_of(old(ctx).stroke@), opt_color_view(new.stroke), true)));
                assert(final(ctx).external_resources@ =~= old(ctx).external_resources@ + ((
                match new.fill {
                    Some(c) => pattern_ids(c@),
                    None => Seq::<usize>::empty(),
                }) + (match new.stroke {
                    Some(c) => pattern_ids(c@),
                    None => Seq::<usize>::empty(),
                })));
            }
        } else {
            proof {
                assert(final(ctx).stream@ =~= old(ctx).stream@ + Seq::<u8>::empty());
                assert(final(ctx).external_resources@ =~= old(ctx).external_resources@
                    + Seq::<usize>::empty());
            }
        }
    }
}

impl Default for GraphicParameters {
    /// Parameters for a normal context requesting no colors.
    fn default() -> (p: GraphicParameters)
        ensures
            p.context_type == GraphicsContextType::Normal,
            p.fill is None,
            p.stroke is None,
    {
        GraphicParameters { context_type: GraphicsContextType::Normal, fill: None, stroke: None }
    }
}

/// Anything the content-stream builder can render: it reports the colors
/// it needs, the fonts it uses, and appends its own command bytes.
pub trait Graphic {
    /// Whether the drawable is in a renderable state.
    spec fn valid(&self) -> bool;

    /// The fill color the drawable requests, if it fills.
    spec fn fill_spec(&self) -> Option<ColorV>;

    /// The stroke color the drawable requests, if it strokes.
    spec fn stroke_spec(&self) -> Option<ColorV>;

    /// The command bytes the drawable emits for its own geometry.
    spec fn commands(&self) -> Seq<u8>;

    /// The fonts the drawable uses: resource name text and font object
    /// node index, in order of use.
    spec fn font_entries(&self) -> Seq<(Seq<u8>, usize)>;

    /// The graphics parameters to synchronize before rendering.
    fn get_graphics_parameters(&self) -> (p: GraphicParameters)
        ensures
            p.context_type == GraphicsContextType::Normal,
            opt_color_view(p.fill) == self.fill_spec(),
            opt_color_view(p.stroke) == self.stroke_spec(),
    ;

    /// The fonts the drawable uses.
    fn fonts(&self) -> (v: Vec<(Name, usize)>)
        ensures
            v@.map_values(|p: (Name, usize)| (p.0@, p.1)) == self.font_entries(),
    ;

    /// Appends the drawable's own commands to the context's stream; the
    /// rest of the context is untouched.
    fn render(&self, out: &mut GraphicContext)
        requires
            self.valid(),
        ensures
            final(out).stream@ == old(out).stream@ + self.commands(),
            final(out).context_type == old(out).context_type,
            final(out).fill == old(out).fill,
            final(out).stroke == old(out).stroke,
            final(out).resources == old(out).resources,
            final(out).fonts == old(out).fonts,
            final(out).external_resources == old(out).external_resources,
            final(out).font_ref_ids == old(out).font_ref_ids,
    ;
}

/// Whether `st` is a compiled pattern object over the content bytes
/// `content`: the payload with its length header, marked as a pattern of
/// pattern type one.
pub open spec fn is_pattern_stream(st: Stream, content: Seq<u8>) -> bool {
    &&& st.data@ == content
    &&& crate::pdf::types::dict_get(st.meta.entries@, "Length".spec_bytes()) == Some(
        Value::Int(content.len() as usize),
    )
    &&& (crate::pdf::types::dict_get(st.meta.entries@, "Type".spec_bytes()) matches Some(tv) && (
    tv matches Value::Name(tn) && tn@ == "Pattern".spec_bytes()))
    &&& crate::pdf::types::dict_get(st.meta.entries@, "PatternType".spec_bytes()) == Some(
        Value::Int(1usize),
    )
}

/// Builds a tiling pattern's content stream through an inner rendering
/// context, colored or colorless.
#[derive(Debug)]
pub struct PatternBuilder {
    pub graphics: GraphicContext,
}

impl PatternBuilder {
    /// A builder whose inner context tracks color exactly when `colored`.
    pub fn new(colored: bool) -> (b: PatternBuilder)
        ensures
            b.graphics.wf(),
            b.graphics.stream@ == Seq::<u8>::empty(),
            b.graphics.context_type == if colored {
                GraphicsContextType::Normal
            } else {
                GraphicsContextType::NoColor
            },
    {
        if !colored {
            PatternBuilder { graphics: GraphicContext::with_type(GraphicsContextType::NoColor) }
        } else {
            PatternBuilder { graphics: GraphicContext::with_type(GraphicsContextType::Normal) }
        }
    }

    /// Renders a drawable into the pattern's content stream: colors are
    /// synchronized first (none in a colorless builder), then the
    /// drawable's own commands are appended.
    pub fn add<G: Graphic>(&mut self, g: &G)
        requires
            g.valid(),
            old(self).graphics.wf(),
        ensures
            final(self).graphics.wf(),
            final(self).graphics.stream@ == old(self).graphics.stream@ + (if old(
                self,
            ).graphics.context_type.spec_color() {
                sync_bytes(kind_of(old(self).graphics.fill@), g.fill_spec(), false) + sync_bytes(
                    kind_of(old(self).graphics.stroke@),
                    g.stroke_spec(),
                    true,
                )
            } else {
                Seq::<u8>::empty()
            }) + g.commands(),
            final(self).graphics.context_type == old(self).graphics.context_type,
            final(self).graphics.resources == old(self).graphics.resources,
            dict_view(final(self).graphics.fonts.entries@) == fonts_after(
                dict_view(old(self).graphics.fonts.entries@),
                g.font_entries(),
            ),
            final(self).graphics.font_ref_ids@ == old(self).graphics.font_ref_ids@ + font_ids(
                g.font_entries(),
            ),
    {
        self.graphics.render(g);
    }

    /// Compiles the pattern's content stream, marks it as a pattern
    /// object in the document graph, and returns the pattern color that
    /// references it under the given resource name.
    #[verifier::rlimit(100)]
    pub fn render(self, name: Name, w: &mut PDFWrite) -> (c: Color)
        requires
            self.graphics.wf(),
            old(w).wf(),
            old(w).objects@.len() + 2 <= usize::MAX,
        ensures
            final(w).wf(),
            c matches Color::Pattern(n, id) && n@ == name@ && id == old(w).objects@.len(),
            final(w).objects@.len() == old(w).objects@.len() + 1,
            final(w).order@ == old(w).order@,
            final(w).trailer == old(w).trailer,
            forall|j: int|
                0 <= j < old(w).objects@.len() ==> final(w).objects@[j] == old(w).objects@[j],
            final(w).objects@[old(w).objects@.len() as int].num is None,
            final(w).objects@[old(w).objects@.len() as int].gen == 0,
            final(w).objects@[old(w).objects@.len() as int].data matches Some(v) && (v
                matches Value::Stream(st) && is_pattern_stream(st, self.graphics.stream@)),
    {
        let (st, _resources) = self.graphics.compile();
        let mut meta = st.meta;
        let k1 = Name::new("Type");
        let v1 = Value::Name(Name::new("Pattern"));
        let k2 = Name::new("PatternType");
        let v2 = Value::Int(1);
        let ghost meta0 = meta.entries@;
        proof {
            crate::pdf::types::lemma_key_literals();
            assert("Length".spec_bytes().len() == 6);
            assert("Type".spec_bytes().len() == 4);
            assert("PatternType".spec_bytes().len() == 11);
            crate::pdf::types::lemma_dict_insert_get(meta0, k1, v1, "Length".spec_bytes());
            crate::pdf::types::lemma_dict_insert_get(meta0, k1, v1, "Type".spec_bytes());
        }
        meta.add_entry(k1, v1);
        let ghost meta1 = meta.entries@;
        proof {
            crate::pdf::types::lemma_dict_insert_get(meta1, k2, v2, "Length".spec_bytes());
            crate::pdf::types::lemma_dict_insert_get(meta1, k2, v2, "Type".spec_bytes());
            crate::pdf::types::lemma_dict_insert_get(meta1, k2, v2, "PatternType".spec_bytes());
        }
        meta.add_entry(k2, v2);
        let st = Stream { meta, data: st.data };
        let v = Value::Stream(st);
        proof {
            assert forall|i: int| 0 <= i < val_refs(v).len() implies (((#[trigger] val_refs(
                v,
            )[i]) as int) < old(w).objects@.len() + 1) by {
                let refs = val_refs(v);
                assert(refs.contains(refs[i]));
                crate::pdf::types::lemma_dict_insert_refs_mem(meta1, k2, v2, refs[i]);
                crate::pdf::types::lemma_dict_insert_refs_mem(meta0, k1, v1, refs[i]);
                assert(!entries_refs(meta0).contains(refs[i]));
                assert(val_refs(v1) =~= Seq::<usize>::empty());
                assert(val_refs(v2) =~= Seq::<usize>::empty());
                assert(false);
            }
        }
        let id = w.insert(ObjRef::new(0, v));
        Color::Pattern(name, id)
    }
}

} // verus!
