//! The text builder and its rendered form, the fourteen standard fonts,
//! and the document text encoding.

use vstd::prelude::*;
use vstd::string::StringSliceAdditionalSpecFns;
use vstd::string::StrSliceExecFns;
use crate::num::{fixed_bytes, Fixed};
use crate::graphics::context::{
    opt_color_view, point_bytes, Color, ColorV, Graphic, GraphicParameters, GraphicsContextType,
    Point,
};
use crate::graphics::{params_bytes, GraphicContext, Parameter};
use crate::pdf::types::{dict_get, entries_refs, val_refs};
use crate::pdf::{Dict, Name, ObjRef, PDFWrite, Value};

verus! {

/// The font program kinds of the standard font descriptors.
#[derive(Clone, Copy, PartialEq, Eq, Structural, Debug)]
pub enum FontType {
    Type1,
    MMType1,
}

impl FontType {
    /// The subtype name for this font kind.
    pub fn to_name(&self) -> (n: Name)
        ensures
            n@ == match self {
                FontType::Type1 => "Type1".spec_bytes(),
                FontType::MMType1 => "MMType1".spec_bytes(),
            },
    {
        match self {
            FontType::Type1 => Name::new("Type1"),
            FontType::MMType1 => Name::new("MMType1"),
        }
    }
}

/// Whether `d` is a standard font descriptor dictionary: type `Font`, the
/// given subtype name, and the given base font name.
pub open spec fn is_font_dict(d: Dict, subtype: Seq<u8>, base: Seq<u8>) -> bool {
    &&& (dict_get(d.entries@, "Type".spec_bytes()) matches Some(tv) && (tv matches Value::Name(tn)
        && tn@ == "Font".spec_bytes()))
    &&& (dict_get(d.entries@, "Subtype".spec_bytes()) matches Some(sv) && (sv
        matches Value::Name(sn) && sn@ == subtype))
    &&& (dict_get(d.entries@, "BaseFont".spec_bytes()) matches Some(bv) && (bv
        matches Value::Name(bn) && bn@ == base))
}

/// The subtype name text of a font kind.
pub open spec fn subtype_bytes(t: FontType) -> Seq<u8> {
    match t {
        FontType::Type1 => "Type1".spec_bytes(),
        FontType::MMType1 => "MMType1".spec_bytes(),
    }
}

/// A font descriptor: its subtype and base font name, with the optional
/// metric entries the standard fonts leave unset.
#[derive(Debug)]
pub struct FontObject {
    pub subtype: FontType,
    pub base_font: Name,
    pub first_char: Option<usize>,
    pub last_char: Option<usize>,
    pub widths: Option<usize>,
    pub font_descriptor: Option<usize>,
    pub encoding: Option<usize>,
    pub to_unicode: Option<usize>,
}

impl FontObject {
    pub fn new(
        subtype: FontType,
        base_font: Name,
        first_char: Option<usize>,
        last_char: Option<usize>,
        widths: Option<usize>,
        font_descriptor: Option<usize>,
        encoding: Option<usize>,
        to_unicode: Option<usize>,
    ) -> (f: FontObject)
        ensures
            f.subtype == subtype,
            f.base_font@ == base_font@,
    {
        FontObject {
            subtype,
            base_font,
            first_char,
            last_char,
            widths,
            font_descriptor,
            encoding,
            to_unicode,
        }
    }

    /// The descriptor as a document value: a dictionary naming the type,
    /// subtype and base font. It references no other node.
    #[verifier::rlimit(100)]
    pub fn value(self) -> (v: Value)
        ensures
            v matches Value::Dict(d) && is_font_dict(d, subtype_bytes(self.subtype), self.base_font@),
            val_refs(v) == Seq::<usize>::empty(),
    {
        let mut d = Dict::new();
        let ghost e0 = d.entries@;
        let k1 = Name::new("Type");
        let v1 = Value::Name(Name::new("Font"));
        proof {
            crate::pdf::types::lemma_key_literals();
            assert("Type".spec_bytes().len() == 4);
            assert("Subtype".spec_bytes().len() == 7);
            assert("BaseFont".spec_bytes().len() == 8);
            crate::pdf::types::lemma_dict_insert_get(e0, k1, v1, "Type".spec_bytes());
        }
        d.add_entry(k1, v1);
        let ghost e1 = d.entries@;
        let k2 = Name::new("Subtype");
        let v2 = Value::Name(self.subtype.to_name());
        proof {
            crate::pdf::types::lemma_dict_insert_get(e1, k2, v2, "Type".spec_bytes());
            crate::pdf::types::lemma_dict_insert_get(e1, k2, v2, "Subtype".spec_bytes());
        }
        d.add_entry(k2, v2);
        let ghost e2 = d.entries@;
        let k3 = Name::new("BaseFont");
        let v3 = Value::Name(self.base_font);
        proof {
            crate::pdf::types::lemma_dict_insert_get(e2, k3, v3, "Type".spec_bytes());
            crate::pdf::types::lemma_dict_insert_get(e2, k3, v3, "Subtype".spec_bytes());
            crate::pdf::types::lemma_dict_insert_get(e2, k3, v3, "BaseFont".spec_bytes());
        }
        d.add_entry(k3, v3);
        let v = Value::Dict(d);
        proof {
            assert forall|r: usize| !val_refs(v).contains(r) by {
                crate::pdf::types::lemma_dict_insert_refs_mem(e2, k3, v3, r);
                crate::pdf::types::lemma_dict_insert_refs_mem(e1, k2, v2, r);
                crate::pdf::types::lemma_dict_insert_refs_mem(e0, k1, v1, r);
                assert(!entries_refs(e0).contains(r));
                assert(val_refs(v1) =~= Seq::<usize>::empty());
                assert(val_refs(v2) =~= Seq::<usize>::empty());
                assert(val_refs(v3) =~= Seq::<usize>::empty());
            }
            if val_refs(v).len() > 0 {
                assert(val_refs(v).contains(val_refs(v)[0]));
            }
            assert(val_refs(v) =~= Seq::<usize>::empty());
        }
        v
    }
}

/// A standard font: the resource name it is registered under and the node
/// index of its descriptor object in the document graph.
#[derive(Debug)]
pub struct Font {
    pub name: Name,
    pub object: usize,
}

impl Font {
    /// The font's resource name.
    pub fn name(&self) -> (n: Name)
        ensures
            n@ == self.name@,
    {
        self.name.dup()
    }

    /// The node index of the font's descriptor object.
    pub fn object(&self) -> (id: usize)
        ensures
            id == self.object,
    {
        self.object
    }

    /// A copy of this font handle.
    pub fn dup(&self) -> (f: Font)
        ensures
            f.name@ == self.name@,
            f.object == self.object,
    {
        Font { name: self.name.dup(), object: self.object }
    }
}

/// Places a standard font descriptor into the document graph and returns
/// its handle.
fn make_font(w: &mut PDFWrite, name_text: &str, base: &str) -> (f: Font)
    requires
        old(w).wf(),
        old(w).objects@.len() + 2 <= usize::MAX,
    ensures
        final(w).wf(),
        f.name@ == name_text.spec_bytes(),
        f.object == old(w).objects@.len(),
        final(w).objects@.len() == old(w).objects@.len() + 1,
        final(w).objects@[f.object as int].num is None,
        final(w).objects@[f.object as int].gen == 0,
        final(w).objects@[f.object as int].data matches Some(v) && (val_refs(v) == Seq::<
            usize,
        >::empty() && (v matches Value::Dict(d) && is_font_dict(
            d,
            "Type1".spec_bytes(),
            base.spec_bytes(),
        ))),
        forall|j: int|
            0 <= j < old(w).objects@.len() ==> final(w).objects@[j] == old(w).objects@[j],
        final(w).order@ == old(w).order@,
        final(w).cur_num == old(w).cur_num,
        final(w).trailer == old(w).trailer,
{
    let fo = FontObject::new(
        FontType::Type1,
        Name::new(base),
        None,
        None,
        None,
        None,
        None,
        None,
    );
    let v = fo.value();
    let id = w.insert(ObjRef::new(0, v));
    Font { name: Name::new(name_text), object: id }
}

impl Font {
    /// One of the fourteen standard fonts.
    pub fn times_new_roman(w: &mut PDFWrite) -> (f: Font)
        requires
            old(w).wf(),
            old(w).objects@.len() + 2 <= usize::MAX,
        ensures
            final(w).wf(),
            font_ctor_ensures(*old(w), *final(w), f, "timesroman".spec_bytes(), "Times-Roman".spec_bytes()),
    {
        make_font(w, "timesroman", "Times-Roman")
    }

    /// One of the fourteen standard fonts.
    pub fn helvetica(w: &mut PDFWrite) -> (f: Font)
        requires
            old(w).wf(),
            old(w).objects@.len() + 2 <= usize::MAX,
        ensures
            final(w).wf(),
            font_ctor_ensures(*old(w), *final(w), f, "helvetica".spec_bytes(), "Helvetica".spec_bytes()),
    {
        make_font(w, "helvetica", "Helvetica")
    }

    /// One of the fourteen standard fonts.
    pub fn courier(w: &mut PDFWrite) -> (f: Font)
        requires
            old(w).wf(),
            old(w).objects@.len() + 2 <= usize::MAX,
        ensures
            final(w).wf(),
            font_ctor_ensures(*old(w), *final(w), f, "courier".spec_bytes(), "Courier".spec_bytes()),
    {
        make_font(w, "courier", "Courier")
    }

    /// One of the fourteen standard fonts.
    pub fn symbol(w: &mut PDFWrite) -> (f: Font)
        requires
            old(w).wf(),
            old(w).objects@.len() + 2 <= usize::MAX,
        ensures
            final(w).wf(),
            font_ctor_ensures(*old(w), *final(w), f, "symbol".spec_bytes(), "Symbol".spec_bytes()),
    {
        make_font(w, "symbol", "Symbol")
    }

    /// One of the fourteen standard fonts.
    pub fn times_bold(w: &mut PDFWrite) -> (f: Font)
        requires
            old(w).wf(),
            old(w).objects@.len() + 2 <= usize::MAX,
        ensures
            final(w).wf(),
            font_ctor_ensures(*old(w), *final(w), f, "timesbold".spec_bytes(), "Times-Bold".spec_bytes()),
    {
        make_font(w, "timesbold", "Times-Bold")
    }

    /// One of the fourteen standard fonts.
    pub fn helvetica_bold(w: &mut PDFWrite) -> (f: Font)
        requires
            old(w).wf(),
            old(w).objects@.len() + 2 <= usize::MAX,
        ensures
            final(w).wf(),
            font_ctor_ensures(*old(w), *final(w), f, "helveticabold".spec_bytes(), "helveticabold".spec_bytes()),
    {
        make_font(w, "helveticabold", "helveticabold")
    }

    /// One of the fourteen standard fonts.
    pub fn courier_bold(w: &mut PDFWrite) -> (f: Font)
        requires
            old(w).wf(),
            old(w).objects@.len() + 2 <= usize::MAX,
        ensures
            final(w).wf(),
            font_ctor_ensures(*old(w), *final(w), f, "courierbold".spec_bytes(), "Courier-Bold".spec_bytes()),
    {
        make_font(w, "courierbold", "Courier-Bold")
    }

    /// One of the fourteen standard fonts.
    pub fn zapf_dingbats(w: &mut PDFWrite) -> (f: Font)
        requires
            old(w).wf(),
            old(w).objects@.len() + 2 <= usize::MAX,
        ensures
            final(w).wf(),
            font_ctor_ensures(*old(w), *final(w), f, "zapfdingbats".spec_bytes(), "ZapfDingbats".spec_bytes()),
    {
        make_font(w, "zapfdingbats", "ZapfDingbats")
    }

    /// One of the fourteen standard fonts.
    pub fn times_italic(w: &mut PDFWrite) -> (f: Font)
        requires
            old(w).wf(),
            old(w).objects@.len() + 2 <= usize::MAX,
        ensures
            final(w).wf(),
            font_ctor_ensures(*old(w), *final(w), f, "timesitalic".spec_bytes(), "Times-Italic".spec_bytes()),
    {
        make_font(w, "timesitalic", "Times-Italic")
    }

    /// One of the fourteen standard fonts.
    pub fn helvetica_oblique(w: &mut PDFWrite) -> (f: Font)
        requires
            old(w).wf(),
            old(w).objects@.len() + 2 <= usize::MAX,
        ensures
            final(w).wf(),
            font_ctor_ensures(*old(w), *final(w), f, "helveticaoblique".spec_bytes(), "helveticaoblique".spec_bytes()),
    {
        make_font(w, "helveticaoblique", "helveticaoblique")
    }

    /// One of the fourteen standard fonts.
    pub fn courier_oblique(w: &mut PDFWrite) -> (f: Font)
        requires
            old(w).wf(),
            old(w).objects@.len() + 2 <= usize::MAX,
        ensures
            final(w).wf(),
            font_ctor_ensures(*old(w), *final(w), f, "courieroblique".spec_bytes(), "Courier-Oblique".spec_bytes()),
    {
        make_font(w, "courieroblique", "Courier-Oblique")
    }

    /// One of the fourteen standard fonts.
    pub fn times_bold_italic(w: &mut PDFWrite) -> (f: Font)
        requires
            old(w).wf(),
            old(w).objects@.len() + 2 <= usize::MAX,
        ensures
            final(w).wf(),
            font_ctor_ensures(*old(w), *final(w), f, "timesbolditalic".spec_bytes(), "Times-BoldItalic".spec_bytes()),
    {
        make_font(w, "timesbolditalic", "Times-BoldItalic")
    }

    /// One of the fourteen standard fonts.
    pub fn helvetica_bold_oblique(w: &mut PDFWrite) -> (f: Font)
        requires
            old(w).wf(),
            old(w).objects@.len() + 2 <= usize::MAX,
        ensures
            final(w).wf(),
            font_ctor_ensures(*old(w), *final(w), f, "helveticaboldoblique".spec_bytes(), "Helvetica-BoldOblique".spec_bytes()),
    {
        make_font(w, "helveticaboldoblique", "Helvetica-BoldOblique")
    }

    /// One of the fourteen standard fonts.
    pub fn courier_bold_oblique(w: &mut PDFWrite) -> (f: Font)
        requires
            old(w).wf(),
            old(w).objects@.len() + 2 <= usize::MAX,
        ensures
            final(w).wf(),
            font_ctor_ensures(*old(w), *final(w), f, "courierboldoblique".spec_bytes(), "Courier-BoldOblique".spec_bytes()),
    {
        make_font(w, "courierboldoblique", "Courier-BoldOblique")
    }
}

/// What every standard-font constructor guarantees: a fresh, unregistered
/// descriptor node holding the named base font, and a handle to it.
pub open spec fn font_ctor_ensures(
    w0: PDFWrite,
    w1: PDFWrite,
    f: Font,
    name: Seq<u8>,
    base: Seq<u8>,
) -> bool {
    &&& f.name@ == name
    &&& f.object == w0.objects@.len()
    &&& w1.objects@.len() == w0.objects@.len() + 1
    &&& w1.objects@[f.object as int].num is None
    &&& w1.objects@[f.object as int].gen == 0
    &&& (w1.objects@[f.object as int].data matches Some(v) && val_refs(v) == Seq::<
        usize,
    >::empty() && (v matches Value::Dict(d) && is_font_dict(d, "Type1".spec_bytes(), base)))
    &&& forall|j: int| 0 <= j < w0.objects@.len() ==> w1.objects@[j] == w0.objects@[j]
    &&& w1.order@ == w0.order@
    &&& w1.cur_num == w0.cur_num
    &&& w1.trailer == w0.trailer
}

/// One run of text: the bytes to show, preceded by a font change and a
/// position change when they were requested since the last run.
#[derive(Debug)]
pub struct TextPart {
    pub text: Vec<u8>,
    pub font: Option<(Font, Fixed)>,
    pub pos: Option<Point>,
}

/// The text builder: accumulated runs plus the pending font and position
/// state, with flags recording whether they changed since the last run.
#[derive(Debug)]
pub struct Text {
    pub parts: Vec<TextPart>,
    pub font: Font,
    pub size: Fixed,
    pub font_new: bool,
    pub pos: Point,
    pub pos_new: bool,
}

impl Text {
    /// Starts a text object in the given font and size, at the origin.
    pub fn new(font: Font, size: Fixed) -> (t: Text)
        ensures
            t.parts@ == Seq::<TextPart>::empty(),
            t.font.name@ == font.name@,
            t.font.object == font.object,
            t.size == size,
            t.font_new,
            t.pos == (Point { x: Fixed { milli: 0 }, y: Fixed { milli: 0 } }),
            t.pos_new,
    {
        Text {
            parts: Vec::new(),
            font,
            size,
            font_new: true,
            pos: Point { x: Fixed { milli: 0 }, y: Fixed { milli: 0 } },
            pos_new: true,
        }
    }

    /// Moves the text position; a move back to the current position
    /// after a run changes nothing.
    pub fn move_to(self, p: Point) -> (t: Text)
        ensures
            t.parts == self.parts,
            t.font == self.font,
            t.size == self.size,
            t.font_new == self.font_new,
            t.pos == p,
            t.pos_new == (self.pos_new || p != self.pos),
    {
        let Text { parts, font, size, font_new, pos, pos_new } = self;
        if pos_new {
            Text { parts, font, size, font_new, pos: p, pos_new: true }
        } else if p != pos {
            Text { parts, font, size, font_new, pos: p, pos_new: true }
        } else {
            Text { parts, font, size, font_new, pos: p, pos_new: false }
        }
    }

    /// Switches font and size; switching to the current pair after a run
    /// changes nothing.
    pub fn with_font(self, font: Font, size: Fixed) -> (t: Text)
        ensures
            t.parts == self.parts,
            t.font.name@ == font.name@,
            t.font.object == font.object,
            t.size == size,
            t.pos == self.pos,
            t.pos_new == self.pos_new,
            t.font_new == (self.font_new || font.name@ != self.font.name@ || size != self.size),
    {
        let Text { parts, font: cur_font, size: cur_size, font_new, pos, pos_new } = self;
        let same = cur_font.name.same_name(&font.name) && size == cur_size;
        if font_new {
            Text { parts, font, size, font_new: true, pos, pos_new }
        } else if !same {
            Text { parts, font, size, font_new: true, pos, pos_new }
        } else {
            Text { parts, font, size, font_new: false, pos, pos_new }
        }
    }

    /// Changes the font size only.
    pub fn font_size(self, size: Fixed) -> (t: Text)
        ensures
            t.parts == self.parts,
            t.font.name@ == self.font.name@,
            t.font.object == self.font.object,
            t.size == size,
            t.pos == self.pos,
            t.pos_new == self.pos_new,
            t.font_new == (self.font_new || size != self.size),
    {
        let f = self.font.dup();
        self.with_font(f, size)
    }

    /// Adds a run showing `p`, carrying the pending font and position
    /// changes; the pending flags are consumed.
    pub fn text(self, p: &str) -> (t: Text)
        ensures
            t.parts@.len() == self.parts@.len() + 1,
            forall|i: int| 0 <= i < self.parts@.len() ==> t.parts@[i] == self.parts@[i],
            t.parts@.last().text@ == p.spec_bytes(),
            self.font_new ==> (t.parts@.last().font matches Some((f, sz)) && (f.name@
                == self.font.name@ && f.object == self.font.object && sz == self.size)),
            !self.font_new ==> t.parts@.last().font is None,
            t.parts@.last().pos == if self.pos_new {
                Some(self.pos)
            } else {
                None::<Point>
            },
            t.font.name@ == self.font.name@,
            t.font.object == self.font.object,
            t.size == self.size,
            t.pos == self.pos,
            !t.font_new && !t.pos_new,
    {
        let Text { mut parts, font, size, font_new, pos, pos_new } = self;
        let part = TextPart {
            text: p.as_bytes_vec(),
            font: if font_new {
                Some((font.dup(), size))
            } else {
                None
            },
            pos: if pos_new {
                Some(pos)
            } else {
                None
            },
        };
        parts.push(part);
        Text { parts, font, size, font_new: false, pos, pos_new: false }
    }

    /// Finishes the text with a fill color.
    pub fn fill(self, color: Color) -> (g: GraphicText)
        ensures
            g.parts == self.parts,
            opt_color_view(g.fill) == Some(color@),
            g.stroke is None,
    {
        GraphicText { parts: self.parts, fill: Some(color), stroke: None }
    }
}

/// The command bytes of one text run.
pub open spec fn text_part_bytes(p: TextPart) -> Seq<u8> {
    (match p.font {
        Some((f, sz)) => seq![32u8, 47u8] + f.name@ + seq![32u8] + fixed_bytes(sz.milli as int)
            + seq![32u8, 84u8, 102u8],
        None => Seq::<u8>::empty(),
    }) + (match p.pos {
        Some(pt) => seq![32u8] + point_bytes(pt) + seq![32u8, 84u8, 100u8],
        None => Seq::<u8>::empty(),
    }) + seq![32u8, 40u8] + p.text@ + seq![41u8, 32u8, 84u8, 106u8]
}

pub open spec fn text_parts_bytes(s: Seq<TextPart>) -> Seq<u8>
    decreases s.len(),
{
    if s.len() == 0 {
        Seq::empty()
    } else {
        text_parts_bytes(s.drop_last()) + text_part_bytes(s.last())
    }
}

/// The font uses of a run of text parts, in order.
pub open spec fn parts_fonts(s: Seq<TextPart>) -> Seq<(Seq<u8>, usize)>
    decreases s.len(),
{
    if s.len() == 0 {
        Seq::empty()
    } else {
        parts_fonts(s.drop_last()) + (match s.last().font {
            Some((f, _)) => seq![(f.name@, f.object)],
            None => Seq::<(Seq<u8>, usize)>::empty(),
        })
    }
}

/// A finished text object with its colors.
#[derive(Debug)]
pub struct GraphicText {
    pub parts: Vec<TextPart>,
    pub fill: Option<Color>,
    pub stroke: Option<Color>,
}

impl Graphic for GraphicText {
    open spec fn valid(&self) -> bool {
        true
    }

    open spec fn fill_spec(&self) -> Option<ColorV> {
        opt_color_view(self.fill)
    }

    open spec fn stroke_spec(&self) -> Option<ColorV> {
        opt_color_view(self.stroke)
    }

    open spec fn commands(&self) -> Seq<u8> {
        seq![32u8, 66u8, 84u8] + text_parts_bytes(self.parts@) + seq![32u8, 69u8, 84u8]
    }

    open spec fn font_entries(&self) -> Seq<(Seq<u8>, usize)> {
        parts_fonts(self.parts@)
    }

    fn get_graphics_parameters(&self) -> (p: GraphicParameters) {
        GraphicParameters {
            context_type: GraphicsContextType::Normal,
            fill: match &self.fill {
                Some(c) => Some(c.dup()),
                None => None,
            },
            stroke: match &self.stroke {
                Some(c) => Some(c.dup()),
                None => None,
            },
        }
    }

    #[verifier::loop_isolation(false)]
    fn fonts(&self) -> (v: Vec<(Name, usize)>) {
        let mut v: Vec<(Name, usize)> = Vec::new();
        let mut i: usize = 0;
        while i < self.parts.len()
            invariant
                i <= self.parts@.len(),
                v@.map_values(|p: (Name, usize)| (p.0@, p.1)) == parts_fonts(
                    self.parts@.take(i as int),
                ),
            decreases self.parts@.len() - i,
        {
            match &self.parts[i].font {
                Some((f, _)) => {
                    v.push((f.name.dup(), f.object));
                },
                None => {},
            }
            proof {
                assert(self.parts@.take(i + 1).drop_last() =~= self.parts@.take(i as int));
                assert(self.parts@.take(i + 1).last() == self.parts@[i as int]);
                assert(v@.map_values(|p: (Name, usize)| (p.0@, p.1)) =~= parts_fonts(
                    self.parts@.take(i + 1),
                ));
            }
            i = i + 1;
        }
        proof {
            assert(self.parts@.take(self.parts@.len() as int) =~= self.parts@);
        }
        v
    }

    #[verifier::loop_isolation(false)]
    #[verifier::rlimit(100)]
    fn render(&self, out: &mut GraphicContext) {
        let ghost start = out.stream@;
        let ps0: Vec<Parameter> = Vec::new();
        let mut op: Vec<u8> = Vec::new();
        op.push(66);
        op.push(84);
        out.command(&ps0, &op);
        let ghost after_bt = out.stream@;
        proof {
            assert(after_bt =~= start + seq![32u8, 66u8, 84u8]);
        }
        let mut i: usize = 0;
        while i < self.parts.len()
            invariant
                i <= self.parts@.len(),
                out.stream@ == after_bt + text_parts_bytes(self.parts@.take(i as int)),
                out.context_type == old(out).context_type,
                out.fill == old(out).fill,
                out.stroke == old(out).stroke,
                out.resources == old(out).resources,
                out.fonts == old(out).fonts,
                out.external_resources == old(out).external_resources,
                out.font_ref_ids == old(out).font_ref_ids,
            decreases self.parts@.len() - i,
        {
            let ghost part_start = out.stream@;
            let part = &self.parts[i];
            match &part.font {
                Some((f, sz)) => {
                    let mut ps: Vec<Parameter> = Vec::new();
                    ps.push(Parameter::from_name(&f.name));
                    ps.push(Parameter::from_fixed(*sz));
                    let mut op: Vec<u8> = Vec::new();
                    op.push(84);
                    op.push(102);
                    proof {
                        let pv = ps@.map_values(|p: Parameter| p@);
                    reveal_with_fuel(params_bytes, 6);
                        assert(pv.len() == 2);
                        assert(pv[0] == ps@[0]@);
                        assert(pv[1] == ps@[1]@);
                        assert(pv.drop_last() =~= pv.take(1));
                        assert(pv.take(1).drop_last() =~= pv.take(0));
                        assert(pv.take(1).last() == pv[0]);
                        assert(pv.last() == pv[1]);
                        assert(params_bytes(pv.take(0)) == Seq::<u8>::empty());
                    }
                    out.command(&ps, &op);
                    proof {
                        let pv = ps@.map_values(|p: Parameter| p@);
                    reveal_with_fuel(params_bytes, 6);
                        assert(params_bytes(pv) =~= seq![32u8, 47u8] + f.name@ + seq![32u8]
                            + fixed_bytes(sz.milli as int));
                        assert(out.stream@ =~= part_start + seq![32u8, 47u8] + f.name@
                            + seq![32u8] + fixed_bytes(sz.milli as int) + seq![
                            32u8,
                            84u8,
                            102u8,
                        ]);
                    }
                },
                None => {},
            }
            proof {
                assert(out.stream@ =~= part_start + (match self.parts@[i as int].font {
                    Some((f, sz)) => seq![32u8, 47u8] + f.name@ + seq![32u8] + fixed_bytes(
                        sz.milli as int,
                    ) + seq![32u8, 84u8, 102u8],
                    None => Seq::<u8>::empty(),
                }));
            }
            let ghost after_font = out.stream@;
            match &part.pos {
                Some(pt) => {
                    let mut ps: Vec<Parameter> = Vec::new();
                    ps.push(Parameter::from_point(*pt));
                    let mut op: Vec<u8> = Vec::new();
                    op.push(84);
                    op.push(100);
                    proof {
                        let pv = ps@.map_values(|p: Parameter| p@);
                    reveal_with_fuel(params_bytes, 6);
                        assert(pv.len() == 1);
                        assert(pv[0] == ps@[0]@);
                        assert(pv.last() == pv[0]);
                        assert(pv.drop_last() =~= pv.take(0));
                        assert(params_bytes(pv.drop_last()) == Seq::<u8>::empty());
                    }
                    out.command(&ps, &op);
                    proof {
                        let pv = ps@.map_values(|p: Parameter| p@);
                    reveal_with_fuel(params_bytes, 6);
                        assert(params_bytes(pv) =~= seq![32u8] + point_bytes(*pt));
                        assert(out.stream@ =~= after_font + seq![32u8] + point_bytes(*pt) + seq![
                            32u8,
                            84u8,
                            100u8,
                        ]);
                    }
                },
                None => {},
            }
            proof {
                assert(out.stream@ =~= after_font + (match self.parts@[i as int].pos {
                    Some(pt) => seq![32u8] + point_bytes(pt) + seq![32u8, 84u8, 100u8],
                    None => Seq::<u8>::empty(),
                }));
            }
            let mut ps: Vec<Parameter> = Vec::new();
            ps.push(Parameter::from_text(&part.text));
            let mut op: Vec<u8> = Vec::new();
            op.push(84);
            op.push(106);
            let ghost after_pos = out.stream@;
            proof {
                let pv = ps@.map_values(|p: Parameter| p@);
                    reveal_with_fuel(params_bytes, 6);
                assert(pv.len() == 1);
                assert(pv[0] == ps@[0]@);
                assert(pv.last() == pv[0]);
                assert(pv.drop_last() =~= pv.take(0));
                assert(params_bytes(pv.drop_last()) == Seq::<u8>::empty());
            }
            out.command(&ps, &op);
            proof {
                let pv = ps@.map_values(|p: Parameter| p@);
                    reveal_with_fuel(params_bytes, 6);
                assert(params_bytes(pv) =~= seq![32u8, 40u8] + self.parts@[i as int].text@
                    + seq![41u8]);
                assert(out.stream@ =~= after_pos + seq![32u8, 40u8] + self.parts@[i as int].text@
                    + seq![41u8, 32u8, 84u8, 106u8]);
                assert(out.stream@ =~= part_start + text_part_bytes(self.parts@[i as int]));
                assert(self.parts@.take(i + 1).drop_last() =~= self.parts@.take(i as int));
                assert(self.parts@.take(i + 1).last() == self.parts@[i as int]);
                assert(out.stream@ =~= after_bt + text_parts_bytes(self.parts@.take(i + 1)));
            }
            i = i + 1;
        }
        proof {
            assert(self.parts@.take(self.parts@.len() as int) =~= self.parts@);
        }
        let ps1: Vec<Parameter> = Vec::new();
        let mut op: Vec<u8> = Vec::new();
        op.push(69);
        op.push(84);
        out.command(&ps1, &op);
        proof {
            assert(out.stream@ =~= start + self.commands());
        }
    }
}

/// The scalar value a byte of the document text encoding stands for, or
/// nothing for the three undefined code points. Bytes outside the special
/// ranges stand for themselves.
pub open spec fn spec_decode(c: u8) -> Option<u32> {
    if c == 0x7f || c == 0x9f || c == 0xad {
        None
    } else {
        match c {
        22u8 => Some(0x17u32),
        23u8 => Some(0x17u32),
        24u8 => Some(0x2D8u32),
        25u8 => Some(0x2C7u32),
        26u8 => Some(0x2C6u32),
        27u8 => Some(0x2D9u32),
        28u8 => Some(0x2DDu32),
        29u8 => Some(0x2DBu32),
        30u8 => Some(0x2DAu32),
        31u8 => Some(0x2DCu32),
        128u8 => Some(0x2022u32),
        129u8 => Some(0x2020u32),
        130u8 => Some(0x2021u32),
        131u8 => Some(0x2026u32),
        132u8 => Some(0x2014u32),
        133u8 => Some(0x2013u32),
        134u8 => Some(0x192u32),
        135u8 => Some(0x2044u32),
        136u8 => Some(0x2039u32),
        137u8 => Some(0x203Au32),
        138u8 => Some(0x2212u32),
        139u8 => Some(0x2030u32),
        140u8 => Some(0x201Eu32),
        141u8 => Some(0x201Cu32),
        142u8 => Some(0x201Du32),
        143u8 => Some(0x2018u32),
        144u8 => Some(0x2019u32),
        145u8 => Some(0x201Au32),
        146u8 => Some(0x2122u32),
        147u8 => Some(0xFB01u32),
        148u8 => Some(0xFB02u32),
        149u8 => Some(0x141u32),
        150u8 => Some(0x152u32),
        151u8 => Some(0x160u32),
        152u8 => Some(0x178u32),
        153u8 => Some(0x17Du32),
        154u8 => Some(0x131u32),
        155u8 => Some(0x142u32),
        156u8 => Some(0x153u32),
        157u8 => Some(0x161u32),
        158u8 => Some(0x17Eu32),
        160u8 => Some(0x20ACu32),
            _ => Some(c as u32),
        }
    }
}

/// Decodes one byte of the document text encoding.
pub fn decode(c: u8) -> (u: Option<u32>)
    ensures
        u == spec_decode(c),
{
    if c == 0x7f || c == 0x9f || c == 0xad {
        return None;
    }
    match c {
        22 => Some(0x17),
        23 => Some(0x17),
        24 => Some(0x2D8),
        25 => Some(0x2C7),
        26 => Some(0x2C6),
        27 => Some(0x2D9),
        28 => Some(0x2DD),
        29 => Some(0x2DB),
        30 => Some(0x2DA),
        31 => Some(0x2DC),
        128 => Some(0x2022),
        129 => Some(0x2020),
        130 => Some(0x2021),
        131 => Some(0x2026),
        132 => Some(0x2014),
        133 => Some(0x2013),
        134 => Some(0x192),
        135 => Some(0x2044),
        136 => Some(0x2039),
        137 => Some(0x203A),
        138 => Some(0x2212),
        139 => Some(0x2030),
        140 => Some(0x201E),
        141 => Some(0x201C),
        142 => Some(0x201D),
        143 => Some(0x2018),
        144 => Some(0x2019),
        145 => Some(0x201A),
        146 => Some(0x2122),
        147 => Some(0xFB01),
        148 => Some(0xFB02),
        149 => Some(0x141),
        150 => Some(0x152),
        151 => Some(0x160),
        152 => Some(0x178),
        153 => Some(0x17D),
        154 => Some(0x131),
        155 => Some(0x142),
        156 => Some(0x153),
        157 => Some(0x161),
        158 => Some(0x17E),
        160 => Some(0x20AC),
        _ => Some(c as u32),
    }
}

} // verus!
