//! The path builder and its rendered form: subpaths of lines, cubic
//! beziers and rectangles, finished by a fill and/or stroke operation.

use vstd::prelude::*;
use crate::graphics::context::{
    opt_color_view, point_bytes, rect_bytes, Color, ColorV, Graphic, GraphicParameters,
    GraphicsContextType, Point, Rect,
};
use crate::graphics::{params_bytes, GraphicContext, Parameter};
use crate::pdf::Name;

verus! {

/// One segment of a subpath.
#[derive(Clone, Copy, PartialEq, Eq, Structural, Debug)]
pub enum PathPart {
    /// Starts a new subpath at the point.
    Start(Point),
    /// A straight line to the point.
    Line(Point),
    /// A cubic bezier with two explicit control points.
    Bezier(Point, Point, Point),
    /// A cubic bezier whose first control point is the current point.
    BezierLast(Point, Point),
    /// A cubic bezier whose second control point is the end point.
    BezierNext(Point, Point),
}

/// A subpath: a run of segments with a closed flag, or a rectangle.
#[derive(Debug)]
pub enum SubPath {
    Parts(Vec<PathPart>, bool),
    Rect(Rect),
}

/// A path under construction: finished subpaths plus the current one.
#[derive(Debug)]
pub struct Path {
    pub path: Vec<SubPath>,
    pub cur: Vec<PathPart>,
}

impl Path {
    /// Starts an empty path.
    pub fn new() -> (p: Path)
        ensures
            p.path@ == Seq::<SubPath>::empty(),
            p.cur@ == Seq::<PathPart>::empty(),
    {
        Path { path: Vec::new(), cur: Vec::new() }
    }

    /// Starts a path whose first subpath begins at the given point.
    pub fn from(point: Point) -> (p: Path)
        ensures
            p.path@ == Seq::<SubPath>::empty(),
            p.cur@ == seq![PathPart::Start(point)],
    {
        let mut cur: Vec<PathPart> = Vec::new();
        cur.push(PathPart::Start(point));
        proof {
            assert(cur@ =~= seq![PathPart::Start(point)]);
        }
        Path { path: Vec::new(), cur }
    }

    /// Starts a new subpath at the point, leaving the current subpath
    /// open.
    pub fn move_to(self, point: Point) -> (r: Path)
        ensures
            r.path@ == self.path@.push(SubPath::Parts(self.cur, false)),
            r.cur@ == seq![PathPart::Start(point)],
    {
        let Path { mut path, cur } = self;
        path.push(SubPath::Parts(cur, false));
        let mut cur: Vec<PathPart> = Vec::new();
        cur.push(PathPart::Start(point));
        proof {
            assert(cur@ =~= seq![PathPart::Start(point)]);
        }
        Path { path, cur }
    }

    /// Starts a new subpath at the point, closing the current subpath.
    pub fn move_to_and_close(self, point: Point) -> (r: Path)
        ensures
            r.path@ == self.path@.push(SubPath::Parts(self.cur, true)),
            r.cur@ == seq![PathPart::Start(point)],
    {
        let Path { mut path, cur } = self;
        path.push(SubPath::Parts(cur, true));
        let mut cur: Vec<PathPart> = Vec::new();
        cur.push(PathPart::Start(point));
        proof {
            assert(cur@ =~= seq![PathPart::Start(point)]);
        }
        Path { path, cur }
    }

    /// Draws a line to the point.
    pub fn line_to(self, point: Point) -> (r: Path)
        ensures
            r.path == self.path,
            r.cur@ == self.cur@.push(PathPart::Line(point)),
    {
        let Path { path, mut cur } = self;
        cur.push(PathPart::Line(point));
        Path { path, cur }
    }

    /// Draws a cubic bezier through the three control points.
    pub fn curve_to(self, p1: Point, p2: Point, p3: Point) -> (r: Path)
        ensures
            r.path == self.path,
            r.cur@ == self.cur@.push(PathPart::Bezier(p1, p2, p3)),
    {
        let Path { path, mut cur } = self;
        cur.push(PathPart::Bezier(p1, p2, p3));
        Path { path, cur }
    }

    /// Draws a cubic bezier reusing the current point as the first
    /// control point.
    pub fn curve_to_last(self, p2: Point, p3: Point) -> (r: Path)
        ensures
            r.path == self.path,
            r.cur@ == self.cur@.push(PathPart::BezierLast(p2, p3)),
    {
        let Path { path, mut cur } = self;
        cur.push(PathPart::BezierLast(p2, p3));
        Path { path, cur }
    }

    /// Draws a cubic bezier reusing the end point as the second control
    /// point.
    pub fn curve_to_next(self, p1: Point, p2: Point) -> (r: Path)
        ensures
            r.path == self.path,
            r.cur@ == self.cur@.push(PathPart::BezierNext(p1, p2)),
    {
        let Path { path, mut cur } = self;
        cur.push(PathPart::BezierNext(p1, p2));
        Path { path, cur }
    }

    /// Adds a rectangle as a subpath of its own, without touching the
    /// current subpath.
    pub fn rect(self, r: Rect) -> (o: Path)
        ensures
            o.path@ == self.path@.push(SubPath::Rect(r)),
            o.cur == self.cur,
    {
        let Path { mut path, cur } = self;
        path.push(SubPath::Rect(r));
        Path { path, cur }
    }

    /// Finishes the path with a stroke; the current subpath joins the
    /// path only when it has more than one point.
    pub fn stroke(self, color: Color) -> (g: GraphicPath)
        ensures
            g.path@ == if self.cur@.len() > 1 {
                self.path@.push(SubPath::Parts(self.cur, false))
            } else {
                self.path@
            },
            g.stroke && !g.fill && !g.even_odd,
            opt_color_view(g.params.stroke) == Some(color@),
            g.params.fill is None,
    {
        let Path { mut path, cur } = self;
        if cur.len() > 1 {
            path.push(SubPath::Parts(cur, false));
        }
        GraphicPath {
            params: GraphicParameters::with_colors(None, Some(color)),
            path,
            stroke: true,
            fill: false,
            even_odd: false,
        }
    }

    /// Finishes the path with a fill.
    pub fn fill(self, color: Color) -> (g: GraphicPath)
        ensures
            g.path@ == self.path@.push(SubPath::Parts(self.cur, false)),
            !g.stroke && g.fill && !g.even_odd,
            opt_color_view(g.params.fill) == Some(color@),
            g.params.stroke is None,
    {
        let Path { mut path, cur } = self;
        path.push(SubPath::Parts(cur, false));
        GraphicPath {
            params: GraphicParameters::with_colors(Some(color), None),
            path,
            stroke: false,
            fill: true,
            even_odd: false,
        }
    }

    /// Finishes the path with a stroke and a fill.
    pub fn stroke_fill(self, stroke: Color, fill: Color) -> (g: GraphicPath)
        ensures
            g.path@ == self.path@.push(SubPath::Parts(self.cur, false)),
            g.stroke && g.fill && !g.even_odd,
            opt_color_view(g.params.fill) == Some(fill@),
            opt_color_view(g.params.stroke) == Some(stroke@),
    {
        let Path { mut path, cur } = self;
        path.push(SubPath::Parts(cur, false));
        GraphicPath {
            params: GraphicParameters::with_colors(Some(fill), Some(stroke)),
            path,
            stroke: true,
            fill: true,
            even_odd: false,
        }
    }

    /// Finishes the path with a stroke under the even-odd winding rule.
    pub fn stroke_even_odd(self, color: Color) -> (g: GraphicPath)
        ensures
            g.path@ == self.path@.push(SubPath::Parts(self.cur, false)),
            g.stroke && !g.fill && g.even_odd,
            opt_color_view(g.params.stroke) == Some(color@),
            g.params.fill is None,
    {
        let Path { mut path, cur } = self;
        path.push(SubPath::Parts(cur, false));
        GraphicPath {
            params: GraphicParameters::with_colors(None, Some(color)),
            path,
            stroke: true,
            fill: false,
            even_odd: true,
        }
    }

    /// Finishes the path with a fill under the even-odd winding rule.
    pub fn fill_even_odd(self, color: Color) -> (g: GraphicPath)
        ensures
            g.path@ == self.path@.push(SubPath::Parts(self.cur, false)),
            !g.stroke && g.fill && g.even_odd,
            opt_color_view(g.params.fill) == Some(color@),
            g.params.stroke is None,
    {
        let Path { mut path, cur } = self;
        path.push(SubPath::Parts(cur, false));
        GraphicPath {
            params: GraphicParameters::with_colors(Some(color), None),
            path,
            stroke: false,
            fill: true,
            even_odd: true,
        }
    }

    /// Finishes the path with a stroke and a fill under the even-odd
    /// winding rule.
    pub fn stroke_fill_even_odd(self, stroke: Color, fill: Color) -> (g: GraphicPath)
        ensures
            g.path@ == self.path@.push(SubPath::Parts(self.cur, false)),
            g.stroke && g.fill && g.even_odd,
            opt_color_view(g.params.fill) == Some(fill@),
            opt_color_view(g.params.stroke) == Some(stroke@),
    {
        let Path { mut path, cur } = self;
        path.push(SubPath::Parts(cur, false));
        GraphicPath {
            params: GraphicParameters::with_colors(Some(fill), Some(stroke)),
            path,
            stroke: true,
            fill: true,
            even_odd: true,
        }
    }
}

/// The command bytes of one path segment.
pub open spec fn part_bytes(p: PathPart) -> Seq<u8> {
    match p {
        PathPart::Start(pt) => seq![32u8] + point_bytes(pt) + seq![32u8, 109u8],
        PathPart::Line(pt) => seq![32u8] + point_bytes(pt) + seq![32u8, 108u8],
        PathPart::Bezier(p1, p2, p3) => seq![32u8] + point_bytes(p1) + seq![32u8] + point_bytes(
            p2,
        ) + seq![32u8] + point_bytes(p3) + seq![32u8, 99u8],
        PathPart::BezierLast(p1, p2) => seq![32u8] + point_bytes(p1) + seq![32u8] + point_bytes(
            p2,
        ) + seq![32u8, 118u8],
        PathPart::BezierNext(p1, p2) => seq![32u8] + point_bytes(p1) + seq![32u8] + point_bytes(
            p2,
        ) + seq![32u8, 121u8],
    }
}

pub open spec fn parts_bytes(s: Seq<PathPart>) -> Seq<u8>
    decreases s.len(),
{
    if s.len() == 0 {
        Seq::empty()
    } else {
        parts_bytes(s.drop_last()) + part_bytes(s.last())
    }
}

/// The command bytes of one subpath, closing it when flagged.
pub open spec fn subpath_bytes(sp: SubPath) -> Seq<u8> {
    match sp {
        SubPath::Parts(v, closed) => parts_bytes(v@) + if closed {
            seq![32u8, 104u8]
        } else {
            Seq::<u8>::empty()
        },
        SubPath::Rect(r) => seq![32u8] + rect_bytes(r) + seq![32u8, 114u8, 101u8],
    }
}

pub open spec fn subpaths_bytes(s: Seq<SubPath>) -> Seq<u8>
    decreases s.len(),
{
    if s.len() == 0 {
        Seq::empty()
    } else {
        subpaths_bytes(s.drop_last()) + subpath_bytes(s.last())
    }
}

/// The terminal painting operator for the given fill, stroke and winding
/// flags.
pub open spec fn paint_bytes(fill: bool, stroke: bool, even_odd: bool) -> Seq<u8> {
    if fill && stroke {
        if even_odd {
            seq![32u8, 66u8, 42u8]
        } else {
            seq![32u8, 66u8]
        }
    } else if stroke {
        seq![32u8, 83u8]
    } else if fill {
        if even_odd {
            seq![32u8, 102u8, 42u8]
        } else {
            seq![32u8, 102u8]
        }
    } else {
        Seq::empty()
    }
}

/// Emits the command of one path segment.
#[verifier::rlimit(100)]
fn emit_part(g: &mut GraphicContext, p: PathPart)
    ensures
        final(g).stream@ == old(g).stream@ + part_bytes(p),
        final(g).context_type == old(g).context_type,
        final(g).fill == old(g).fill,
        final(g).stroke == old(g).stroke,
        final(g).resources == old(g).resources,
        final(g).fonts == old(g).fonts,
        final(g).external_resources == old(g).external_resources,
        final(g).font_ref_ids == old(g).font_ref_ids,
{
    let mut ps: Vec<Parameter> = Vec::new();
    let mut op: Vec<u8> = Vec::new();
    match p {
        PathPart::Start(pt) => {
            ps.push(Parameter::from_point(pt));
            op.push(109);
        },
        PathPart::Line(pt) => {
            ps.push(Parameter::from_point(pt));
            op.push(108);
        },
        PathPart::Bezier(p1, p2, p3) => {
            ps.push(Parameter::from_point(p1));
            ps.push(Parameter::from_point(p2));
            ps.push(Parameter::from_point(p3));
            op.push(99);
        },
        PathPart::BezierLast(p1, p2) => {
            ps.push(Parameter::from_point(p1));
            ps.push(Parameter::from_point(p2));
            op.push(118);
        },
        PathPart::BezierNext(p1, p2) => {
            ps.push(Parameter::from_point(p1));
            ps.push(Parameter::from_point(p2));
            op.push(121);
        },
    }
    proof {
        let pv = ps@.map_values(|q: Parameter| q@);
        reveal_with_fuel(params_bytes, 6);
        match p {
            PathPart::Start(pt) => {
                assert(pv.len() == 1);
                assert(pv[0] == ps@[0]@);
                assert(pv.last() == pv[0]);
                assert(pv.drop_last() =~= pv.take(0));
                assert(params_bytes(pv.drop_last()) == Seq::<u8>::empty());
            },
            PathPart::Line(pt) => {
                assert(pv.len() == 1);
                assert(pv[0] == ps@[0]@);
                assert(pv.last() == pv[0]);
                assert(pv.drop_last() =~= pv.take(0));
                assert(params_bytes(pv.drop_last()) == Seq::<u8>::empty());
            },
            PathPart::Bezier(p1, p2, p3) => {
                assert(pv.len() == 3);
                assert(pv[0] == ps@[0]@);
                assert(pv[1] == ps@[1]@);
                assert(pv[2] == ps@[2]@);
                assert(pv.last() == pv[2]);
                assert(pv.drop_last() =~= pv.take(2));
                assert(pv.take(2).drop_last() =~= pv.take(1));
                assert(pv.take(1).drop_last() =~= pv.take(0));
                assert(pv.take(2).last() == pv[1]);
                assert(pv.take(1).last() == pv[0]);
                assert(params_bytes(pv.take(0)) == Seq::<u8>::empty());
            },
            PathPart::BezierLast(p1, p2) => {
                assert(pv.len() == 2);
                assert(pv[0] == ps@[0]@);
                assert(pv[1] == ps@[1]@);
                assert(pv.last() == pv[1]);
                assert(pv.drop_last() =~= pv.take(1));
                assert(pv.take(1).drop_last() =~= pv.take(0));
                assert(pv.take(1).last() == pv[0]);
                assert(params_bytes(pv.take(0)) == Seq::<u8>::empty());
            },
            PathPart::BezierNext(p1, p2) => {
                assert(pv.len() == 2);
                assert(pv[0] == ps@[0]@);
                assert(pv[1] == ps@[1]@);
                assert(pv.last() == pv[1]);
                assert(pv.drop_last() =~= pv.take(1));
                assert(pv.take(1).drop_last() =~= pv.take(0));
                assert(pv.take(1).last() == pv[0]);
                assert(params_bytes(pv.take(0)) == Seq::<u8>::empty());
            },
        }
    }
    g.command(&ps, &op);
    proof {
        assert(final(g).stream@ =~= old(g).stream@ + part_bytes(p));
    }
}

/// A finished path together with its colors and painting operation.
#[derive(Debug)]
pub struct GraphicPath {
    pub params: GraphicParameters,
    pub path: Vec<SubPath>,
    pub stroke: bool,
    pub fill: bool,
    pub even_odd: bool,
}

impl Graphic for GraphicPath {
    open spec fn valid(&self) -> bool {
        self.fill || self.stroke
    }

    open spec fn fill_spec(&self) -> Option<ColorV> {
        opt_color_view(self.params.fill)
    }

    open spec fn stroke_spec(&self) -> Option<ColorV> {
        opt_color_view(self.params.stroke)
    }

    open spec fn commands(&self) -> Seq<u8> {
        subpaths_bytes(self.path@) + paint_bytes(self.fill, self.stroke, self.even_odd)
    }

    open spec fn font_entries(&self) -> Seq<(Seq<u8>, usize)> {
        Seq::empty()
    }

    fn get_graphics_parameters(&self) -> (p: GraphicParameters) {
        GraphicParameters {
            context_type: GraphicsContextType::Normal,
            fill: match &self.params.fill {
                Some(c) => Some(c.dup()),
                None => None,
            },
            stroke: match &self.params.stroke {
                Some(c) => Some(c.dup()),
                None => None,
            },
        }
    }

    fn fonts(&self) -> (v: Vec<(Name, usize)>) {
        let v: Vec<(Name, usize)> = Vec::new();
        proof {
            assert(v@.map_values(|p: (Name, usize)| (p.0@, p.1)) =~= Seq::<
                (Seq<u8>, usize),
            >::empty());
        }
        v
    }

    #[verifier::loop_isolation(false)]
    #[verifier::rlimit(100)]
    fn render(&self, g: &mut GraphicContext) {
        let ghost start = g.stream@;
        let mut i: usize = 0;
        while i < self.path.len()
            invariant
                i <= self.path@.len(),
                g.stream@ == start + subpaths_bytes(self.path@.take(i as int)),
                g.context_type == old(g).context_type,
                g.fill == old(g).fill,
                g.stroke == old(g).stroke,
                g.resources == old(g).resources,
                g.fonts == old(g).fonts,
                g.external_resources == old(g).external_resources,
                g.font_ref_ids == old(g).font_ref_ids,
            decreases self.path@.len() - i,
        {
            let ghost sp_start = g.stream@;
            match &self.path[i] {
                SubPath::Parts(parts, closed) => {
                    let mut k: usize = 0;
                    while k < parts.len()
                        invariant
                            k <= parts@.len(),
                            g.stream@ == sp_start + parts_bytes(parts@.take(k as int)),
                            g.context_type == old(g).context_type,
                            g.fill == old(g).fill,
                            g.stroke == old(g).stroke,
                            g.resources == old(g).resources,
                            g.fonts == old(g).fonts,
                            g.external_resources == old(g).external_resources,
                            g.font_ref_ids == old(g).font_ref_ids,
                        decreases parts@.len() - k,
                    {
                        emit_part(g, parts[k]);
                        proof {
                            assert(parts@.take(k + 1).drop_last() =~= parts@.take(k as int));
                            assert(parts@.take(k + 1).last() == parts@[k as int]);
                            assert(g.stream@ =~= sp_start + parts_bytes(parts@.take(k + 1)));
                        }
                        k = k + 1;
                    }
                    if *closed {
                        let ps: Vec<Parameter> = Vec::new();
                        let mut op: Vec<u8> = Vec::new();
                        op.push(104);
                        g.command(&ps, &op);
                    }
                    proof {
                        assert(parts@.take(parts@.len() as int) =~= parts@);
                        assert(g.stream@ =~= sp_start + subpath_bytes(self.path@[i as int]));
                    }
                },
                SubPath::Rect(r) => {
                    let mut ps: Vec<Parameter> = Vec::new();
                    ps.push(Parameter::from_rect(*r));
                    let mut op: Vec<u8> = Vec::new();
                    op.push(114);
                    op.push(101);
                    g.command(&ps, &op);
                    proof {
                        let pv = ps@.map_values(|p: Parameter| p@);
                    reveal_with_fuel(params_bytes, 6);
                        assert(pv.drop_last() =~= pv.take(0));
                        assert(g.stream@ =~= sp_start + subpath_bytes(self.path@[i as int]));
                    }
                },
            }
            proof {
                assert(self.path@.take(i + 1).drop_last() =~= self.path@.take(i as int));
                assert(self.path@.take(i + 1).last() == self.path@[i as int]);
                assert(g.stream@ =~= start + subpaths_bytes(self.path@.take(i + 1)));
            }
            i = i + 1;
        }
        proof {
            assert(self.path@.take(self.path@.len() as int) =~= self.path@);
        }
        let ps: Vec<Parameter> = Vec::new();
        let mut op: Vec<u8> = Vec::new();
        if self.fill && self.stroke {
            op.push(66);
            if self.even_odd {
                op.push(42);
            }
        } else if self.stroke {
            op.push(83);
        } else {
            op.push(102);
            if self.even_odd {
                op.push(42);
            }
        }
        g.command(&ps, &op);
        proof {
            assert(g.stream@ =~= start + self.commands());
        }
    }
}

} // verus!
