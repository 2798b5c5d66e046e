//! The content-stream builder: color diffing, geometry commands, and
//! compilation.

use simple_pdf::graphics::{Color, GraphicContext, Path, PatternBuilder, Point, Rect};
use simple_pdf::num::Fixed;
use simple_pdf::pdf::types::write_value;
use simple_pdf::pdf::{Name, ObjRef, PDFWrite, Value};
use simple_pdf::Page;

fn stream_text(page: Page) -> String {
    let (st, _resources) = page.graphics.compile();
    String::from_utf8(st.data).unwrap()
}

#[test]
fn filled_rectangle_round_trip() {
    let mut page = Page::new();
    page.add(&Path::new().rect(Rect::at(10, 10, 190, 190)).fill(Color::red()));
    let s = stream_text(page);
    assert_eq!(s, " /DeviceRGB cs 1 0 0 scn 10 10 190 190 re f");
}

#[test]
fn colorspace_selected_only_on_kind_change() {
    let mut page = Page::new();
    // same kind as the initial gray: no selection, operands still set
    page.add(&Path::new().rect(Rect::at(0, 0, 1, 1)).fill(Color::DeviceGray(
        Fixed::from_milli(500),
    )));
    // still gray: no selection
    page.add(&Path::new().rect(Rect::at(0, 0, 2, 2)).fill(Color::DeviceGray(
        Fixed::from_milli(250),
    )));
    // kind changes to RGB: one selection
    page.add(&Path::new().rect(Rect::at(0, 0, 3, 3)).fill(Color::red()));
    // RGB again: no further selection
    page.add(&Path::new().rect(Rect::at(0, 0, 4, 4)).fill(Color::DeviceRGB(
        Fixed::from_milli(0),
        Fixed::from_milli(1000),
        Fixed::from_milli(0),
    )));
    let s = stream_text(page);
    assert_eq!(s.match_indices(" cs").count(), 1);
    assert_eq!(s.match_indices("/DeviceRGB cs").count(), 1);
    assert_eq!(s.match_indices("/DeviceGray").count(), 0);
    assert_eq!(s.match_indices(" scn").count(), 4);
    assert!(s.contains(" 0.5 scn"));
    assert!(s.contains(" 0.25 scn"));
    assert!(s.contains(" 1 0 0 scn"));
    assert!(s.contains(" 0 1 0 scn"));
}

#[test]
fn fill_and_stroke_channels_are_independent() {
    let mut page = Page::new();
    page.add(&Path::new().rect(Rect::at(0, 0, 5, 5)).stroke_fill(Color::red(), Color::red()));
    let s = stream_text(page);
    // one selection per channel, lowercase for fill, uppercase for stroke
    assert_eq!(s.match_indices("/DeviceRGB cs").count(), 1);
    assert_eq!(s.match_indices("/DeviceRGB CS").count(), 1);
    assert_eq!(s.match_indices(" scn").count(), 1);
    assert_eq!(s.match_indices(" SCN").count(), 1);
    assert!(s.ends_with(" 0 0 5 5 re B"));
}

#[test]
fn empty_builder_compiles_to_empty_stream() {
    let g = GraphicContext::new();
    let (st, _resources) = g.compile();
    assert_eq!(st.data.len(), 0);
    let nodes: Vec<ObjRef> = Vec::new();
    let mut out: Vec<u8> = Vec::new();
    assert!(write_value(&nodes, &Value::Stream(st), &mut out));
    let s = String::from_utf8(out).unwrap();
    assert_eq!(s, "<<\n/Length 0\n>>\nstream\n\nendstream\n");
}

#[test]
fn painting_operators() {
    let red = || Color::red();
    let mut page = Page::new();
    page.add(&Path::from(Point::at(0, 0)).line_to(Point::at(1, 1)).stroke(red()));
    let s = stream_text(page);
    assert!(s.ends_with(" 0 0 m 1 1 l S"));

    let mut page = Page::new();
    page.add(&Path::from(Point::at(0, 0)).line_to(Point::at(1, 1)).fill_even_odd(red()));
    let s = stream_text(page);
    assert!(s.ends_with(" f*"));

    let mut page = Page::new();
    page.add(
        &Path::from(Point::at(0, 0)).line_to(Point::at(1, 1)).stroke_fill_even_odd(red(), red()),
    );
    let s = stream_text(page);
    assert!(s.ends_with(" B*"));
}

#[test]
fn subpaths_and_curves() {
    let mut page = Page::new();
    page.add(
        &Path::from(Point::at(0, 0))
            .curve_to(Point::at(1, 1), Point::at(2, 2), Point::at(3, 3))
            .curve_to_last(Point::at(4, 4), Point::at(5, 5))
            .curve_to_next(Point::at(6, 6), Point::at(7, 7))
            .move_to_and_close(Point::at(8, 8))
            .line_to(Point::at(9, 9))
            .stroke(Color::red()),
    );
    let s = stream_text(page);
    assert!(s.contains(" 0 0 m 1 1 2 2 3 3 c 4 4 5 5 v 6 6 7 7 y h"));
    assert!(s.contains(" 8 8 m 9 9 l S"));
}

#[test]
fn single_point_subpath_dropped_on_stroke() {
    let mut page = Page::new();
    page.add(&Path::from(Point::at(3, 3)).rect(Rect::at(0, 0, 1, 1)).stroke(Color::red()));
    let s = stream_text(page);
    // the one-point current subpath is not painted
    assert!(!s.contains(" 3 3 m"));
    assert!(s.contains(" 0 0 1 1 re"));
}

#[test]
fn pattern_color_references_its_stream() {
    let mut w = PDFWrite::new();
    let mut builder = PatternBuilder::new(true);
    builder.add(&Path::new().rect(Rect::at(0, 0, 4, 4)).fill(Color::red()));
    let pat = builder.render(Name::new("pat1"), &mut w);
    let pat_id = match &pat {
        Color::Pattern(_, id) => *id,
        _ => panic!("expected a pattern color"),
    };
    // the pattern's node holds the compiled stream, marked as a pattern
    let node_value = w.objects[pat_id].data.as_ref().unwrap();
    let mut out: Vec<u8> = Vec::new();
    assert!(write_value(&Vec::new(), node_value, &mut out));
    let s = String::from_utf8(out).unwrap();
    assert!(s.starts_with("<<\n"));
    assert!(s.contains("/Type /Pattern\n"));
    assert!(s.contains("/PatternType 1\n"));
    assert!(s.contains("/Length 37\n"));
    assert!(s.contains("stream\n /DeviceRGB cs 1 0 0 scn 0 0 4 4 re f\nendstream\n"));

    let mut page = Page::new();
    page.add(&Path::new().rect(Rect::at(0, 0, 9, 9)).fill(pat));
    let s = stream_text(page);
    assert!(s.contains(" /Pattern cs /pat1 scn"));
}

#[test]
fn colorless_context_emits_no_color_commands() {
    let mut builder = PatternBuilder::new(false);
    builder.add(&Path::new().rect(Rect::at(0, 0, 4, 4)).fill(Color::red()));
    let (st, _res) = builder.graphics.compile();
    let s = String::from_utf8(st.data).unwrap();
    assert!(!s.contains("scn"));
    assert!(!s.contains("cs"));
    assert_eq!(s, " 0 0 4 4 re f");
}
