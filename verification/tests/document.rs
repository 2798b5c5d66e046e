//! Whole documents: structure, numbering, offsets and text.

use simple_pdf::graphics::{Color, Font, Path, Point, Rect, Text};
use simple_pdf::num::Fixed;
use simple_pdf::{Page, PDF};

fn text_of(bytes: &[u8]) -> String {
    String::from_utf8_lossy(bytes).into_owned()
}

#[test]
fn single_page_stroked_line_and_rectangle() {
    let mut pdf = PDF::new();
    let mut page = Page::new();
    page.add(
        &Path::from(Point::at(10, 10))
            .line_to(Point::at(200, 200))
            .rect(Rect::at(10, 10, 190, 190))
            .stroke(Color::red()),
    );
    pdf.add_page(page);
    let bytes = pdf.write().unwrap();
    let s = text_of(&bytes);

    assert!(s.starts_with("%PDF-1.4\n"));
    assert!(s.ends_with("%%EOF"));
    // one content stream, one page, the page tree pair, and the outlines
    assert_eq!(s.match_indices(" 0 obj").count(), 5);
    assert!(s.contains("/Type /Outlines"));
    assert!(s.contains("/Type /Pages"));
    assert!(s.contains("/Type /Catalog"));
    assert!(s.contains("/Type /Page\n"));
    assert!(s.contains("/Parent 2 0 R"));
    assert!(s.contains("/Contents 5 0 R"));
    assert!(s.contains("/Kids [4 0 R]"));
    assert!(s.contains("/Count 1"));
    assert!(s.contains("/Root 3 0 R"));
    assert!(s.contains("/Size 6"));
    assert!(s.contains("/MediaBox [0 0 612 792]"));
    // the content stream: stroke sync, rectangle first, then the open subpath
    assert!(s.contains(" /DeviceRGB CS 1 0 0 SCN 10 10 190 190 re 10 10 m 200 200 l S"));
}

#[test]
fn startxref_and_offsets_locate_objects() {
    let mut pdf = PDF::new();
    let mut page = Page::new();
    page.add(&Path::new().rect(Rect::at(10, 10, 190, 190)).fill(Color::red()));
    pdf.add_page(page);
    let bytes = pdf.write().unwrap();
    let s = text_of(&bytes);

    // startxref points at the cross-reference section
    let sx = s.rfind("startxref\n").unwrap();
    let tail = &s[sx + 10..];
    let off: usize = tail[..tail.find('\n').unwrap()].parse().unwrap();
    assert!(s[off..].starts_with("xref\n"));

    // each in-use entry's offset points at the object header it indexes
    let xref = &s[off..];
    let mut lines = xref.lines();
    assert_eq!(lines.next().unwrap(), "xref");
    assert_eq!(lines.next().unwrap(), "0 6");
    assert_eq!(lines.next().unwrap(), "0000000000 65535 f ");
    for num in 1..=5usize {
        let line = lines.next().unwrap();
        let obj_off: usize = line[..10].parse().unwrap();
        let expected = format!("{} 0 obj\n", num);
        assert!(
            s[obj_off..].starts_with(&expected),
            "object {} not at its recorded offset",
            num
        );
    }
}

#[test]
fn empty_document() {
    let pdf = PDF::new();
    let bytes = pdf.write().unwrap();
    let s = text_of(&bytes);
    assert_eq!(s.match_indices(" 0 obj").count(), 3);
    assert!(s.contains("/Count 0"));
    assert!(s.contains("/Kids []"));
    assert!(s.contains("/Size 4"));
}

#[test]
fn two_pages_share_the_page_tree() {
    let mut pdf = PDF::new();
    let mut p1 = Page::new();
    p1.add(&Path::new().rect(Rect::at(0, 0, 10, 10)).fill(Color::red()));
    pdf.add_page(p1);
    let mut p2 = Page::new();
    p2.add(&Path::new().rect(Rect::at(5, 5, 10, 10)).fill(Color::red()));
    pdf.add_page(p2);
    let bytes = pdf.write().unwrap();
    let s = text_of(&bytes);
    assert_eq!(s.match_indices(" 0 obj").count(), 7);
    assert!(s.contains("/Count 2"));
    assert!(s.contains("/Kids [4 0 R 6 0 R]"));
    assert_eq!(s.match_indices("/Parent 2 0 R").count(), 2);
}

#[test]
fn text_page_with_standard_font() {
    let mut pdf = PDF::new();
    let font = Font::times_new_roman(&mut pdf.writer);
    let mut page = Page::new();
    page.add(
        &Text::new(font, Fixed::from_int(12))
            .move_to(Point::at(100, 100))
            .text("Hello World!")
            .fill(Color::red()),
    );
    pdf.add_page(page);
    let bytes = pdf.write().unwrap();
    let s = text_of(&bytes);
    assert!(s.contains(" BT /timesroman 12 Tf 100 100 Td (Hello World!) Tj ET"));
    assert!(s.contains("/BaseFont /Times-Roman"));
    assert!(s.contains("/Subtype /Type1"));
    assert!(s.contains("/Type /Font"));
    assert!(s.contains("/Font <<"));
    assert!(s.contains("/timesroman "));
    // fill color applied before the text object
    assert!(s.contains(" /DeviceRGB cs 1 0 0 scn BT"));
}

#[test]
fn font_and_position_updates_emitted_once() {
    let mut pdf = PDF::new();
    let font = Font::helvetica(&mut pdf.writer);
    let mut page = Page::new();
    page.add(
        &Text::new(font, Fixed::from_int(10))
            .move_to(Point::at(10, 10))
            .text("a")
            .move_to(Point::at(10, 10))
            .text("b")
            .move_to(Point::at(20, 20))
            .text("c")
            .fill(Color::red()),
    );
    pdf.add_page(page);
    let bytes = pdf.write().unwrap();
    let s = text_of(&bytes);
    // the second run repeats neither font nor position; the third moved
    assert_eq!(s.match_indices(" Tf").count(), 1);
    assert_eq!(s.match_indices(" Td").count(), 2);
    assert!(s.contains("(a) Tj (b) Tj 20 20 Td (c) Tj"));
}
