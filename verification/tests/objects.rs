//! The object graph, the writer, and serialization of values.

use simple_pdf::pdf::types::write_value;
use simple_pdf::pdf::{Dict, Name, ObjError, ObjRef, Output, Stream, Value, CRT, PDFWrite};

fn encode(v: &Value) -> String {
    let nodes: Vec<ObjRef> = Vec::new();
    let mut out: Vec<u8> = Vec::new();
    assert!(write_value(&nodes, v, &mut out));
    String::from_utf8(out).unwrap()
}

fn text_of(bytes: &[u8]) -> String {
    String::from_utf8_lossy(bytes).into_owned()
}

fn count_occurrences(hay: &str, needle: &str) -> usize {
    hay.match_indices(needle).count()
}

#[test]
fn name_basics() {
    let a = Name::new("Type");
    let b = a.dup();
    assert!(a.same_name(&b));
    assert!(!a.same_name(&Name::new("Pages")));
    let mut out: Vec<u8> = Vec::new();
    a.push_to(&mut out);
    assert_eq!(out, b"Type".to_vec());
}

#[test]
fn value_encodings() {
    assert_eq!(encode(&Value::Int(42)), "42");
    assert_eq!(encode(&Value::Name(Name::new("Catalog"))), "/Catalog");
    assert_eq!(encode(&Value::Str(b"hi".to_vec())), "(hi)");
    let arr = Value::Array(vec![Value::Int(1), Value::Int(2), Value::Int(3)]);
    assert_eq!(encode(&arr), "[1 2 3]");
    assert_eq!(encode(&Value::Array(Vec::new())), "[]");
}

#[test]
fn dict_last_write_wins() {
    let mut d = Dict::new();
    d.add_entry(Name::new("A"), Value::Int(1));
    d.add_entry(Name::new("B"), Value::Int(2));
    d.add_entry(Name::new("A"), Value::Int(3));
    assert_eq!(d.entries.len(), 2);
    assert_eq!(encode(&Value::Dict(d)), "<<\n/A 3\n/B 2\n>>\n");
}

#[test]
fn dict_from_vec_and_optional() {
    let d = Dict::from_vec(vec![
        (Name::new("X"), Value::Int(1)),
        (Name::new("X"), Value::Int(9)),
    ]);
    assert_eq!(d.entries.len(), 1);
    let mut d = d;
    d.add_optional(Name::new("Y"), None);
    assert_eq!(d.entries.len(), 1);
    d.add_optional(Name::new("Y"), Some(Value::Int(5)));
    assert_eq!(d.entries.len(), 2);
    assert!(!d.is_empty());
    assert!(Dict::new().is_empty());
}

#[test]
fn stream_length_header() {
    let st = Stream::new(Dict::new(), b"abc".to_vec());
    let s = encode(&Value::Stream(st));
    assert_eq!(s, "<<\n/Length 3\n>>\nstream\nabc\nendstream\n");
}

#[test]
fn node_assign_once() {
    let mut o = ObjRef::new(0, Value::Int(1));
    assert_eq!(o.assign_num(5), Ok(()));
    assert_eq!(o.assign_num(6), Err(ObjError::AlreadyAssigned));
    let mut d = ObjRef::deferred(0);
    assert_eq!(d.set_data(Value::Int(2)), Ok(()));
    assert_eq!(d.set_data(Value::Int(3)), Err(ObjError::AlreadyAssigned));
}

#[test]
fn crt_sorts_by_number() {
    let mut crt = CRT::new();
    crt.add_entry(50, 2, 0, false);
    crt.add_entry(10, 1, 0, false);
    assert_eq!(crt.get_size(), 3);
    let mut out = Output::new();
    assert_eq!(out.get_pos(), 0);
    crt.write(&mut out);
    let s = text_of(&out.into_data());
    assert_eq!(
        s,
        "xref\n0 3\n0000000000 65535 f \n0000000010 00000 n \n0000000050 00000 n \n"
    );
}

#[test]
fn register_binds_identity_once() {
    let mut w = PDFWrite::new();
    let a = w.insert(ObjRef::new(0, Value::Int(5)));
    w.add_object(a);
    w.add_object(a);
    w.add_object(a);
    let root = w.create_root(Value::Ref(a)).unwrap();
    assert_eq!(root, 1);
    let bytes = w.write().unwrap();
    let s = text_of(&bytes);
    assert_eq!(count_occurrences(&s, " 0 obj"), 2);
    assert_eq!(count_occurrences(&s, "1 0 obj"), 1);
    assert!(s.contains("/Size 3"));
}

#[test]
fn shared_dependency_not_renumbered() {
    let mut w = PDFWrite::new();
    let a = w.insert(ObjRef::new(0, Value::Int(7)));
    let b = w.insert(ObjRef::new(
        0,
        Value::Dict(Dict::from_vec(vec![(Name::new("X"), Value::Ref(a))])),
    ));
    let c = w.insert(ObjRef::new(
        0,
        Value::Dict(Dict::from_vec(vec![(Name::new("Y"), Value::Ref(a))])),
    ));
    w.add_object(b);
    w.add_object(c);
    w.add_object(b);
    let root = w.create_root(Value::Dict(Dict::from_vec(vec![
        (Name::new("B"), Value::Ref(b)),
        (Name::new("C"), Value::Ref(c)),
    ])));
    assert!(root.is_ok());
    let bytes = w.write().unwrap();
    let s = text_of(&bytes);
    // four distinct objects despite repeated registrations of the shared one
    assert_eq!(count_occurrences(&s, " 0 obj"), 4);
    assert!(s.contains("1 0 obj"));
    assert!(s.contains("2 0 obj"));
    assert!(s.contains("3 0 obj"));
    assert!(s.contains("4 0 obj"));
    assert!(s.contains("/Size 5"));
    // the shared node appears once, under the number its first registration bound
    assert_eq!(count_occurrences(&s, "7endobj"), 1);
    assert_eq!(count_occurrences(&s, "/X 2 0 R"), 1);
    assert_eq!(count_occurrences(&s, "/Y 2 0 R"), 1);
}

#[test]
fn write_reports_missing_root() {
    let w = PDFWrite::new();
    assert_eq!(w.write(), Err(ObjError::MissingRoot));
}

#[test]
fn write_reports_missing_value() {
    let mut w = PDFWrite::new();
    let d = w.insert(ObjRef::deferred(0));
    w.add_object(d);
    w.create_root(Value::Int(0)).unwrap();
    assert_eq!(w.write(), Err(ObjError::MissingValue));
}

#[test]
fn write_reports_unassigned_reference() {
    let mut w = PDFWrite::new();
    let a = w.insert(ObjRef::new(0, Value::Int(1)));
    let d = w.insert(ObjRef::deferred(0));
    w.add_object(d);
    w.create_root(Value::Int(0)).unwrap();
    w.set_data(d, Value::Ref(a)).unwrap();
    assert_eq!(w.write(), Err(ObjError::Unassigned));
}

#[test]
fn double_root_rejected() {
    let mut w = PDFWrite::new();
    assert!(w.create_root(Value::Int(0)).is_ok());
    assert_eq!(w.create_root(Value::Int(1)), Err(ObjError::AlreadyAssigned));
}

#[test]
fn trailer_size_and_free_record() {
    let mut w = PDFWrite::new();
    let a = w.insert(ObjRef::new(0, Value::Int(1)));
    w.add_object(a);
    w.create_root(Value::Ref(a)).unwrap();
    let bytes = w.write().unwrap();
    let s = text_of(&bytes);
    // the implicit free record for object zero
    assert!(s.contains("xref\n0 3\n0000000000 65535 f \n"));
    // Size is the greatest object number plus one
    assert!(s.contains("/Size 3"));
    assert!(s.contains("2 0 obj"));
    assert!(!s.contains("3 0 obj"));
}
