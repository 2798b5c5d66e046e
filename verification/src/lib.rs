//! A small PDF document writer.
//!
//! The library builds a document as a graph of numbered objects, renders
//! drawing operations into content streams, and serializes everything as a
//! cross-referenced PDF file held in memory as bytes.

pub mod num;
pub mod pdf;
pub mod graphics;

use vstd::prelude::*;
use vstd::string::StringSliceAdditionalSpecFns;
use graphics::context::Graphic;
use graphics::GraphicContext;
use num::Fixed;
use pdf::types::{dict_get, entries_refs, refs_ok, val_refs, Value};
use pdf::{Dict, Name, ObjError, ObjRef, PDFWrite};
use pdf::{
    count_unassigned, first_obj_err, lemma_first_obj_err_none, lemma_registered_ok_after_add,
    lemma_registered_ok_after_set, node_write_ok, registered_ok_except, trailer_refs_ok,
};

verus! {

/// One page of the document, owning its content-stream builder.
#[derive(Debug)]
pub struct Page {
    pub graphics: GraphicContext,
}

impl Page {
    /// A fresh page with an empty content stream.
    pub fn new() -> (p: Page)
        ensures
            p.graphics.wf(),
            p.graphics.stream@ == Seq::<u8>::empty(),
            p.graphics.fonts.entries@ == Seq::<(Name, Value)>::empty(),
            p.graphics.font_ref_ids@ == Seq::<usize>::empty(),
    {
        Page { graphics: GraphicContext::new() }
    }

    /// Renders a drawable into the page's content stream: the fill and
    /// stroke colors are synchronized (a color-space selection only on a
    /// kind change, the operand command always), then the drawable's own
    /// commands are appended; its fonts join the page's font table.
    pub fn add<G: Graphic>(&mut self, g: &G)
        requires
            g.valid(),
            old(self).graphics.wf(),
        ensures
            final(self).graphics.wf(),
            final(self).graphics.stream@ == old(self).graphics.stream@ + (if old(
                self,
            ).graphics.context_type.spec_color() {
                graphics::sync_bytes(
                    graphics::context::kind_of(old(self).graphics.fill@),
                    g.fill_spec(),
                    false,
                ) + graphics::sync_bytes(
                    graphics::context::kind_of(old(self).graphics.stroke@),
                    g.stroke_spec(),
                    true,
                )
            } else {
                Seq::<u8>::empty()
            }) + g.commands(),
            final(self).graphics.context_type == old(self).graphics.context_type,
            final(self).graphics.resources == old(self).graphics.resources,
            graphics::dict_view(final(self).graphics.fonts.entries@) == graphics::fonts_after(
                graphics::dict_view(old(self).graphics.fonts.entries@),
                g.font_entries(),
            ),
            final(self).graphics.font_ref_ids@ == old(self).graphics.font_ref_ids@
                + graphics::font_ids(g.font_entries()),
    {
        self.graphics.render(g);
    }
}

/// A document under construction: its pages and the writer that owns the
/// object graph. The catalog, outlines and page-tree nodes are created up
/// front; the page tree's value is deferred until writing, when the page
/// count and the kid references are known.
#[derive(Debug)]
pub struct PDF {
    pub pages: Vec<Page>,
    pub writer: PDFWrite,
    pub catalog: usize,
    pub outlines: usize,
    pub pages_obj: usize,
}

/// Whether a page may be attached to this document: its builder is well
/// formed and every font it uses is a node of this document's graph that
/// already holds its descriptor.
pub open spec fn page_ok(w: PDFWrite, p: Page) -> bool {
    &&& p.graphics.wf()
    &&& forall|k: int|
        0 <= k < p.graphics.font_ref_ids@.len() ==> ((#[trigger] p.graphics.font_ref_ids@[k])
            < w.objects@.len() && w.objects@[p.graphics.font_ref_ids@[k] as int].data is Some)
}

/// Whether `d` is the outlines dictionary the document starts with: type
/// `Outlines` with a count of zero.
pub open spec fn is_outlines_dict(d: Dict) -> bool {
    &&& (pdf::types::dict_get(d.entries@, "Type".spec_bytes()) matches Some(v) && (v
        matches Value::Name(n) && n@ == "Outlines".spec_bytes()))
    &&& pdf::types::dict_get(d.entries@, "Count".spec_bytes()) == Some(Value::Int(0usize))
}

/// Whether `d` is the document catalog: type `Catalog`, referencing the
/// outlines node and the page-tree node.
pub open spec fn is_catalog_dict(d: Dict, outlines: usize, pages: usize) -> bool {
    &&& (pdf::types::dict_get(d.entries@, "Type".spec_bytes()) matches Some(v) && (v
        matches Value::Name(n) && n@ == "Catalog".spec_bytes()))
    &&& pdf::types::dict_get(d.entries@, "Outlines".spec_bytes()) == Some(Value::Ref(outlines))
    &&& pdf::types::dict_get(d.entries@, "Pages".spec_bytes()) == Some(Value::Ref(pages))
}

/// Whether `pd` is the page dictionary built for page `p`: type `Page`,
/// the parent and contents references, the letter-size media box, and the
/// compiled resources (with the page's font table attached under `Font`
/// exactly when it is non-empty).
pub open spec fn is_page_dict(pd: Dict, parent: usize, contents: usize, p: Page) -> bool {
    &&& (dict_get(pd.entries@, "Type".spec_bytes()) matches Some(v) && (v matches Value::Name(n)
        && n@ == "Page".spec_bytes()))
    &&& dict_get(pd.entries@, "Parent".spec_bytes()) == Some(Value::Ref(parent))
    &&& (dict_get(pd.entries@, "MediaBox".spec_bytes()) matches Some(mv) && (mv
        matches Value::Array(vs) && vs@ == seq![
        Value::Real(Fixed { milli: 0 }),
        Value::Real(Fixed { milli: 0 }),
        Value::Real(Fixed { milli: 612000 }),
        Value::Real(Fixed { milli: 792000 }),
    ]))
    &&& dict_get(pd.entries@, "Contents".spec_bytes()) == Some(Value::Ref(contents))
    &&& (dict_get(pd.entries@, "Resources".spec_bytes()) matches Some(rv) && (rv
        matches Value::Dict(res) && ((p.graphics.fonts.entries@.len() == 0 ==> res
        == p.graphics.resources) && (p.graphics.fonts.entries@.len() > 0 ==> dict_get(
        res.entries@,
        "Font".spec_bytes(),
    ) == Some(Value::Dict(p.graphics.fonts))))))
}

/// Whether writer `w` holds page `i` of document `doc` in serialized
/// form: the stream node at `base + 2i` carries the page's compiled
/// content bytes with their length header, and the page dictionary right
/// above it references the page tree and that stream.
pub open spec fn page_written(doc: PDF, w: PDFWrite, i: int) -> bool {
    let s = doc.writer.objects@.len() as int + 2 * i;
    &&& (w.objects@[s].data matches Some(sv) && (sv matches Value::Stream(st) && (st.data@
        == doc.pages@[i].graphics.stream@ && dict_get(st.meta.entries@, "Length".spec_bytes())
        == Some(Value::Int(doc.pages@[i].graphics.stream@.len() as usize)))))
    &&& (w.objects@[s + 1].data matches Some(pv) && (pv matches Value::Dict(pd) && is_page_dict(
        pd,
        1usize,
        s as usize,
        doc.pages@[i],
    )))
    &&& w.objects@[s].num is Some
    &&& w.objects@[s + 1].num is Some
    &&& w.objects@[s].gen == 0
    &&& w.objects@[s + 1].gen == 0
}

/// Whether `pt` is the completed page tree for `n` pages over a document
/// whose graph held `base` nodes: type `Pages`, the final count, and one
/// kid reference per page dictionary, in page order.
pub open spec fn pages_tree_dict(pt: Dict, base: int, n: int) -> bool {
    &&& (dict_get(pt.entries@, "Type".spec_bytes()) matches Some(tv) && (tv
        matches Value::Name(tn) && tn@ == "Pages".spec_bytes()))
    &&& dict_get(pt.entries@, "Count".spec_bytes()) == Some(Value::Int(n as usize))
    &&& (dict_get(pt.entries@, "Kids".spec_bytes()) matches Some(kv) && (kv
        matches Value::Array(kids) && (kids@.len() == n && forall|i: int|
        0 <= i < n ==> kids@[i] == Value::Ref((base + 2 * i + 1) as usize))))
}

/// Whether writer `w` is the serialized form of document `doc`: every
/// original node keeps its value, each page contributed its stream node
/// and page dictionary in order, and the page tree holds the final count
/// and kid references. `PDF::write` produces the bytes of such a writer.
pub open spec fn writes_document(doc: PDF, w: PDFWrite) -> bool {
    let base = doc.writer.objects@.len() as int;
    let n = doc.pages@.len() as int;
    &&& w.wf()
    &&& w.trailer.root == Some(2usize)
    &&& w.trailer.info is None
    &&& w.trailer.id is None
    &&& doc.writer.order@.is_prefix_of(w.order@)
    &&& forall|j: int|
        0 <= j < base && (#[trigger] doc.writer.objects@[j].num) is Some ==> w.objects@[j].num
            == doc.writer.objects@[j].num
    &&& w.objects@.len() == base + 2 * n
    &&& forall|j: int|
        0 <= j < base && j != 1 ==> (#[trigger] w.objects@[j]).data == doc.writer.objects@[j].data
            && w.objects@[j].gen == doc.writer.objects@[j].gen
    &&& forall|i: int| 0 <= i < n ==> #[trigger] page_written(doc, w, i)
    &&& (w.objects@[1].data matches Some(ptv) && (ptv matches Value::Dict(pt) && pages_tree_dict(
        pt,
        base,
        n,
    )))
}

/// The serialized document physically contains each page's compiled
/// content bytes: they appear verbatim inside that page's stream object,
/// between its `stream` and `endstream` keywords.
#[verifier::rlimit(100)]
pub proof fn lemma_output_contains_page_stream(doc: PDF, w: PDFWrite, i: int)
    requires
        writes_document(doc, w),
        0 <= i < doc.pages@.len(),
    ensures
        exists|a: int|
            0 <= a && a + doc.pages@[i].graphics.stream@.len() <= pdf::file_bytes(w).len()
                && #[trigger] pdf::file_bytes(w).subrange(
                a,
                a + doc.pages@[i].graphics.stream@.len() as int,
            ) == doc.pages@[i].graphics.stream@,
{
    let nodes = w.objects@;
    let order = w.order@;
    let s = doc.writer.objects@.len() as int + 2 * i;
    let content = doc.pages@[i].graphics.stream@;
    assert(page_written(doc, w, i));
    assert(nodes[s].num is Some);
    let j = choose|j: int| 0 <= j < order.len() && order[j] as int == s;
    pdf::lemma_objs_bytes_contain_block(nodes, order, j);
    let blk = pdf::obj_block_bytes(nodes, s);
    let ob = pdf::objs_bytes(nodes, order);
    let off = choose|off: int|
        0 <= off && off + blk.len() <= ob.len() && #[trigger] ob.subrange(
            off,
            off + blk.len() as int,
        ) == blk;
    let sv = nodes[s].data->0;
    let st = sv->Stream_0;
    assert(st.data@ == content);
    let hdr = num::dec_bytes(nodes[s].num->0 as nat) + seq![32u8] + num::dec_bytes(
        nodes[s].gen as nat,
    ) + seq![32u8, 111u8, 98u8, 106u8, 10u8];
    let vb = pdf::types::val_bytes(nodes, sv);
    let dictb = pdf::types::dict_bytes(nodes, st.meta.entries@);
    assert(vb == dictb + seq![115u8, 116u8, 114u8, 101u8, 97u8, 109u8, 10u8] + content + seq![
        10u8,
        101u8,
        110u8,
        100u8,
        115u8,
        116u8,
        114u8,
        101u8,
        97u8,
        109u8,
        10u8,
    ]);
    assert(blk == hdr + vb + seq![101u8, 110u8, 100u8, 111u8, 98u8, 106u8, 10u8]) by {
        assert(blk =~= hdr + vb + seq![101u8, 110u8, 100u8, 111u8, 98u8, 106u8, 10u8]);
    }
    let d = hdr.len() as int + dictb.len() as int + 7;
    assert(blk.subrange(d, d + content.len() as int) =~= content);
    assert(ob.subrange(off + d, off + d + content.len() as int) =~= content) by {
        assert forall|t: int| 0 <= t < content.len() implies ob[off + d + t] == content[t] by {
            assert(ob.subrange(off, off + blk.len() as int)[d + t] == blk[d + t]);
            assert(blk.subrange(d, d + content.len() as int)[t] == blk[d + t]);
        }
    }
    let fb = pdf::file_bytes(w);
    let a = pdf::header_bytes().len() as int + off + d;
    assert(fb.subrange(a, a + content.len() as int) =~= content) by {
        assert forall|t: int| 0 <= t < content.len() implies fb[a + t] == content[t] by {
            assert(ob.subrange(off + d, off + d + content.len() as int)[t] == ob[off + d + t]);
        }
    }
    assert(fb.subrange(a, a + content.len() as int) == content);
    assert(0 <= a && a + content.len() <= fb.len());
}

impl PDF {
    /// The document's invariant: the writer is well formed; the outlines,
    /// page-tree and catalog nodes carry numbers one to three; the root
    /// points at the catalog; every node but the deferred page tree holds
    /// its value; and every registered node but the page tree can be
    /// serialized.
    pub open spec fn wf(&self) -> bool {
        let w = self.writer;
        &&& w.wf()
        &&& self.outlines == 0
        &&& self.pages_obj == 1
        &&& self.catalog == 2
        &&& w.objects@.len() >= 3
        &&& w.objects@[1].data is None
        &&& w.objects@[1].num is Some
        &&& w.trailer.root == Some(2usize)
        &&& w.trailer.info is None
        &&& w.trailer.id is None
        &&& forall|j: int| 0 <= j < w.objects@.len() && j != 1 ==> (#[trigger] w.objects@[j].data)
            is Some
        &&& registered_ok_except(w, 1)
        &&& forall|i: int| 0 <= i < self.pages@.len() ==> page_ok(w, #[trigger] self.pages@[i])
    }

    /// A new document holding an outlines object, a deferred page-tree
    /// object and a catalog rooting them, registered in that order under
    /// the numbers one to three.
    #[verifier::rlimit(100)]
    pub fn new() -> (pdf: PDF)
        ensures
            pdf.wf(),
            pdf.pages@.len() == 0,
            pdf.writer.objects@.len() == 3,
            pdf.writer.order@ == seq![0usize, 1usize, 2usize],
            pdf.writer.cur_num == 4,
            pdf.writer.objects@[0].num == Some(1usize),
            pdf.writer.objects@[1].num == Some(2usize),
            pdf.writer.objects@[2].num == Some(3usize),
            pdf.writer.objects@[0].gen == 0 && pdf.writer.objects@[1].gen == 0
                && pdf.writer.objects@[2].gen == 0,
            pdf.writer.objects@[0].data matches Some(ov) && (ov matches Value::Dict(od)
                && is_outlines_dict(od)),
            pdf.writer.objects@[2].data matches Some(cv) && (cv matches Value::Dict(cd)
                && is_catalog_dict(cd, 0, 1)),
    {
        let mut writer = PDFWrite::new();
        let mut d = Dict::new();
        let ghost d0 = d.entries@;
        let k1 = Name::new("Type");
        let v1 = Value::Name(Name::new("Outlines"));
        proof {
            pdf::types::lemma_key_literals();
            assert("Type".spec_bytes().len() == 4);
            assert("Count".spec_bytes().len() == 5);
            assert("Outlines".spec_bytes().len() == 8);
            assert("Pages".spec_bytes().len() == 5);
            assert("Pages".spec_bytes()[0] == 80u8);
            assert("Count".spec_bytes()[0] == 67u8);
            pdf::types::lemma_dict_insert_get(d0, k1, v1, "Type".spec_bytes());
        }
        d.add_entry(k1, v1);
        let ghost d1 = d.entries@;
        let k2 = Name::new("Count");
        let v2 = Value::Int(0);
        proof {
            pdf::types::lemma_dict_insert_get(d1, k2, v2, "Type".spec_bytes());
            pdf::types::lemma_dict_insert_get(d1, k2, v2, "Count".spec_bytes());
        }
        d.add_entry(k2, v2);
        let ov = Value::Dict(d);
        proof {
            assert forall|r: usize| !val_refs(ov).contains(r) by {
                pdf::types::lemma_dict_insert_refs_mem(d1, k2, v2, r);
                pdf::types::lemma_dict_insert_refs_mem(d0, k1, v1, r);
                assert(!entries_refs(d0).contains(r));
                assert(val_refs(v1) =~= Seq::<usize>::empty());
                assert(val_refs(v2) =~= Seq::<usize>::empty());
            }
            if val_refs(ov).len() > 0 {
                assert(val_refs(ov).contains(val_refs(ov)[0]));
            }
            assert(val_refs(ov) =~= Seq::<usize>::empty());
        }
        let outlines = writer.insert(ObjRef::new(0, ov));
        writer.add_object(outlines);
        proof {
            assert(writer.objects@[0].num == Some(1usize));
            assert(writer.order@.len() + count_unassigned(writer.objects@)
                <= writer.objects@.len());
            assert(writer.order@ =~= seq![0usize]);
            assert(writer.cur_num == 2);
        }
        let pages_obj = writer.insert(ObjRef::deferred(0));
        writer.add_object(pages_obj);
        proof {
            assert(writer.objects@[0].num == Some(1usize));
            assert(writer.objects@[1].num == Some(2usize));
            assert(writer.order@.len() + count_unassigned(writer.objects@)
                <= writer.objects@.len());
            assert(writer.order@ =~= seq![0usize, 1usize]);
            assert(writer.cur_num == 3);
        }
        let mut c = Dict::new();
        let ghost c0 = c.entries@;
        let ck1 = Name::new("Type");
        let cv1 = Value::Name(Name::new("Catalog"));
        proof {
            pdf::types::lemma_dict_insert_get(c0, ck1, cv1, "Type".spec_bytes());
        }
        c.add_entry(ck1, cv1);
        let ghost c1 = c.entries@;
        let ck2 = Name::new("Outlines");
        let cv2 = Value::Ref(outlines);
        proof {
            pdf::types::lemma_dict_insert_get(c1, ck2, cv2, "Type".spec_bytes());
            pdf::types::lemma_dict_insert_get(c1, ck2, cv2, "Outlines".spec_bytes());
        }
        c.add_entry(ck2, cv2);
        let ghost c2 = c.entries@;
        let ck3 = Name::new("Pages");
        let cv3 = Value::Ref(pages_obj);
        proof {
            pdf::types::lemma_dict_insert_get(c2, ck3, cv3, "Type".spec_bytes());
            pdf::types::lemma_dict_insert_get(c2, ck3, cv3, "Outlines".spec_bytes());
            pdf::types::lemma_dict_insert_get(c2, ck3, cv3, "Pages".spec_bytes());
        }
        c.add_entry(ck3, cv3);
        let cv = Value::Dict(c);
        proof {
            assert forall|i: int| 0 <= i < val_refs(cv).len() implies (((#[trigger] val_refs(
                cv,
            )[i]) as int) < 3) by {
                let r = val_refs(cv)[i];
                assert(val_refs(cv).contains(r));
                pdf::types::lemma_dict_insert_refs_mem(c2, ck3, cv3, r);
                pdf::types::lemma_dict_insert_refs_mem(c1, ck2, cv2, r);
                pdf::types::lemma_dict_insert_refs_mem(c0, ck1, cv1, r);
                assert(!entries_refs(c0).contains(r));
                assert(val_refs(cv1) =~= Seq::<usize>::empty());
                assert(val_refs(cv2) =~= seq![outlines]);
                assert(val_refs(cv3) =~= seq![pages_obj]);
            }
        }
        let root_res = writer.create_root(cv);
        let catalog = match root_res {
            Ok(id) => id,
            Err(_) => {
                proof {
                    assert(false);
                }
                0
            },
        };
        let pdf = PDF { pages: Vec::new(), writer, catalog, outlines, pages_obj };
        proof {
            let w = pdf.writer;
            assert(w.objects@[1].data is None);
            assert(w.objects@[2].num == Some(3usize));
            assert(w.objects@[2].data == Some(cv));
            assert(w.order@.len() + count_unassigned(w.objects@) <= w.objects@.len());
            assert(w.order@ =~= seq![0usize, 1usize, 2usize]);
            assert(w.objects@[0].data == Some(ov));
            assert forall|i: int|
                0 <= i < w.order@.len() && (#[trigger] w.order@[i]) as int != 1 implies node_write_ok(
                w.objects@,
                w.order@[i] as int,
            ) by {
                let j = w.order@[i] as int;
                assert(0 <= j < 3);
                if j == 0 {
                    assert(w.objects@[0].data == Some(ov));
                    assert(refs_ok(w.objects@, ov));
                } else {
                    assert(j == 2);
                    assert forall|i2: int| 0 <= i2 < val_refs(cv).len() implies pdf::types::ref_ok(
                        w.objects@,
                        (#[trigger] val_refs(cv)[i2]) as int,
                    ) by {
                        let r = val_refs(cv)[i2];
                        assert(val_refs(cv).contains(r));
                        pdf::types::lemma_dict_insert_refs_mem(c2, ck3, cv3, r);
                        pdf::types::lemma_dict_insert_refs_mem(c1, ck2, cv2, r);
                        pdf::types::lemma_dict_insert_refs_mem(c0, ck1, cv1, r);
                        assert(!entries_refs(c0).contains(r));
                        assert(val_refs(cv1) =~= Seq::<usize>::empty());
                        assert(val_refs(cv2) =~= seq![outlines]);
                        assert(val_refs(cv3) =~= seq![pages_obj]);
                        assert(r == 0usize || r == 1usize);
                        assert(w.objects@[0].num is Some);
                        assert(w.objects@[1].num is Some);
                    }
                    assert(refs_ok(w.objects@, cv));
                }
            }
            assert(registered_ok_except(w, 1));
        }
        pdf
    }

    /// Attaches a page to the document.
    pub fn add_page(&mut self, page: Page)
        requires
            old(self).wf(),
            page_ok(old(self).writer, page),
        ensures
            final(self).wf(),
            final(self).pages@ == old(self).pages@.push(page),
            final(self).writer == old(self).writer,
    {
        self.pages.push(page);
    }

    /// Completes the document: renders every page, fills in the page
    /// tree with the final count and kid references, and serializes the
    /// whole file. With a well-formed document this cannot fail.
    #[verifier::loop_isolation(false)]
    #[verifier::rlimit(100)]
    pub fn write(self) -> (r: Result<Vec<u8>, ObjError>)
        requires
            self.wf(),
            self.writer.objects@.len() + 2 * self.pages@.len() + 2 <= usize::MAX,
        ensures
            r is Ok,
            r matches Ok(b) && exists|w: PDFWrite|
                writes_document(self, w) && b@ == #[trigger] pdf::file_bytes(w),
    {
        let ghost doc = self;
        let PDF { pages, mut writer, pages_obj, .. } = self;
        let mut pages = pages;
        let mut kids: Vec<Value> = Vec::new();
        let ghost pages0 = pages@;
        let ghost base = doc.writer.objects@.len() as int;
        proof {
            assert(doc.writer.order@.is_prefix_of(writer.order@)) by {
                assert(doc.writer.order@ =~= writer.order@.subrange(
                    0,
                    doc.writer.order@.len() as int,
                ));
            }
        }
        while pages.len() > 0
            invariant
                writer.wf(),
                writer.objects@.len() + 2 * pages@.len() + 2 <= usize::MAX,
                writer.objects@.len() >= 3,
                writer.objects@[1].data is None,
                writer.objects@[1].num is Some,
                writer.trailer.root == Some(2usize),
                writer.trailer.info is None,
                writer.trailer.id is None,
                forall|j: int|
                    0 <= j < writer.objects@.len() && j != 1 ==> (
                    #[trigger] writer.objects@[j].data) is Some,
                registered_ok_except(writer, 1),
                forall|i: int|
                    0 <= i < pages@.len() ==> page_ok(writer, #[trigger] pages@[i]),
                forall|k: int|
                    0 <= k < kids@.len() ==> ((#[trigger] kids@[k]) matches Value::Ref(id) && (id
                        < writer.objects@.len() && writer.objects@[id as int].num is Some)),
                kids@.len() <= pages0.len(),
                pages@ == pages0.skip(kids@.len() as int),
                writer.objects@.len() == base + 2 * kids@.len(),
                forall|j: int|
                    0 <= j < base && j != 1 ==> (#[trigger] writer.objects@[j]).data
                        == doc.writer.objects@[j].data && writer.objects@[j].gen
                        == doc.writer.objects@[j].gen,
                forall|i: int| 0 <= i < kids@.len() ==> #[trigger] page_written(doc, writer, i),
                forall|k: int|
                    0 <= k < kids@.len() ==> (#[trigger] kids@[k]) == Value::Ref(
                        (base + 2 * k + 1) as usize,
                    ),
                doc.writer.order@.is_prefix_of(writer.order@),
                forall|j: int|
                    (0 <= j < base && (#[trigger] doc.writer.objects@[j].num) is Some)
                        ==> writer.objects@[j].num == doc.writer.objects@[j].num,
            decreases pages@.len(),
        {
            let ghost k = kids@.len() as int;
            proof {
                assert(pages@.len() > 0);
                assert(0 <= k && k + 1 <= pages0.len());
                assert forall|j: int|
                    0 <= j < pages0.skip(k).drop_first().len() implies pages0.skip(
                    k,
                ).drop_first()[j] == pages0.skip(k + 1)[j] by {
                    assert(pages0.skip(k).drop_first()[j] == pages0[k + 1 + j]);
                    assert(pages0.skip(k + 1)[j] == pages0[k + 1 + j]);
                }
                assert(pages0.skip(k).drop_first() =~= pages0.skip(k + 1));
                assert(pages0.skip(k).remove(0) =~= pages0.skip(k).drop_first());
            }
            let page = pages.remove(0);
            proof {
                assert(pages@ == pages0.skip(k).remove(0));
                assert(pages@ == pages0.skip(k + 1));
                assert(page == pages0.skip(k)[0]);
                assert(page == pages0[k]);
                assert(page == doc.pages@[k]);
            }
            let ghost w_before = writer;
            let pid = append_page(&mut writer, page, Ghost(doc), Ghost(k));
            proof {
                assert forall|i: int| 0 <= i < k implies #[trigger] page_written(
                    doc,
                    writer,
                    i,
                ) by {
                    let s = base + 2 * i;
                    assert(page_written(doc, w_before, i));
                    assert(writer.objects@[s].data == w_before.objects@[s].data);
                    assert(writer.objects@[s + 1].data == w_before.objects@[s + 1].data);
                }
                assert forall|j: int|
                    0 <= j < base && j != 1 implies (#[trigger] writer.objects@[j]).data
                        == doc.writer.objects@[j].data && writer.objects@[j].gen
                        == doc.writer.objects@[j].gen by {
                    assert(writer.objects@[j].data == w_before.objects@[j].data);
                }
                assert forall|k2: int|
                    0 <= k2 < kids@.len() implies ((#[trigger] kids@[k2]) matches Value::Ref(id)
                        && (id < writer.objects@.len() && writer.objects@[id as int].num
                        is Some)) by {
                    assert(kids@[k2] matches Value::Ref(id2) && (w_before.objects@[
                        id2 as int].num is Some));
                }
                assert forall|i: int| 0 <= i < pages@.len() implies page_ok(
                    writer,
                    #[trigger] pages@[i],
                ) by {
                    assert(page_ok(w_before, pages@[i]));
                }
                assert forall|j: int|
                    (0 <= j < base && (#[trigger] doc.writer.objects@[j].num)
                        is Some) implies writer.objects@[j].num == doc.writer.objects@[j].num by {
                    assert(w_before.objects@[j].num == doc.writer.objects@[j].num);
                }
                assert(doc.writer.order@.is_prefix_of(writer.order@)) by {
                    assert forall|j: int|
                        0 <= j < doc.writer.order@.len() implies doc.writer.order@[j]
                            == writer.order@[j] by {
                        assert(doc.writer.order@[j] == w_before.order@[j]);
                        assert(w_before.order@[j] == writer.order@.subrange(
                            0,
                            w_before.order@.len() as int,
                        )[j]);
                    }
                    assert(doc.writer.order@ =~= writer.order@.subrange(
                        0,
                        doc.writer.order@.len() as int,
                    ));
                }
            }
            kids.push(Value::Ref(pid));
            proof {
                assert(writer.objects@[pid as int].num is Some);
            }
        }
        proof {
            assert(pages@.len() == 0);
            assert(pages@ == pages0.skip(kids@.len() as int));
            assert(pages0 == doc.pages@);
            assert(kids@.len() == doc.pages@.len());
        }
        finish_document(writer, kids, Ghost(doc))
    }
}

/// Completes the writer once every page is rendered: fills in the page
/// tree with the final count and kid references and serializes the file.
#[verifier::rlimit(100)]
fn finish_document(writer: PDFWrite, kids: Vec<Value>, Ghost(doc): Ghost<PDF>) -> (r: Result<
    Vec<u8>,
    ObjError,
>)
    requires
        writer.wf(),
        writer.objects@.len() >= 3,
        writer.objects@[1].data is None,
        writer.objects@[1].num is Some,
        writer.trailer.root == Some(2usize),
        writer.trailer.info is None,
        writer.trailer.id is None,
        forall|j: int|
            0 <= j < writer.objects@.len() && j != 1 ==> (#[trigger] writer.objects@[j].data)
                is Some,
        registered_ok_except(writer, 1),
        kids@.len() == doc.pages@.len(),
        writer.objects@.len() == doc.writer.objects@.len() + 2 * kids@.len(),
        forall|k: int|
            0 <= k < kids@.len() ==> (#[trigger] kids@[k]) == Value::Ref(
                (doc.writer.objects@.len() as int + 2 * k + 1) as usize,
            ),
        forall|k: int|
            0 <= k < kids@.len() ==> ((#[trigger] kids@[k]) matches Value::Ref(id) && (id
                < writer.objects@.len() && writer.objects@[id as int].num is Some)),
        forall|j: int|
            0 <= j < doc.writer.objects@.len() && j != 1 ==> (#[trigger] writer.objects@[j]).data
                == doc.writer.objects@[j].data && writer.objects@[j].gen
                == doc.writer.objects@[j].gen,
        forall|i: int| 0 <= i < kids@.len() ==> #[trigger] page_written(doc, writer, i),
        doc.writer.order@.is_prefix_of(writer.order@),
        forall|j: int|
            (0 <= j < doc.writer.objects@.len() && (#[trigger] doc.writer.objects@[j].num)
                is Some) ==> writer.objects@[j].num == doc.writer.objects@[j].num,
    ensures
        r is Ok,
        r matches Ok(b) && exists|w: PDFWrite|
            writes_document(doc, w) && b@ == #[trigger] pdf::file_bytes(w),
{
    let mut writer = writer;
    let ghost base = doc.writer.objects@.len() as int;
    let count = kids.len();
    let ghost kids_v = kids@;
    let mut pd = Dict::new();
    let ghost p0 = pd.entries@;
    let pk1 = Name::new("Type");
    let pv1 = Value::Name(Name::new("Pages"));
    proof {
        pdf::types::lemma_key_literals();
        assert("Type".spec_bytes().len() == 4);
        assert("Count".spec_bytes().len() == 5);
        assert("Kids".spec_bytes().len() == 4);
        assert("Type".spec_bytes()[0] == 84u8);
        assert("Kids".spec_bytes()[0] == 75u8);
        pdf::types::lemma_dict_insert_get(p0, pk1, pv1, "Type".spec_bytes());
    }
    pd.add_entry(pk1, pv1);
    let ghost p1 = pd.entries@;
    let pk2 = Name::new("Count");
    let pv2 = Value::Int(count);
    proof {
        pdf::types::lemma_dict_insert_get(p1, pk2, pv2, "Type".spec_bytes());
        pdf::types::lemma_dict_insert_get(p1, pk2, pv2, "Count".spec_bytes());
    }
    pd.add_entry(pk2, pv2);
    let ghost p2 = pd.entries@;
    let pk3 = Name::new("Kids");
    let pv3 = Value::Array(kids);
    proof {
        pdf::types::lemma_dict_insert_get(p2, pk3, pv3, "Type".spec_bytes());
        pdf::types::lemma_dict_insert_get(p2, pk3, pv3, "Count".spec_bytes());
        pdf::types::lemma_dict_insert_get(p2, pk3, pv3, "Kids".spec_bytes());
    }
    pd.add_entry(pk3, pv3);
    let pv = Value::Dict(pd);
    proof {
        assert forall|i: int| 0 <= i < val_refs(pv).len() implies (((#[trigger] val_refs(
            pv,
        )[i]) as int) < writer.objects@.len() && writer.objects@[val_refs(pv)[i] as int].num
            is Some) by {
            let r = val_refs(pv)[i];
            assert(val_refs(pv).contains(r));
            pdf::types::lemma_dict_insert_refs_mem(p2, pk3, pv3, r);
            pdf::types::lemma_dict_insert_refs_mem(p1, pk2, pv2, r);
            pdf::types::lemma_dict_insert_refs_mem(p0, pk1, pv1, r);
            assert(!entries_refs(p0).contains(r));
            assert(val_refs(pv1) =~= Seq::<usize>::empty());
            assert(val_refs(pv2) =~= Seq::<usize>::empty());
            if val_refs(pv3).contains(r) {
                pdf::types::lemma_list_refs_mem(kids_v, r);
                let k = choose|k: int|
                    0 <= k < kids_v.len() && val_refs(#[trigger] kids_v[k]).contains(r);
                assert(kids_v[k] matches Value::Ref(id) && (id < writer.objects@.len()
                    && writer.objects@[id as int].num is Some));
                assert(val_refs(kids_v[k]) =~= seq![kids_v[k]->Ref_0]);
                assert(r == kids_v[k]->Ref_0);
            }
        }
    }
    let ghost w_before_set = writer;
    let sr = writer.set_data(1, pv);
    match sr {
        Ok(()) => {},
        Err(_) => {
            proof {
                assert(false);
            }
        },
    }
    proof {
        assert(refs_ok(writer.objects@, pv)) by {
            assert forall|i: int| 0 <= i < val_refs(pv).len() implies pdf::types::ref_ok(
                writer.objects@,
                (#[trigger] val_refs(pv)[i]) as int,
            ) by {
                assert(w_before_set.objects@[val_refs(pv)[i] as int].num is Some);
                assert(writer.objects@[val_refs(pv)[i] as int].num == w_before_set.objects@[
                    val_refs(pv)[i] as int].num);
            }
        }
        lemma_registered_ok_after_set(w_before_set, writer, 1, pv);
        lemma_first_obj_err_none(writer.objects@, writer.order@);
        assert(first_obj_err(writer.objects@, writer.order@) is None);
        assert(trailer_refs_ok(writer.objects@, writer.trailer));
    }
    let ghost wfinal = writer;
    proof {
        assert(kids_v.len() == doc.pages@.len());
        assert(wfinal.objects@[1].data == Some(pv));
        assert(pages_tree_dict(pd, base, doc.pages@.len() as int));
        assert forall|i: int| 0 <= i < doc.pages@.len() implies #[trigger] page_written(
            doc,
            wfinal,
            i,
        ) by {
            let s = base + 2 * i;
            assert(page_written(doc, w_before_set, i));
            assert(wfinal.objects@[s].data == w_before_set.objects@[s].data);
            assert(wfinal.objects@[s + 1].data == w_before_set.objects@[s + 1].data);
        }
        assert forall|j: int|
            0 <= j < base && j != 1 implies (#[trigger] wfinal.objects@[j]).data
                == doc.writer.objects@[j].data && wfinal.objects@[j].gen
                == doc.writer.objects@[j].gen by {
            assert(w_before_set.objects@[j].data == doc.writer.objects@[j].data);
        }
        assert(wfinal.order@ == w_before_set.order@);
        assert forall|j: int|
            (0 <= j < base && (#[trigger] doc.writer.objects@[j].num) is Some) implies wfinal.objects@[
            j].num == doc.writer.objects@[j].num by {
            assert(w_before_set.objects@[j].num == doc.writer.objects@[j].num);
            assert(wfinal.objects@[j].num == w_before_set.objects@[j].num);
        }
        assert forall|i: int|
            0 <= i < doc.pages@.len() implies #[trigger] page_written(doc, wfinal, i)
                && wfinal.objects@[base + 2 * i].num is Some && wfinal.objects@[base + 2 * i
                + 1].num is Some by {
            assert(page_written(doc, w_before_set, i));
            assert(wfinal.objects@[base + 2 * i].data == w_before_set.objects@[base + 2 * i].data);
            assert(wfinal.objects@[base + 2 * i + 1].data == w_before_set.objects@[base + 2 * i
                + 1].data);
        }
        assert(writes_document(doc, wfinal));
    }
    let res = writer.write();
    proof {
        assert(res matches Ok(b) && b@ == pdf::file_bytes(wfinal));
    }
    res
    }

/// Renders page `k` of document `doc` into the writer and registers it:
/// the stream node and page dictionary take the next two indices, the
/// page dictionary receives a number, and everything already present is
/// untouched but for the numbers registration hands out.
#[verifier::rlimit(100)]
fn append_page(w: &mut PDFWrite, page: Page, Ghost(doc): Ghost<PDF>, Ghost(k): Ghost<int>) -> (pid: usize)
    requires
        old(w).wf(),
        old(w).objects@.len() + 4 <= usize::MAX,
        old(w).objects@.len() >= 3,
        old(w).objects@[1].data is None,
        old(w).objects@[1].num is Some,
        forall|j: int|
            0 <= j < old(w).objects@.len() && j != 1 ==> (#[trigger] old(w).objects@[j].data)
                is Some,
        registered_ok_except(*old(w), 1),
        page_ok(*old(w), page),
        0 <= k < doc.pages@.len(),
        page == doc.pages@[k],
        old(w).objects@.len() == doc.writer.objects@.len() + 2 * k,
    ensures
        final(w).wf(),
        final(w).objects@.len() == old(w).objects@.len() + 2,
        final(w).trailer == old(w).trailer,
        pid == doc.writer.objects@.len() + 2 * k + 1,
        final(w).objects@[pid as int].num is Some,
        forall|j: int|
            0 <= j < old(w).objects@.len() ==> (#[trigger] final(w).objects@[j]).data == old(
                w,
            ).objects@[j].data && final(w).objects@[j].gen == old(w).objects@[j].gen,
        forall|j: int|
            (0 <= j < old(w).objects@.len() && (#[trigger] old(w).objects@[j].num) is Some)
                ==> final(w).objects@[j].num == old(w).objects@[j].num,
        forall|j: int|
            0 <= j < final(w).objects@.len() && j != 1 ==> (#[trigger] final(w).objects@[j].data)
                is Some,
        final(w).objects@[1].data is None,
        registered_ok_except(*final(w), 1),
        old(w).order@.is_prefix_of(final(w).order@),
        page_written(doc, *final(w), k),
{
    let pid = page_render(page, 1, w);
    let ghost w_mid = *w;
    w.add_object(pid);
    let ghost w_mid2 = *w;
    // registration walked the page's dependencies, so this is a no-op, but
    // it puts the stream node's number into the contract directly
    w.add_object(pid - 1);
    proof {
        lemma_registered_ok_after_add(w_mid, w_mid2, 1);
        lemma_registered_ok_after_add(w_mid2, *w, 1);
        let s = doc.writer.objects@.len() as int + 2 * k;
        assert(w.objects@[s].data == w_mid.objects@[s].data);
        assert(w.objects@[s + 1].data == w_mid.objects@[s + 1].data);
        assert(w.objects@[s].gen == w_mid.objects@[s].gen);
        assert(w.objects@[s + 1].gen == w_mid.objects@[s + 1].gen);
        assert(w.objects@[s + 1].num is Some);
        assert(w.objects@[s].num is Some);
        assert(w_mid.objects@[s].data matches Some(sv) && (sv matches Value::Stream(st) && (
        st.data@ == page.graphics.stream@ && dict_get(st.meta.entries@, "Length".spec_bytes())
            == Some(Value::Int(page.graphics.stream@.len() as usize)))));
        assert(w_mid.objects@[s + 1].data matches Some(pv) && (pv matches Value::Dict(pd)
            && is_page_dict(pd, 1usize, s as usize, page)));
        assert(page_written(doc, *w, k));
        assert forall|j: int|
            0 <= j < old(w).order@.len() implies old(w).order@[j] == final(w).order@[j] by {
            assert(w_mid.order@[j] == old(w).order@[j]);
            assert(w_mid2.order@[j] == w_mid.order@[j]);
        }
        assert(old(w).order@.is_prefix_of(final(w).order@)) by {
            assert(old(w).order@ =~= final(w).order@.subrange(0, old(w).order@.len() as int));
        }
    }
    pid
}

/// Builds one page's objects: compiles its content stream into a stream
/// node and wraps it in a page dictionary referencing the parent page
/// tree, the content stream and the resources. Returns the page node's
/// index; the stream node sits directly below it.
#[verifier::rlimit(100)]
fn page_render(page: Page, parent: usize, w: &mut PDFWrite) -> (id: usize)
    requires
        page_ok(*old(w), page),
        old(w).wf(),
        parent < old(w).objects@.len(),
        old(w).objects@.len() + 4 <= usize::MAX,
    ensures
        final(w).wf(),
        id == old(w).objects@.len() + 1,
        final(w).objects@.len() == old(w).objects@.len() + 2,
        forall|j: int| 0 <= j < old(w).objects@.len() ==> final(w).objects@[j] == old(w).objects@[j],
        final(w).order@ == old(w).order@,
        final(w).cur_num == old(w).cur_num,
        final(w).trailer == old(w).trailer,
        final(w).objects@[id as int].num is None,
        final(w).objects@[id as int].gen == 0,
        final(w).objects@[id - 1].num is None,
        final(w).objects@[id - 1].gen == 0,
        final(w).objects@[id - 1].data matches Some(sv) && (sv matches Value::Stream(st) && (
        st.data@ == page.graphics.stream@ && dict_get(st.meta.entries@, "Length".spec_bytes())
            == Some(Value::Int(page.graphics.stream@.len() as usize)))),
        final(w).objects@[id as int].data matches Some(pv) && (pv matches Value::Dict(pd)
            && is_page_dict(pd, parent, (id - 1) as usize, page)),
{
    let ghost ids = page.graphics.font_ref_ids@;
    let (st, resources) = page.graphics.compile();
    let sv = Value::Stream(st);
    proof {
        if val_refs(sv).len() > 0 {
            assert(val_refs(sv)[0] == entries_refs(st.meta.entries@)[0]);
        }
        assert(val_refs(sv) =~= Seq::<usize>::empty());
    }
    let stream_id = w.insert(ObjRef::new(0, sv));
    let mut pd = Dict::new();
    let ghost e0 = pd.entries@;
    let k1 = Name::new("Type");
    let v1 = Value::Name(Name::new("Page"));
    proof {
        pdf::types::lemma_key_literals();
        assert("Type".spec_bytes().len() == 4);
        assert("Parent".spec_bytes().len() == 6);
        assert("MediaBox".spec_bytes().len() == 8);
        assert("Contents".spec_bytes().len() == 8);
        assert("Resources".spec_bytes().len() == 9);
        assert("MediaBox".spec_bytes()[0] == 77u8);
        assert("Contents".spec_bytes()[0] == 67u8);
        pdf::types::lemma_dict_insert_get(e0, k1, v1, "Type".spec_bytes());
    }
    pd.add_entry(k1, v1);
    let ghost e1 = pd.entries@;
    let k2 = Name::new("Parent");
    let v2 = Value::Ref(parent);
    proof {
        pdf::types::lemma_dict_insert_get(e1, k2, v2, "Type".spec_bytes());
        pdf::types::lemma_dict_insert_get(e1, k2, v2, "Parent".spec_bytes());
    }
    pd.add_entry(k2, v2);
    let ghost e2 = pd.entries@;
    let k3 = Name::new("MediaBox");
    let v3 = graphics::Rect::at(0, 0, 612, 792).as_data();
    proof {
        pdf::types::lemma_dict_insert_get(e2, k3, v3, "Type".spec_bytes());
        pdf::types::lemma_dict_insert_get(e2, k3, v3, "Parent".spec_bytes());
        pdf::types::lemma_dict_insert_get(e2, k3, v3, "MediaBox".spec_bytes());
    }
    pd.add_entry(k3, v3);
    let ghost e3 = pd.entries@;
    let k4 = Name::new("Contents");
    let v4 = Value::Ref(stream_id);
    proof {
        pdf::types::lemma_dict_insert_get(e3, k4, v4, "Type".spec_bytes());
        pdf::types::lemma_dict_insert_get(e3, k4, v4, "Parent".spec_bytes());
        pdf::types::lemma_dict_insert_get(e3, k4, v4, "MediaBox".spec_bytes());
        pdf::types::lemma_dict_insert_get(e3, k4, v4, "Contents".spec_bytes());
    }
    pd.add_entry(k4, v4);
    let ghost e4 = pd.entries@;
    let k5 = Name::new("Resources");
    let ghost resources_snapshot = resources;
    let v5 = Value::Dict(resources);
    proof {
        pdf::types::lemma_dict_insert_get(e4, k5, v5, "Type".spec_bytes());
        pdf::types::lemma_dict_insert_get(e4, k5, v5, "Parent".spec_bytes());
        pdf::types::lemma_dict_insert_get(e4, k5, v5, "MediaBox".spec_bytes());
        pdf::types::lemma_dict_insert_get(e4, k5, v5, "Contents".spec_bytes());
        pdf::types::lemma_dict_insert_get(e4, k5, v5, "Resources".spec_bytes());
    }
    pd.add_entry(k5, v5);
    let dv = Value::Dict(pd);
    proof {
        assert forall|i: int| 0 <= i < val_refs(dv).len() implies (((#[trigger] val_refs(
            dv,
        )[i]) as int) < w.objects@.len() + 1) by {
            let r = val_refs(dv)[i];
            assert(val_refs(dv).contains(r));
            pdf::types::lemma_dict_insert_refs_mem(e4, k5, v5, r);
            pdf::types::lemma_dict_insert_refs_mem(e3, k4, v4, r);
            pdf::types::lemma_dict_insert_refs_mem(e2, k3, v3, r);
            pdf::types::lemma_dict_insert_refs_mem(e1, k2, v2, r);
            pdf::types::lemma_dict_insert_refs_mem(e0, k1, v1, r);
            assert(!entries_refs(e0).contains(r));
            assert(val_refs(v1) =~= Seq::<usize>::empty());
            assert(val_refs(v2) =~= seq![parent]);
            assert(val_refs(v4) =~= seq![stream_id]);
            if val_refs(v5).contains(r) {
                assert(entries_refs(resources_snapshot.entries@).contains(r));
                assert(ids.contains(r));
                let k = choose|k: int| 0 <= k < ids.len() && ids[k] == r;
                assert(r < old(w).objects@.len());
            }
        }
    }
    let page_id = w.insert(ObjRef::new(0, dv));
    page_id
}

} // verus!
