//! The document object graph and its writer: nodes with assign-once
//! numeric identities, the growing output buffer, the cross-reference
//! table, and the trailer.

use vstd::prelude::*;

pub mod types;

pub use types::{Dict, Name, Stream, Value};

use crate::num::{dec_bytes, dec_padded_bytes, push_dec, push_dec_padded};
use crate::pdf::types::{ref_bytes, ref_ok, refs_bounded, refs_ok, val_bytes, val_refs, write_value};

verus! {

/// The errors of the object graph and writer.
#[derive(Debug, PartialEq, Eq, Structural)]
pub enum ObjError {
    /// An identity or a deferred value was supplied a second time,
    /// or a second root was set.
    AlreadyAssigned,
    /// The trailer has no root at write time.
    MissingRoot,
    /// A registered node has no value at write time.
    MissingValue,
    /// A serialized value references a node that never received a number.
    Unassigned,
}

/// A node of the document object graph.
///
/// A node's number is initially unset and is bound exactly once by the
/// writer; its value may be supplied at construction or deferred and
/// supplied exactly once later.
#[derive(Debug)]
pub struct ObjRef {
    /// The assigned object number, `None` until registration.
    pub num: Option<usize>,
    /// The generation number, fixed at construction.
    pub gen: usize,
    /// The payload, `None` while deferred.
    pub data: Option<Value>,
}

impl ObjRef {
    /// A fresh node holding `data`, with no number assigned yet.
    pub fn new(gen: usize, data: Value) -> (o: ObjRef)
        ensures
            o.num is None,
            o.gen == gen,
            o.data == Some(data),
    {
        ObjRef { num: None, gen, data: Some(data) }
    }

    /// A fresh node whose value will be supplied later.
    pub fn deferred(gen: usize) -> (o: ObjRef)
        ensures
            o.num is None,
            o.gen == gen,
            o.data is None,
    {
        ObjRef { num: None, gen, data: None }
    }

    /// Binds the node's number; fails if one is already bound.
    pub fn assign_num(&mut self, num: usize) -> (r: Result<(), ObjError>)
        ensures
            old(self).num is Some ==> r == Err::<(), ObjError>(ObjError::AlreadyAssigned)
                && *final(self) == *old(self),
            old(self).num is None ==> r == Ok::<(), ObjError>(()) && final(self).num == Some(num)
                && final(self).gen == old(self).gen && final(self).data == old(self).data,
    {
        match self.num {
            Some(_) => Err(ObjError::AlreadyAssigned),
            None => {
                self.num = Some(num);
                Ok(())
            },
        }
    }

    /// Supplies the value of a deferred node; fails if one is already held.
    pub fn set_data(&mut self, v: Value) -> (r: Result<(), ObjError>)
        ensures
            old(self).data is Some ==> r == Err::<(), ObjError>(ObjError::AlreadyAssigned)
                && *final(self) == *old(self),
            old(self).data is None ==> r == Ok::<(), ObjError>(()) && final(self).data == Some(v)
                && final(self).gen == old(self).gen && final(self).num == old(self).num,
    {
        match self.data {
            Some(_) => Err(ObjError::AlreadyAssigned),
            None => {
                self.data = Some(v);
                Ok(())
            },
        }
    }
}

/// The growing output byte buffer; its position is the count of bytes
/// written so far.
#[derive(Debug)]
pub struct Output {
    pub data: Vec<u8>,
}

impl View for Output {
    type V = Seq<u8>;

    open spec fn view(&self) -> Seq<u8> {
        self.data@
    }
}

impl Output {
    /// An empty output buffer.
    pub fn new() -> (o: Output)
        ensures
            o@ == Seq::<u8>::empty(),
    {
        Output { data: Vec::new() }
    }

    /// The current byte position: how many bytes were written so far.
    pub fn get_pos(&self) -> (p: usize)
        ensures
            p == self@.len(),
    {
        self.data.len()
    }

    /// The accumulated bytes.
    pub fn into_data(self) -> (d: Vec<u8>)
        ensures
            d@ == self@,
    {
        self.data
    }
}

/// One line of the cross-reference table: a ten-digit offset, a five-digit
/// generation and the free flag.
pub open spec fn crt_line(e: (usize, usize, usize, bool)) -> Seq<u8> {
    dec_padded_bytes(e.0 as nat, 10) + seq![32u8] + dec_padded_bytes(e.2 as nat, 5) + seq![32u8]
        + seq![if e.3 { 102u8 } else { 110u8 }] + seq![32u8, 10u8]
}

pub open spec fn crt_lines(s: Seq<(usize, usize, usize, bool)>) -> Seq<u8>
    decreases s.len(),
{
    if s.len() == 0 {
        Seq::empty()
    } else {
        crt_lines(s.drop_last()) + crt_line(s.last())
    }
}

/// The whole cross-reference section: `xref`, one subsection header, and
/// one line per entry.
pub open spec fn crt_bytes(s: Seq<(usize, usize, usize, bool)>) -> Seq<u8> {
    seq![120u8, 114u8, 101u8, 102u8, 10u8, 48u8, 32u8] + dec_bytes(s.len()) + seq![10u8]
        + crt_lines(s)
}

/// The stable position at which an entry with number `num` is inserted to
/// keep the table sorted: after every entry whose number is at most `num`.
pub open spec fn crt_ins_pos(s: Seq<(usize, usize, usize, bool)>, num: usize) -> int
    decreases s.len(),
{
    if s.len() == 0 {
        0
    } else if s.last().1 <= num {
        s.len() as int
    } else {
        crt_ins_pos(s.drop_last(), num)
    }
}

/// The cross-reference accumulator: entries `(offset, number, generation,
/// free)` kept in ascending number order, seeded with the implicit free
/// record for object zero, plus the table size (one more than the greatest
/// number seen).
#[derive(Debug)]
pub struct CRT {
    pub entries: Vec<(usize, usize, usize, bool)>,
    pub size: usize,
}

impl CRT {
    /// The table's invariant: at least the free record, ascending numbers,
    /// and `size` equal to the greatest number plus one.
    pub open spec fn wf(&self) -> bool {
        &&& self.entries@.len() >= 1
        &&& forall|i: int, j: int|
            0 <= i < j < self.entries@.len() ==> self.entries@[i].1 <= self.entries@[j].1
        &&& forall|i: int| 0 <= i < self.entries@.len() ==> (#[trigger] self.entries@[i].1) < self.size
        &&& exists|i: int| 0 <= i < self.entries@.len() && #[trigger] self.entries@[i].1 + 1 == self.size
    }

    /// A table holding only the implicit free record for object zero.
    pub fn new() -> (c: CRT)
        ensures
            c.wf(),
            c.entries@ == seq![(0usize, 0usize, 65535usize, true)],
            c.size == 1,
    {
        let mut entries: Vec<(usize, usize, usize, bool)> = Vec::new();
        entries.push((0, 0, 65535, true));
        proof {
            assert(entries@ =~= seq![(0usize, 0usize, 65535usize, true)]);
        }
        let c = CRT { entries, size: 1 };
        proof {
            assert(c.entries@[0].1 + 1 == c.size);
        }
        c
    }

    /// Records an in-use or free entry, keeping the table sorted by object
    /// number; insertion after equal numbers keeps first-recorded order.
    #[verifier::loop_isolation(false)]
    pub fn add_entry(&mut self, offset: usize, num: usize, gen: usize, free: bool)
        requires
            old(self).wf(),
            num < usize::MAX,
        ensures
            final(self).wf(),
            final(self).entries@ == old(self).entries@.insert(
                crt_ins_pos(old(self).entries@, num),
                (offset, num, gen, free),
            ),
            final(self).size as int == if num + 1 > old(self).size {
                num as int + 1
            } else {
                old(self).size as int
            },
    {
        let ghost s = self.entries@;
        proof {
            lemma_crt_ins_pos_char(s, num);
        }
        let mut i: usize = 0;
        while i < self.entries.len() && self.entries[i].1 <= num
            invariant
                i <= self.entries@.len(),
                forall|j: int| 0 <= j < i ==> s[j].1 <= num,
            decreases self.entries@.len() - i,
        {
            i = i + 1;
        }
        proof {
            let p = crt_ins_pos(s, num);
            if i < p {
                assert(s[i as int].1 <= num);
                assert(false);
            }
            if p < i {
                assert(s[p].1 > num);
                assert(s[p].1 <= num);
                assert(false);
            }
        }
        self.entries.insert(i, (offset, num, gen, free));
        if num >= self.size {
            self.size = num + 1;
        }
        proof {
            let s2 = self.entries@;
            let e = (offset, num, gen, free);
            assert(s2 =~= s.take(i as int) + seq![e] + s.skip(i as int));
            assert forall|a: int, b: int| 0 <= a < b < s2.len() implies s2[a].1 <= s2[b].1 by {
                assert(s2[a] == if a < i {
                    s[a]
                } else if a == i {
                    e
                } else {
                    s[a - 1]
                });
                assert(s2[b] == if b < i {
                    s[b]
                } else if b == i {
                    e
                } else {
                    s[b - 1]
                });
            }
            assert forall|a: int| 0 <= a < s2.len() implies (#[trigger] s2[a].1) < self.size by {
                assert(s2[a] == if a < i {
                    s[a]
                } else if a == i {
                    e
                } else {
                    s[a - 1]
                });
            }
            if num + 1 > old(self).size {
                assert(s2[i as int].1 + 1 == self.size);
            } else {
                let w = choose|a: int|
                    0 <= a < s.len() && #[trigger] s[a].1 + 1 == old(self).size;
                if w < i {
                    assert(s2[w].1 + 1 == self.size);
                } else {
                    assert(s2[w + 1].1 + 1 == self.size);
                }
            }
        }
    }

    /// One more than the greatest object number recorded.
    pub fn get_size(&self) -> (r: usize)
        ensures
            r == self.size,
    {
        self.size
    }

    /// Writes the cross-reference section.
    #[verifier::loop_isolation(false)]
    #[verifier::rlimit(60)]
    pub fn write(self, o: &mut Output)
        ensures
            final(o)@ == old(o)@ + crt_bytes(self.entries@),
    {
        o.data.push(120);
        o.data.push(114);
        o.data.push(101);
        o.data.push(102);
        o.data.push(10);
        o.data.push(48);
        o.data.push(32);
        push_dec(self.entries.len() as u64, &mut o.data);
        o.data.push(10);
        let ghost pre = o.data@;
        proof {
            assert(pre =~= old(o)@ + seq![120u8, 114u8, 101u8, 102u8, 10u8, 48u8, 32u8]
                + dec_bytes(self.entries@.len()) + seq![10u8]);
        }
        let mut k: usize = 0;
        while k < self.entries.len()
            invariant
                k <= self.entries@.len(),
                o.data@ == pre + crt_lines(self.entries@.take(k as int)),
            decreases self.entries@.len() - k,
        {
            let e = self.entries[k];
            push_dec_padded(e.0 as u64, 10, &mut o.data);
            o.data.push(32);
            push_dec_padded(e.2 as u64, 5, &mut o.data);
            o.data.push(32);
            if e.3 {
                o.data.push(102);
            } else {
                o.data.push(110);
            }
            o.data.push(32);
            o.data.push(10);
            proof {
                assert(self.entries@.take(k + 1).drop_last() =~= self.entries@.take(k as int));
                assert(self.entries@.take(k + 1).last() == self.entries@[k as int]);
                assert(o.data@ =~= pre + crt_lines(self.entries@.take(k + 1)));
            }
            k = k + 1;
        }
        proof {
            assert(self.entries@.take(self.entries@.len() as int) =~= self.entries@);
            assert(final(o)@ =~= old(o)@ + crt_bytes(self.entries@));
        }
    }
}

/// The trailer record: total object count, the root reference, and the
/// optional metadata and file identifier entries.
#[derive(Debug)]
pub struct Trailer {
    /// The cross-reference size, set just before writing.
    pub size: Option<usize>,
    /// The node index of the document root.
    pub root: Option<usize>,
    /// An optional metadata value.
    pub info: Option<Value>,
    /// An optional file identifier value.
    pub id: Option<Value>,
}

/// The serialized trailer: `trailer` and a dictionary holding `Size`,
/// `Root`, and the optional `Info` and `ID` entries.
pub open spec fn trailer_bytes(
    nodes: Seq<ObjRef>,
    size: nat,
    root: int,
    info: Option<Value>,
    id: Option<Value>,
) -> Seq<u8> {
    seq![116u8, 114u8, 97u8, 105u8, 108u8, 101u8, 114u8, 10u8] + seq![60u8, 60u8, 10u8] + seq![
        47u8,
        83u8,
        105u8,
        122u8,
        101u8,
        32u8,
    ] + dec_bytes(size) + seq![10u8] + seq![47u8, 82u8, 111u8, 111u8, 116u8, 32u8] + ref_bytes(
        nodes,
        root,
    ) + seq![10u8] + (match info {
        Some(v) => seq![47u8, 73u8, 110u8, 102u8, 111u8, 32u8] + val_bytes(nodes, v) + seq![10u8],
        None => Seq::empty(),
    }) + (match id {
        Some(v) => seq![47u8, 73u8, 68u8, 32u8] + val_bytes(nodes, v) + seq![10u8],
        None => Seq::empty(),
    }) + seq![62u8, 62u8, 10u8]
}

/// Whether the trailer's own references can all be serialized.
pub open spec fn trailer_refs_ok(nodes: Seq<ObjRef>, t: Trailer) -> bool {
    &&& (t.root matches Some(id) ==> ref_ok(nodes, id as int))
    &&& (t.info matches Some(v) ==> refs_ok(nodes, v))
    &&& (t.id matches Some(v) ==> refs_ok(nodes, v))
}

impl Trailer {
    /// An empty trailer: no size, no root, no optional entries.
    pub fn new() -> (t: Trailer)
        ensures
            t.size is None,
            t.root is None,
            t.info is None,
            t.id is None,
    {
        Trailer { size: None, root: None, info: None, id: None }
    }

    /// Writes the trailer section; fails with `MissingRoot` when no root
    /// was set, and with `Unassigned` when a reference in the trailer
    /// cannot be resolved.
    #[verifier::rlimit(100)]
    pub fn write(&self, nodes: &Vec<ObjRef>, o: &mut Output) -> (r: Result<(), ObjError>)
        requires
            self.size is Some,
        ensures
            self.root is None ==> r == Err::<(), ObjError>(ObjError::MissingRoot),
            self.root is Some && !trailer_refs_ok(nodes@, *self) ==> r == Err::<(), ObjError>(
                ObjError::Unassigned,
            ),
            self.root is Some && trailer_refs_ok(nodes@, *self) ==> r == Ok::<(), ObjError>(())
                && final(o)@ == old(o)@ + trailer_bytes(
                nodes@,
                self.size->0 as nat,
                self.root->0 as int,
                self.info,
                self.id,
            ),
    {
        let root_id = match self.root {
            None => {
                return Err(ObjError::MissingRoot);
            },
            Some(id) => id,
        };
        if root_id >= nodes.len() {
            return Err(ObjError::Unassigned);
        }
        let (root_num, root_gen) = match nodes[root_id].num {
            None => {
                return Err(ObjError::Unassigned);
            },
            Some(n) => (n, nodes[root_id].gen),
        };
        let ghost before = o@;
        push_trailer_kw(&mut o.data);
        push_dict_open(&mut o.data);
        push_size_key(&mut o.data);
        let size = match self.size {
            Some(s) => s,
            None => 0,
        };
        push_dec(size as u64, &mut o.data);
        o.data.push(10);
        let ghost seg1 = o@;
        proof {
            assert(seg1 =~= before + seq![116u8, 114u8, 97u8, 105u8, 108u8, 101u8, 114u8, 10u8]
                + seq![60u8, 60u8, 10u8] + seq![47u8, 83u8, 105u8, 122u8, 101u8, 32u8] + dec_bytes(
                size as nat,
            ) + seq![10u8]);
        }
        push_root_key(&mut o.data);
        push_ref_token(root_num, root_gen, &mut o.data);
        o.data.push(10);
        let ghost seg2 = o@;
        proof {
            assert(seg2 =~= seg1 + seq![47u8, 82u8, 111u8, 111u8, 116u8, 32u8] + ref_bytes(
                nodes@,
                self.root->0 as int,
            ) + seq![10u8]);
        }
        match &self.info {
            Some(v) => {
                push_info_key(&mut o.data);
                let ok = write_value(nodes, v, &mut o.data);
                if !ok {
                    return Err(ObjError::Unassigned);
                }
                o.data.push(10);
            },
            None => {},
        }
        let ghost seg3 = o@;
        proof {
            assert(seg3 =~= seg2 + (match self.info {
                Some(v) => seq![47u8, 73u8, 110u8, 102u8, 111u8, 32u8] + val_bytes(nodes@, v)
                    + seq![10u8],
                None => Seq::<u8>::empty(),
            }));
        }
        match &self.id {
            Some(v) => {
                push_id_key(&mut o.data);
                let ok = write_value(nodes, v, &mut o.data);
                if !ok {
                    return Err(ObjError::Unassigned);
                }
                o.data.push(10);
            },
            None => {},
        }
        let ghost seg4 = o@;
        proof {
            assert(seg4 =~= seg3 + (match self.id {
                Some(v) => seq![47u8, 73u8, 68u8, 32u8] + val_bytes(nodes@, v) + seq![10u8],
                None => Seq::<u8>::empty(),
            }));
        }
        push_dict_close(&mut o.data);
        proof {
            assert(final(o)@ =~= before + trailer_bytes(
                nodes@,
                self.size->0 as nat,
                self.root->0 as int,
                self.info,
                self.id,
            ));
        }
        Ok(())
    }
}


fn push_trailer_kw(out: &mut Vec<u8>)
    ensures
        final(out)@ == old(out)@ + seq![116u8, 114u8, 97u8, 105u8, 108u8, 101u8, 114u8, 10u8],
{
    out.push(116);
    out.push(114);
    out.push(97);
    out.push(105);
    out.push(108);
    out.push(101);
    out.push(114);
    out.push(10);
    proof {
        assert(final(out)@ =~= old(out)@ + seq![
            116u8,
            114u8,
            97u8,
            105u8,
            108u8,
            101u8,
            114u8,
            10u8,
        ]);
    }
}

fn push_dict_open(out: &mut Vec<u8>)
    ensures
        final(out)@ == old(out)@ + seq![60u8, 60u8, 10u8],
{
    out.push(60);
    out.push(60);
    out.push(10);
    proof {
        assert(final(out)@ =~= old(out)@ + seq![60u8, 60u8, 10u8]);
    }
}

fn push_dict_close(out: &mut Vec<u8>)
    ensures
        final(out)@ == old(out)@ + seq![62u8, 62u8, 10u8],
{
    out.push(62);
    out.push(62);
    out.push(10);
    proof {
        assert(final(out)@ =~= old(out)@ + seq![62u8, 62u8, 10u8]);
    }
}

fn push_size_key(out: &mut Vec<u8>)
    ensures
        final(out)@ == old(out)@ + seq![47u8, 83u8, 105u8, 122u8, 101u8, 32u8],
{
    out.push(47);
    out.push(83);
    out.push(105);
    out.push(122);
    out.push(101);
    out.push(32);
    proof {
        assert(final(out)@ =~= old(out)@ + seq![47u8, 83u8, 105u8, 122u8, 101u8, 32u8]);
    }
}

fn push_root_key(out: &mut Vec<u8>)
    ensures
        final(out)@ == old(out)@ + seq![47u8, 82u8, 111u8, 111u8, 116u8, 32u8],
{
    out.push(47);
    out.push(82);
    out.push(111);
    out.push(111);
    out.push(116);
    out.push(32);
    proof {
        assert(final(out)@ =~= old(out)@ + seq![47u8, 82u8, 111u8, 111u8, 116u8, 32u8]);
    }
}

fn push_info_key(out: &mut Vec<u8>)
    ensures
        final(out)@ == old(out)@ + seq![47u8, 73u8, 110u8, 102u8, 111u8, 32u8],
{
    out.push(47);
    out.push(73);
    out.push(110);
    out.push(102);
    out.push(111);
    out.push(32);
    proof {
        assert(final(out)@ =~= old(out)@ + seq![47u8, 73u8, 110u8, 102u8, 111u8, 32u8]);
    }
}

fn push_id_key(out: &mut Vec<u8>)
    ensures
        final(out)@ == old(out)@ + seq![47u8, 73u8, 68u8, 32u8],
{
    out.push(47);
    out.push(73);
    out.push(68);
    out.push(32);
    proof {
        assert(final(out)@ =~= old(out)@ + seq![47u8, 73u8, 68u8, 32u8]);
    }
}

fn push_ref_token(num: usize, gen: usize, out: &mut Vec<u8>)
    ensures
        final(out)@ == old(out)@ + dec_bytes(num as nat) + seq![32u8] + dec_bytes(gen as nat)
            + seq![32u8, 82u8],
{
    push_dec(num as u64, out);
    out.push(32);
    push_dec(gen as u64, out);
    out.push(32);
    out.push(82);
    proof {
        assert(final(out)@ =~= old(out)@ + dec_bytes(num as nat) + seq![32u8] + dec_bytes(
            gen as nat,
        ) + seq![32u8, 82u8]);
    }
}


/// How many nodes still lack a number.
pub open spec fn count_unassigned(s: Seq<ObjRef>) -> nat
    decreases s.len(),
{
    if s.len() == 0 {
        0
    } else {
        count_unassigned(s.drop_last()) + if s.last().num is None {
            1nat
        } else {
            0nat
        }
    }
}

proof fn lemma_count_unassigned_update(s: Seq<ObjRef>, i: int, node: ObjRef)
    requires
        0 <= i < s.len(),
        s[i].num is None,
        node.num is Some,
    ensures
        count_unassigned(s.update(i, node)) + 1 == count_unassigned(s),
    decreases s.len(),
{
    let s2 = s.update(i, node);
    if i == s.len() - 1 {
        assert(s2.drop_last() =~= s.drop_last());
        assert(s2.last() == node);
    } else {
        assert(s2.drop_last() =~= s.drop_last().update(i, node));
        assert(s2.last() == s.last());
        lemma_count_unassigned_update(s.drop_last(), i, node);
    }
}

proof fn lemma_count_unassigned_same_num(s: Seq<ObjRef>, i: int, node: ObjRef)
    requires
        0 <= i < s.len(),
        node.num == s[i].num,
    ensures
        count_unassigned(s.update(i, node)) == count_unassigned(s),
    decreases s.len(),
{
    let s2 = s.update(i, node);
    if i == s.len() - 1 {
        assert(s2.drop_last() =~= s.drop_last());
        assert(s2.last() == node);
    } else {
        assert(s2.drop_last() =~= s.drop_last().update(i, node));
        assert(s2.last() == s.last());
        lemma_count_unassigned_same_num(s.drop_last(), i, node);
    }
}

proof fn lemma_count_unassigned_pos(s: Seq<ObjRef>, i: int)
    requires
        0 <= i < s.len(),
        s[i].num is None,
    ensures
        count_unassigned(s) >= 1,
    decreases s.len(),
{
    if i == s.len() - 1 {
    } else {
        assert(s.drop_last()[i] == s[i]);
        lemma_count_unassigned_pos(s.drop_last(), i);
    }
}

proof fn lemma_count_unassigned_push(s: Seq<ObjRef>, o: ObjRef)
    ensures
        count_unassigned(s.push(o)) == count_unassigned(s) + if o.num is None {
            1nat
        } else {
            0nat
        },
{
    assert(s.push(o).drop_last() =~= s);
    assert(s.push(o).last() == o);
}

/// Whether `b` is an evolution of `a` that keeps every node's value and
/// generation and never revokes or changes an assigned number.
pub open spec fn nodes_frame(a: Seq<ObjRef>, b: Seq<ObjRef>) -> bool {
    &&& b.len() == a.len()
    &&& forall|j: int|
        0 <= j < a.len() ==> (#[trigger] b[j]).gen == a[j].gen && b[j].data == a[j].data
    &&& forall|j: int|
        0 <= j < a.len() && (#[trigger] a[j].num) is Some ==> b[j].num == a[j].num
}

/// The direct dependencies of node `j`: the nodes its value references.
pub open spec fn node_refs(nodes: Seq<ObjRef>, j: int) -> Seq<usize> {
    match nodes[j].data {
        Some(v) => val_refs(v),
        None => Seq::empty(),
    }
}

/// Whether node `j`'s value references only indices below `bound`.
pub open spec fn node_refs_bounded(nodes: Seq<ObjRef>, j: int, bound: int) -> bool {
    match nodes[j].data {
        Some(v) => refs_bounded(v, bound),
        None => true,
    }
}

proof fn lemma_node_refs_bounded_mono(nodes: Seq<ObjRef>, j: int, a: int, b: int)
    requires
        node_refs_bounded(nodes, j, a),
        a <= b,
    ensures
        node_refs_bounded(nodes, j, b),
{
}

/// Whether every in-range dependency of node `j` has a number.
pub open spec fn node_deps_assigned(nodes: Seq<ObjRef>, j: int) -> bool {
    forall|i: int|
        0 <= i < node_refs(nodes, j).len() ==> (((#[trigger] node_refs(nodes, j)[i]) as int) < nodes.len() ==> nodes[node_refs(nodes, j)[i] as int].num is Some)
}

/// Whether every node that gained a number between `a` and `b` has all its
/// in-range dependencies numbered in `b`: freshly registered nodes are
/// dependency-closed.
pub open spec fn new_closed(a: Seq<ObjRef>, b: Seq<ObjRef>) -> bool {
    forall|j: int|
        0 <= j < b.len() && j < a.len() && a[j].num is None && (#[trigger] b[j].num) is Some
            ==> node_deps_assigned(b, j)
}

spec fn new_closed_except(a: Seq<ObjRef>, b: Seq<ObjRef>, ex: int) -> bool {
    forall|j: int|
        0 <= j < b.len() && j < a.len() && j != ex && a[j].num is None && (#[trigger] b[j].num)
            is Some ==> node_deps_assigned(b, j)
}

proof fn lemma_nodes_frame_trans(a: Seq<ObjRef>, b: Seq<ObjRef>, c: Seq<ObjRef>)
    requires
        nodes_frame(a, b),
        nodes_frame(b, c),
    ensures
        nodes_frame(a, c),
{
}

proof fn lemma_node_deps_monotone(b: Seq<ObjRef>, c: Seq<ObjRef>, j: int)
    requires
        0 <= j < b.len(),
        nodes_frame(b, c),
        node_deps_assigned(b, j),
    ensures
        node_deps_assigned(c, j),
{
    assert(c[j].data == b[j].data);
    assert(node_refs(c, j) == node_refs(b, j));
    assert forall|i: int|
        0 <= i < node_refs(c, j).len() && (((#[trigger] node_refs(c, j)[i]) as int)
            < c.len()) implies c[node_refs(c, j)[i] as int].num is Some by {
        assert(b[node_refs(b, j)[i] as int].num is Some);
    }
}

proof fn lemma_closed_except_step(a: Seq<ObjRef>, b: Seq<ObjRef>, c: Seq<ObjRef>, ex: int)
    requires
        nodes_frame(a, b),
        nodes_frame(b, c),
        new_closed_except(a, b, ex),
        new_closed(b, c),
    ensures
        new_closed_except(a, c, ex),
{
    assert forall|j: int|
        0 <= j < c.len() && j < a.len() && j != ex && a[j].num is None && (#[trigger] c[j].num)
            is Some implies node_deps_assigned(c, j) by {
        if b[j].num is Some {
            assert(node_deps_assigned(b, j));
            lemma_node_deps_monotone(b, c, j);
        } else {
            assert(node_deps_assigned(c, j));
        }
    }
}

/// Whether `p` is a dependency path: consecutive entries are nodes where
/// each one's value references the next.
pub open spec fn dep_path_ok(nodes: Seq<ObjRef>, p: Seq<usize>) -> bool {
    &&& p.len() >= 1
    &&& forall|k: int| 0 <= k < p.len() ==> ((#[trigger] p[k]) as int) < nodes.len()
    &&& forall|k: int|
        0 <= k < p.len() - 1 ==> node_refs(nodes, #[trigger] p[k] as int).contains(p[k + 1])
}

/// Whether node `to` is reachable from node `from` along value references.
pub open spec fn reaches(nodes: Seq<ObjRef>, from: usize, to: usize) -> bool {
    exists|p: Seq<usize>| dep_path_ok(nodes, p) && p.first() == from && p.last() == to
}

proof fn lemma_reaches_self(nodes: Seq<ObjRef>, x: usize)
    requires
        (x as int) < nodes.len(),
    ensures
        reaches(nodes, x, x),
{
    let p = seq![x];
    assert(dep_path_ok(nodes, p) && p.first() == x && p.last() == x);
}

proof fn lemma_reaches_prepend(nodes: Seq<ObjRef>, from: usize, mid: usize, to: usize)
    requires
        (from as int) < nodes.len(),
        node_refs(nodes, from as int).contains(mid),
        reaches(nodes, mid, to),
    ensures
        reaches(nodes, from, to),
{
    let p = choose|p: Seq<usize>| dep_path_ok(nodes, p) && p.first() == mid && p.last() == to;
    let q = seq![from] + p;
    assert(q.first() == from);
    assert(q.last() == to);
    assert forall|k: int| 0 <= k < q.len() implies ((#[trigger] q[k]) as int) < nodes.len() by {
        if k > 0 {
            assert(q[k] == p[k - 1]);
        }
    }
    assert forall|k: int| 0 <= k < q.len() - 1 implies node_refs(
        nodes,
        #[trigger] q[k] as int,
    ).contains(q[k + 1]) by {
        if k == 0 {
            assert(q[1] == p[0]);
        } else {
            assert(q[k] == p[k - 1]);
            assert(q[k + 1] == p[k]);
            assert(node_refs(nodes, p[k - 1] as int).contains(p[k]));
        }
    }
    assert(dep_path_ok(nodes, q));
}

proof fn lemma_reaches_frame(a: Seq<ObjRef>, b: Seq<ObjRef>, from: usize, to: usize)
    requires
        nodes_frame(a, b),
        reaches(b, from, to),
    ensures
        reaches(a, from, to),
{
    let p = choose|p: Seq<usize>| dep_path_ok(b, p) && p.first() == from && p.last() == to;
    assert forall|k: int| 0 <= k < p.len() - 1 implies node_refs(
        a,
        #[trigger] p[k] as int,
    ).contains(p[k + 1]) by {
        assert(node_refs(b, p[k] as int).contains(p[k + 1]));
        assert(a[p[k] as int].data == b[p[k] as int].data);
    }
    assert(dep_path_ok(a, p));
}

/// Whether every numbered node's in-range dependencies are numbered: what
/// registration establishes and keeps.
pub open spec fn deps_closed_all(nodes: Seq<ObjRef>) -> bool {
    forall|j: int|
        0 <= j < nodes.len() && (#[trigger] nodes[j].num) is Some ==> node_deps_assigned(nodes, j)
}

proof fn lemma_path_assigned(nodes: Seq<ObjRef>, p: Seq<usize>, k: int)
    requires
        dep_path_ok(nodes, p),
        deps_closed_all(nodes),
        nodes[p.first() as int].num is Some,
        0 <= k < p.len(),
    ensures
        nodes[p[k] as int].num is Some,
    decreases k,
{
    if k > 0 {
        lemma_path_assigned(nodes, p, k - 1);
        assert(node_refs(nodes, p[k - 1] as int).contains(p[k]));
        assert(node_deps_assigned(nodes, p[k - 1] as int));
        let refs = node_refs(nodes, p[k - 1] as int);
        let i = choose|i: int| 0 <= i < refs.len() && refs[i] == p[k];
        assert((refs[i] as int) < nodes.len());
    }
}

/// In a dependency-closed graph, everything reachable from a numbered node
/// is numbered: together with the writer's one-to-one correspondence of
/// numbers and registered nodes, the object count equals the number of
/// distinct nodes reachable from the registered roots, not the number of
/// registration calls.
pub proof fn lemma_reachable_registered(nodes: Seq<ObjRef>, from: usize, to: usize)
    requires
        deps_closed_all(nodes),
        (from as int) < nodes.len(),
        nodes[from as int].num is Some,
        reaches(nodes, from, to),
    ensures
        nodes[to as int].num is Some,
{
    let p = choose|p: Seq<usize>| dep_path_ok(nodes, p) && p.first() == from && p.last() == to;
    lemma_path_assigned(nodes, p, p.len() - 1);
}

/// One serialized object: `num gen obj`, the value, then `endobj`.
pub open spec fn obj_block_bytes(nodes: Seq<ObjRef>, id: int) -> Seq<u8> {
    dec_bytes(nodes[id].num->0 as nat) + seq![32u8] + dec_bytes(nodes[id].gen as nat) + seq![
        32u8,
        111u8,
        98u8,
        106u8,
        10u8,
    ] + val_bytes(nodes, nodes[id].data->0) + seq![101u8, 110u8, 100u8, 111u8, 98u8, 106u8, 10u8]
}

/// The serialized objects, in registration order.
pub open spec fn objs_bytes(nodes: Seq<ObjRef>, order: Seq<usize>) -> Seq<u8>
    decreases order.len(),
{
    if order.len() == 0 {
        Seq::empty()
    } else {
        objs_bytes(nodes, order.drop_last()) + obj_block_bytes(nodes, order.last() as int)
    }
}

/// The fixed file header: the format tag and the binary marker line.
pub open spec fn header_bytes() -> Seq<u8> {
    seq![
        37u8,
        80u8,
        68u8,
        70u8,
        45u8,
        49u8,
        46u8,
        52u8,
        10u8,
        37u8,
        239u8,
        191u8,
        189u8,
        239u8,
        191u8,
        189u8,
        239u8,
        191u8,
        189u8,
        239u8,
        191u8,
        189u8,
        10u8,
    ]
}

/// The cross-reference entry for the `k`-th registered object: its byte
/// offset, its number `k + 1`, its generation, in use.
pub open spec fn xref_entry_at(nodes: Seq<ObjRef>, order: Seq<usize>, k: int) -> (
    usize,
    usize,
    usize,
    bool,
) {
    (
        (header_bytes() + objs_bytes(nodes, order.take(k))).len() as usize,
        (k + 1) as usize,
        nodes[order[k] as int].gen,
        false,
    )
}

/// All cross-reference entries: the implicit free record, then one in-use
/// record per registered object, in ascending number order.
pub open spec fn spec_xref_entries(nodes: Seq<ObjRef>, order: Seq<usize>) -> Seq<
    (usize, usize, usize, bool),
> {
    seq![(0usize, 0usize, 65535usize, true)] + Seq::new(
        order.len(),
        |k: int| xref_entry_at(nodes, order, k),
    )
}

/// The first failure the serializer meets walking the registered objects:
/// a registered node without a value, or a value referencing an
/// unnumbered node.
pub open spec fn first_obj_err(nodes: Seq<ObjRef>, order: Seq<usize>) -> Option<ObjError>
    decreases order.len(),
{
    if order.len() == 0 {
        None
    } else {
        match nodes[order[0] as int].data {
            None => Some(ObjError::MissingValue),
            Some(v) => if !refs_ok(nodes, v) {
                Some(ObjError::Unassigned)
            } else {
                first_obj_err(nodes, order.drop_first())
            },
        }
    }
}

/// Every registered object's serialized block occurs intact inside the
/// serialized object section, at some offset.
pub proof fn lemma_objs_bytes_contain_block(nodes: Seq<ObjRef>, order: Seq<usize>, j: int)
    requires
        0 <= j < order.len(),
    ensures
        exists|off: int|
            0 <= off && off + obj_block_bytes(nodes, order[j] as int).len() <= objs_bytes(
                nodes,
                order,
            ).len() && #[trigger] objs_bytes(nodes, order).subrange(
                off,
                off + obj_block_bytes(nodes, order[j] as int).len() as int,
            ) == obj_block_bytes(nodes, order[j] as int),
    decreases order.len(),
{
    let blk = obj_block_bytes(nodes, order[j] as int);
    let whole = objs_bytes(nodes, order);
    if j == order.len() - 1 {
        let off = objs_bytes(nodes, order.drop_last()).len() as int;
        assert(order.last() == order[j]);
        assert(whole == objs_bytes(nodes, order.drop_last()) + blk);
        assert(whole.subrange(off, off + blk.len() as int) =~= blk);
    } else {
        assert(order.drop_last()[j] == order[j]);
        lemma_objs_bytes_contain_block(nodes, order.drop_last(), j);
        let prefix = objs_bytes(nodes, order.drop_last());
        let off = choose|off: int|
            0 <= off && off + blk.len() <= prefix.len() && #[trigger] prefix.subrange(
                off,
                off + blk.len() as int,
            ) == blk;
        assert(whole == prefix + obj_block_bytes(nodes, order.last() as int));
        assert(whole.subrange(off, off + blk.len() as int) =~= prefix.subrange(
            off,
            off + blk.len() as int,
        ));
    }
}

/// The bytes of the whole file: header, objects, cross-reference table,
/// trailer (whose `Size` is the object count plus one), and the
/// `startxref` pointer at the byte where the table began.
pub open spec fn file_bytes(w: PDFWrite) -> Seq<u8> {
    let nodes = w.objects@;
    let ord = w.order@;
    header_bytes() + objs_bytes(nodes, ord) + crt_bytes(spec_xref_entries(nodes, ord))
        + trailer_bytes(
        nodes,
        (ord.len() + 1) as nat,
        w.trailer.root->0 as int,
        w.trailer.info,
        w.trailer.id,
    ) + seq![115u8, 116u8, 97u8, 114u8, 116u8, 120u8, 114u8, 101u8, 102u8, 10u8] + dec_bytes(
        (header_bytes() + objs_bytes(nodes, ord)).len(),
    ) + seq![10u8, 37u8, 37u8, 69u8, 79u8, 70u8]
}

/// The document writer: owns the node arena, hands out ascending object
/// numbers on registration, and serializes the whole document.
#[derive(Debug)]
pub struct PDFWrite {
    /// Every node of the object graph, indexed by the ids `insert` returns.
    pub objects: Vec<ObjRef>,
    /// Indices of the registered nodes, in number order: the node at
    /// `order[i]` carries number `i + 1`.
    pub order: Vec<usize>,
    /// The next number to hand out; number zero is reserved for the
    /// implicit free record.
    pub cur_num: usize,
    /// The trailer being accumulated.
    pub trailer: Trailer,
}

impl PDFWrite {
    /// The writer's invariant: numbers are handed out in ascending order
    /// starting at one, registered nodes and numbers correspond one to
    /// one, and a set root is a numbered node.
    pub open spec fn wf(&self) -> bool {
        let nodes = self.objects@;
        let ord = self.order@;
        &&& self.cur_num as int == ord.len() + 1
        &&& forall|i: int|
            0 <= i < ord.len() ==> (#[trigger] ord[i]) < nodes.len() && nodes[ord[i] as int].num
                == Some((i + 1) as usize)
        &&& forall|j: int|
            0 <= j < nodes.len() && (#[trigger] nodes[j].num) is Some ==> exists|i: int|
                0 <= i < ord.len() && ord[i] as int == j
        &&& ord.len() + count_unassigned(nodes) <= nodes.len()
        &&& nodes.len() + 1 <= usize::MAX
        &&& forall|j: int| 0 <= j < nodes.len() ==> node_refs_bounded(nodes, j, nodes.len() as int)
        &&& (self.trailer.root matches Some(id) ==> id < nodes.len() && nodes[id as int].num
            is Some)
    }

    /// A writer with an empty object graph and an empty trailer.
    pub fn new() -> (w: PDFWrite)
        ensures
            w.wf(),
            w.objects@ == Seq::<ObjRef>::empty(),
            w.order@ == Seq::<usize>::empty(),
            w.cur_num == 1,
            w.trailer.root is None,
            w.trailer.size is None,
            w.trailer.info is None,
            w.trailer.id is None,
    {
        PDFWrite {
            objects: Vec::new(),
            order: Vec::new(),
            cur_num: 1,
            trailer: Trailer::new(),
        }
    }

    /// Places a fresh, unregistered node into the object graph and returns
    /// its index. The bound on the graph's size keeps every future number
    /// representable.
    pub fn insert(&mut self, o: ObjRef) -> (id: usize)
        requires
            old(self).wf(),
            o.num is None,
            old(self).objects@.len() + 2 <= usize::MAX,
            o.data matches Some(v) ==> refs_bounded(v, old(self).objects@.len() as int + 1),
        ensures
            final(self).wf(),
            id == old(self).objects@.len(),
            final(self).objects@ == old(self).objects@.push(o),
            final(self).order@ == old(self).order@,
            final(self).cur_num == old(self).cur_num,
            final(self).trailer == old(self).trailer,
    {
        let id = self.objects.len();
        proof {
            lemma_count_unassigned_push(self.objects@, o);
        }
        self.objects.push(o);
        proof {
            let nodes = self.objects@;
            let ord = self.order@;
            assert forall|j: int|
                0 <= j < nodes.len() && (#[trigger] nodes[j].num) is Some implies exists|i: int|
                0 <= i < ord.len() && ord[i] as int == j by {
                assert(j < old(self).objects@.len());
                assert(old(self).objects@[j].num is Some);
            }
            assert forall|j: int| 0 <= j < nodes.len() implies node_refs_bounded(
                nodes,
                j,
                nodes.len() as int,
            ) by {
                if j < old(self).objects@.len() {
                    assert(node_refs_bounded(
                        old(self).objects@,
                        j,
                        old(self).objects@.len() as int,
                    ));
                    assert(nodes[j] == old(self).objects@[j]);
                    lemma_node_refs_bounded_mono(nodes, j, old(self).objects@.len() as int, nodes.len() as int);
                } else {
                    assert(nodes[j] == o);
                }
            }
        }
        id
    }

    /// Registers the node `id`: if it has no number yet, binds the next
    /// sequential number, appends it to the write order, and then
    /// transitively registers every node its value references. A node
    /// that already has a number, or an out-of-range index, is left
    /// entirely unchanged, so repeated registration is a no-op.
    #[verifier::loop_isolation(false)]
    #[verifier::rlimit(100)]
    pub fn add_object(&mut self, id: usize)
        requires
            old(self).wf(),
        ensures
            final(self).wf(),
            nodes_frame(old(self).objects@, final(self).objects@),
            old(self).order@.is_prefix_of(final(self).order@),
            final(self).trailer == old(self).trailer,
            count_unassigned(final(self).objects@) <= count_unassigned(old(self).objects@),
            (id >= old(self).objects@.len() || old(self).objects@[id as int].num is Some)
                ==> *final(self) == *old(self),
            id < old(self).objects@.len() ==> final(self).objects@[id as int].num is Some,
            (id < old(self).objects@.len() && old(self).objects@[id as int].num is None) ==> (
            final(self).objects@[id as int].num == Some(old(self).cur_num) && old(
                self,
            ).order@.len() < final(self).order@.len() && final(self).order@[old(
                self,
            ).order@.len() as int] == id),
            new_closed(old(self).objects@, final(self).objects@),
            forall|j: int|
                0 <= j < old(self).objects@.len() && old(self).objects@[j].num is None && (
                #[trigger] final(self).objects@[j].num) is Some ==> reaches(
                    old(self).objects@,
                    id,
                    j as usize,
                ),
        decreases count_unassigned(self.objects@),
    {
        if id >= self.objects.len() {
            return;
        }
        let already = self.objects[id].num.is_some();
        if already {
            return;
        }
        let ghost s0 = self.objects@;
        let ghost c0 = count_unassigned(s0);
        proof {
            lemma_count_unassigned_pos(s0, id as int);
        }
        let num = self.cur_num;
        let node = &mut self.objects[id];
        node.num = Some(num);
        proof {
            assert(self.objects@ =~= s0.update(id as int, self.objects@[id as int]));
            lemma_count_unassigned_update(s0, id as int, self.objects@[id as int]);
        }
        self.order.push(id);
        self.cur_num = self.cur_num + 1;
        let ghost s1 = self.objects@;
        proof {
            let nodes = s1;
            let ord = self.order@;
            assert forall|i: int|
                0 <= i < ord.len() implies (#[trigger] ord[i]) < nodes.len() && nodes[ord[i] as int].num
                == Some((i + 1) as usize) by {
                if i < ord.len() - 1 {
                    assert(old(self).order@[i] == ord[i]);
                    assert(s0[ord[i] as int].num is Some);
                    assert(ord[i] as int != id as int);
                }
            }
            assert forall|j: int|
                0 <= j < nodes.len() && (#[trigger] nodes[j].num) is Some implies exists|i: int|
                0 <= i < ord.len() && ord[i] as int == j by {
                if j == id as int {
                    assert(ord[ord.len() - 1] as int == j);
                } else {
                    assert(s0[j].num is Some);
                    let i = choose|i: int|
                        0 <= i < old(self).order@.len() && old(self).order@[i] as int == j;
                    assert(ord[i] as int == j);
                }
            }
            assert forall|j: int| 0 <= j < nodes.len() implies node_refs_bounded(
                nodes,
                j,
                nodes.len() as int,
            ) by {
                assert(node_refs_bounded(s0, j, s0.len() as int));
                assert(nodes[j].data == s0[j].data);
            }
            assert(self.wf());
        }
        proof {
            lemma_reaches_self(s0, id);
        }
        let mut deps: Vec<usize> = Vec::new();
        match &self.objects[id].data {
            Some(v) => crate::pdf::types::collect_refs(v, &mut deps),
            None => {},
        }
        let ghost mid = self.objects@;
        let mut k: usize = 0;
        while k < deps.len()
            invariant
                k <= deps@.len(),
                self.wf(),
                nodes_frame(s0, self.objects@),
                nodes_frame(s1, self.objects@),
                old(self).order@.is_prefix_of(self.order@),
                self.trailer == old(self).trailer,
                count_unassigned(self.objects@) <= c0 - 1,
                self.objects@[id as int].num is Some,
                self.objects@[id as int].num == Some(old(self).cur_num),
                old(self).order@.len() < self.order@.len(),
                self.order@[old(self).order@.len() as int] == id,
                deps@ == node_refs(s0, id as int),
                forall|j: int|
                    0 <= j < k ==> (((#[trigger] deps@[j]) as int) < self.objects@.len() ==> self.objects@[deps@[j] as int].num is Some),
                new_closed_except(s0, self.objects@, id as int),
                forall|j: int|
                    0 <= j < s0.len() && s0[j].num is None && (#[trigger] self.objects@[j].num)
                        is Some ==> reaches(s0, id, j as usize),
            decreases deps@.len() - k,
        {
            let d = deps[k];
            let ghost before = self.objects@;
            self.add_object(d);
            proof {
                lemma_nodes_frame_trans(s0, before, self.objects@);
                lemma_nodes_frame_trans(s1, before, self.objects@);
                lemma_closed_except_step(s0, before, self.objects@, id as int);
                assert forall|j: int|
                    0 <= j < s0.len() && s0[j].num is None && (#[trigger] self.objects@[j].num)
                        is Some implies reaches(s0, id, j as usize) by {
                    if before[j].num is Some {
                        assert(reaches(s0, id, j as usize));
                    } else {
                        assert(reaches(before, d, j as usize));
                        lemma_reaches_frame(s0, before, d, j as usize);
                        assert(node_refs(s0, id as int).contains(d));
                        lemma_reaches_prepend(s0, id, d, j as usize);
                    }
                }
                assert forall|j: int|
                    0 <= j < k + 1 && ((#[trigger] deps@[j]) as int)
                        < self.objects@.len() implies self.objects@[deps@[j] as int].num
                    is Some by {
                    if j < k {
                        assert(before[deps@[j] as int].num is Some);
                    } else {
                        assert(self.objects@[deps@[j] as int].num is Some);
                    }
                }
            }
            k = k + 1;
        }
        proof {
            assert(node_deps_assigned(self.objects@, id as int)) by {
                assert(self.objects@[id as int].data == s0[id as int].data);
                assert(node_refs(self.objects@, id as int) == deps@);
            }
            assert(new_closed(s0, self.objects@));
        }
    }

    /// Wraps `root` in a fresh node, registers it together with its
    /// dependencies, and makes it the document root; fails when a root
    /// was already set.
    pub fn create_root(&mut self, root: Value) -> (r: Result<usize, ObjError>)
        requires
            old(self).wf(),
            old(self).objects@.len() + 2 <= usize::MAX,
            refs_bounded(root, old(self).objects@.len() as int + 1),
        ensures
            final(self).wf(),
            old(self).trailer.root is Some ==> r == Err::<usize, ObjError>(
                ObjError::AlreadyAssigned,
            ) && *final(self) == *old(self),
            old(self).trailer.root is None ==> {
                &&& r == Ok::<usize, ObjError>(old(self).objects@.len() as usize)
                &&& final(self).objects@.len() == old(self).objects@.len() + 1
                &&& nodes_frame(
                    old(self).objects@,
                    final(self).objects@.take(old(self).objects@.len() as int),
                )
                &&& final(self).objects@[old(self).objects@.len() as int].data == Some(root)
                &&& final(self).objects@[old(self).objects@.len() as int].num == Some(
                    old(self).cur_num,
                )
                &&& final(self).objects@[old(self).objects@.len() as int].gen == 0
                &&& final(self).trailer.root == Some(old(self).objects@.len() as usize)
                &&& final(self).trailer.size == old(self).trailer.size
                &&& final(self).trailer.info == old(self).trailer.info
                &&& final(self).trailer.id == old(self).trailer.id
                &&& old(self).order@.is_prefix_of(final(self).order@)
                &&& new_closed(old(self).objects@.push(ObjRef { num: None, gen: 0, data: Some(root) }), final(self).objects@)
                &&& node_deps_assigned(final(self).objects@, old(self).objects@.len() as int)
            },
    {
        match self.trailer.root {
            Some(_) => {
                return Err(ObjError::AlreadyAssigned);
            },
            None => {},
        }
        let o = ObjRef::new(0, root);
        let id = self.insert(o);
        let ghost inserted = self.objects@;
        self.add_object(id);
        proof {
            assert(self.objects@[id as int].num is Some);
            assert(new_closed(inserted, self.objects@));
            assert(inserted[id as int].num is None);
            assert(node_deps_assigned(self.objects@, id as int));
        }
        self.trailer.root = Some(id);
        Ok(id)
    }

    /// Supplies the value of the deferred node `id`; fails when the node
    /// already holds a value. The bound on the value's references keeps
    /// the graph self-contained.
    pub fn set_data(&mut self, id: usize, v: Value) -> (r: Result<(), ObjError>)
        requires
            old(self).wf(),
            id < old(self).objects@.len(),
            refs_bounded(v, old(self).objects@.len() as int),
        ensures
            final(self).wf(),
            old(self).objects@[id as int].data is Some ==> r == Err::<(), ObjError>(
                ObjError::AlreadyAssigned,
            ) && final(self).objects@ == old(self).objects@ && final(self).order == old(
                self,
            ).order && final(self).cur_num == old(self).cur_num && final(self).trailer == old(
                self,
            ).trailer,
            old(self).objects@[id as int].data is None ==> r == Ok::<(), ObjError>(())
                && final(self).objects@ == old(self).objects@.update(
                id as int,
                ObjRef {
                    num: old(self).objects@[id as int].num,
                    gen: old(self).objects@[id as int].gen,
                    data: Some(v),
                },
            ) && final(self).order@ == old(self).order@ && final(self).cur_num == old(
                self,
            ).cur_num && final(self).trailer == old(self).trailer,
    {
        let node = &mut self.objects[id];
        let r = node.set_data(v);
        proof {
            let s0 = old(self).objects@;
            let s1 = self.objects@;
            assert(s1 =~= s0.update(id as int, s1[id as int]));
            if s0[id as int].data is None {
                assert(s1 == s0.update(
                    id as int,
                    ObjRef { num: s0[id as int].num, gen: s0[id as int].gen, data: Some(v) },
                )) by {
                    assert(s1 =~= s0.update(
                        id as int,
                        ObjRef { num: s0[id as int].num, gen: s0[id as int].gen, data: Some(v) },
                    ));
                }
                lemma_count_unassigned_same_num(s0, id as int, s1[id as int]);
                assert forall|j: int|
                    0 <= j < s1.len() && (#[trigger] s1[j].num) is Some implies exists|i: int|
                    0 <= i < self.order@.len() && self.order@[i] as int == j by {
                    assert(s1[j].num == s0[j].num);
                    assert(s0[j].num is Some);
                }
                assert forall|i: int|
                    0 <= i < self.order@.len() implies (#[trigger] self.order@[i]) < s1.len()
                        && s1[self.order@[i] as int].num == Some((i + 1) as usize) by {
                    assert(s1[self.order@[i] as int].num == s0[self.order@[i] as int].num);
                }
                assert forall|j: int| 0 <= j < s1.len() implies node_refs_bounded(
                    s1,
                    j,
                    s1.len() as int,
                ) by {
                    if j != id {
                        assert(s1[j] == s0[j]);
                        assert(node_refs_bounded(s0, j, s0.len() as int));
                    }
                }
                assert(self.wf());
            } else {
                assert(s1 =~= s0);
                lemma_count_unassigned_same_num(s0, id as int, s1[id as int]);
                assert forall|j: int| 0 <= j < s1.len() implies node_refs_bounded(
                    s1,
                    j,
                    s1.len() as int,
                ) by {
                    assert(s1[j] == s0[j]);
                    assert(node_refs_bounded(s0, j, s0.len() as int));
                }
                assert(self.wf());
            }
        }
        r
    }

    /// Serializes the whole document: header, every registered object in
    /// order (recording offsets), the cross-reference table, the trailer
    /// and the `startxref` pointer. Fails with `MissingRoot` when no root
    /// was set, `MissingValue` when a registered node still has no value,
    /// and `Unassigned` when a serialized reference points at a node that
    /// never received a number.
    #[verifier::loop_isolation(false)]
    #[verifier::rlimit(100)]
    pub fn write(self) -> (r: Result<Vec<u8>, ObjError>)
        requires
            self.wf(),
        ensures
            self.trailer.root is None ==> r == Err::<Vec<u8>, ObjError>(ObjError::MissingRoot),
            (self.trailer.root is Some && first_obj_err(self.objects@, self.order@) is Some) ==> r
                == Err::<Vec<u8>, ObjError>(first_obj_err(self.objects@, self.order@)->0),
            self.trailer.root is Some && first_obj_err(self.objects@, self.order@) is None
                && !trailer_refs_ok(self.objects@, self.trailer) ==> r == Err::<Vec<u8>, ObjError>(
                ObjError::Unassigned,
            ),
            self.trailer.root is Some && first_obj_err(self.objects@, self.order@) is None
                && trailer_refs_ok(self.objects@, self.trailer) ==> (r matches Ok(b) && b@
                == file_bytes(self)),
    {
        let PDFWrite { objects, order, cur_num, trailer } = self;
        let ghost nodes = objects@;
        let ghost ord = order@;
        match trailer.root {
            None => {
                return Err(ObjError::MissingRoot);
            },
            Some(_) => {},
        }
        let mut out = Output::new();
        push_header(&mut out.data);
        let mut crt = CRT::new();
        proof {
            assert(ord.take(0) =~= Seq::<usize>::empty());
            assert(out@ =~= header_bytes() + objs_bytes(nodes, ord.take(0)));
            assert(crt.entries@ =~= seq![(0usize, 0usize, 65535usize, true)] + Seq::new(
                0,
                |k: int| xref_entry_at(nodes, ord, k),
            ));
            assert(ord.skip(0) =~= ord);
        }
        let mut i: usize = 0;
        while i < order.len()
            invariant
                i <= ord.len(),
                crt.wf(),
                crt.entries@.len() == i + 1,
                crt.entries@ == seq![(0usize, 0usize, 65535usize, true)] + Seq::new(
                    i as nat,
                    |k: int| xref_entry_at(nodes, ord, k),
                ),
                forall|j: int| 0 <= j <= i ==> (#[trigger] crt.entries@[j].1) == j,
                crt.size == i + 1,
                out@ == header_bytes() + objs_bytes(nodes, ord.take(i as int)),
                first_obj_err(nodes, ord) == first_obj_err(nodes, ord.skip(i as int)),
            decreases ord.len() - i,
        {
            let id = order[i];
            proof {
                assert(ord[i as int] < nodes.len());
                assert(nodes[id as int].num == Some((i + 1) as usize));
            }
            let pos = out.get_pos();
            let gen = objects[id].gen;
            let ghost entries_before = crt.entries@;
            crt.add_entry(pos, i + 1, gen, false);
            proof {
                let e = (pos, (i + 1) as usize, gen, false);
                assert(crt_ins_pos(entries_before, (i + 1) as usize) == entries_before.len()
                    as int) by {
                    lemma_crt_ins_pos_char(entries_before, (i + 1) as usize);
                    if crt_ins_pos(entries_before, (i + 1) as usize) < entries_before.len() {
                        let p = crt_ins_pos(entries_before, (i + 1) as usize);
                        assert(entries_before[p].1 == p);
                        assert(entries_before[p].1 > i + 1);
                    }
                }
                assert(entries_before.insert(entries_before.len() as int, e) =~= entries_before.push(e));
                assert(pos == (header_bytes() + objs_bytes(nodes, ord.take(i as int))).len());
                assert(e == xref_entry_at(nodes, ord, i as int));
                assert(crt.entries@ =~= seq![(0usize, 0usize, 65535usize, true)] + Seq::new(
                    (i + 1) as nat,
                    |k: int| xref_entry_at(nodes, ord, k),
                ));
            }
            push_obj_header(i + 1, gen, &mut out.data);
            proof {
                assert(ord.skip(i as int)[0] == ord[i as int]);
            }
            match &objects[id].data {
                None => {
                    proof {
                        assert(first_obj_err(nodes, ord.skip(i as int)) == Some(
                            ObjError::MissingValue,
                        ));
                    }
                    return Err(ObjError::MissingValue);
                },
                Some(v) => {
                    let ok = write_value(&objects, v, &mut out.data);
                    if !ok {
                        proof {
                            assert(first_obj_err(nodes, ord.skip(i as int)) == Some(
                                ObjError::Unassigned,
                            ));
                        }
                        return Err(ObjError::Unassigned);
                    }
                },
            }
            push_endobj(&mut out.data);
            proof {
                assert(ord.take(i + 1).drop_last() =~= ord.take(i as int));
                assert(ord.take(i + 1).last() == ord[i as int]);
                assert(out@ =~= header_bytes() + objs_bytes(nodes, ord.take(i + 1)));
                assert(ord.skip(i as int).drop_first() =~= ord.skip(i + 1));
            }
            i = i + 1;
        }
        proof {
            assert(ord.take(ord.len() as int) =~= ord);
            assert(ord.skip(ord.len() as int) =~= Seq::<usize>::empty());
            assert(first_obj_err(nodes, ord) is None);
            assert(crt.entries@ =~= spec_xref_entries(nodes, ord));
        }
        let startxref = out.get_pos();
        let size = crt.get_size();
        let ghost before_xref = out@;
        crt.write(&mut out);
        let mut trailer = trailer;
        trailer.size = Some(size);
        let ghost before_trailer = out@;
        let tr = trailer.write(&objects, &mut out);
        match tr {
            Err(e) => {
                proof {
                    assert(ref_ok(nodes, self.trailer.root->0 as int));
                    assert(e == ObjError::Unassigned);
                    assert(!trailer_refs_ok(nodes, self.trailer));
                }
                return Err(e);
            },
            Ok(()) => {},
        }
        proof {
            assert(trailer_refs_ok(nodes, self.trailer));
        }
        let ghost before_footer = out@;
        push_footer(startxref, &mut out.data);
        proof {
            assert(before_footer =~= before_trailer + trailer_bytes(
                nodes,
                (ord.len() + 1) as nat,
                self.trailer.root->0 as int,
                self.trailer.info,
                self.trailer.id,
            ));
            assert(out@ =~= before_footer + seq![
                115u8,
                116u8,
                97u8,
                114u8,
                116u8,
                120u8,
                114u8,
                101u8,
                102u8,
                10u8,
            ] + dec_bytes(startxref as nat) + seq![10u8, 37u8, 37u8, 69u8, 79u8, 70u8]);
            assert(startxref as nat == (header_bytes() + objs_bytes(nodes, ord)).len());
            assert(out@ =~= before_trailer + trailer_bytes(
                nodes,
                (ord.len() + 1) as nat,
                self.trailer.root->0 as int,
                self.trailer.info,
                self.trailer.id,
            ) + seq![115u8, 116u8, 97u8, 114u8, 116u8, 120u8, 114u8, 101u8, 102u8, 10u8]
                + dec_bytes(startxref as nat) + seq![10u8, 37u8, 37u8, 69u8, 79u8, 70u8]);
            assert(out@ =~= file_bytes(self));
        }
        Ok(out.into_data())
    }
}

fn push_obj_header(num: usize, gen: usize, out: &mut Vec<u8>)
    ensures
        final(out)@ == old(out)@ + dec_bytes(num as nat) + seq![32u8] + dec_bytes(gen as nat)
            + seq![32u8, 111u8, 98u8, 106u8, 10u8],
{
    push_dec(num as u64, out);
    out.push(32);
    push_dec(gen as u64, out);
    out.push(32);
    out.push(111);
    out.push(98);
    out.push(106);
    out.push(10);
    proof {
        assert(final(out)@ =~= old(out)@ + dec_bytes(num as nat) + seq![32u8] + dec_bytes(
            gen as nat,
        ) + seq![32u8, 111u8, 98u8, 106u8, 10u8]);
    }
}

fn push_endobj(out: &mut Vec<u8>)
    ensures
        final(out)@ == old(out)@ + seq![101u8, 110u8, 100u8, 111u8, 98u8, 106u8, 10u8],
{
    out.push(101);
    out.push(110);
    out.push(100);
    out.push(111);
    out.push(98);
    out.push(106);
    out.push(10);
    proof {
        assert(final(out)@ =~= old(out)@ + seq![101u8, 110u8, 100u8, 111u8, 98u8, 106u8, 10u8]);
    }
}

fn push_footer(startxref: usize, out: &mut Vec<u8>)
    ensures
        final(out)@ == old(out)@ + seq![
            115u8,
            116u8,
            97u8,
            114u8,
            116u8,
            120u8,
            114u8,
            101u8,
            102u8,
            10u8,
        ] + dec_bytes(startxref as nat) + seq![10u8, 37u8, 37u8, 69u8, 79u8, 70u8],
{
    out.push(115);
    out.push(116);
    out.push(97);
    out.push(114);
    out.push(116);
    out.push(120);
    out.push(114);
    out.push(101);
    out.push(102);
    out.push(10);
    push_dec(startxref as u64, out);
    out.push(10);
    out.push(37);
    out.push(37);
    out.push(69);
    out.push(79);
    out.push(70);
    proof {
        assert(final(out)@ =~= old(out)@ + seq![
            115u8,
            116u8,
            97u8,
            114u8,
            116u8,
            120u8,
            114u8,
            101u8,
            102u8,
            10u8,
        ] + dec_bytes(startxref as nat) + seq![10u8, 37u8, 37u8, 69u8, 79u8, 70u8]);
    }
}

fn push_header(out: &mut Vec<u8>)
    ensures
        final(out)@ == old(out)@ + header_bytes(),
{
    out.push(37);
    out.push(80);
    out.push(68);
    out.push(70);
    out.push(45);
    out.push(49);
    out.push(46);
    out.push(52);
    out.push(10);
    out.push(37);
    out.push(239);
    out.push(191);
    out.push(189);
    out.push(239);
    out.push(191);
    out.push(189);
    out.push(239);
    out.push(191);
    out.push(189);
    out.push(239);
    out.push(191);
    out.push(189);
    out.push(10);
    proof {
        assert(final(out)@ =~= old(out)@ + header_bytes());
    }
}

/// Registered nodes and object numbers correspond one to one: the write
/// order holds no index twice, and a node appears in it exactly when it
/// has a number — so the object count equals the number of distinct
/// registered nodes, however often registration was attempted.
pub proof fn lemma_registration_distinct(w: PDFWrite)
    requires
        w.wf(),
    ensures
        forall|i: int, j: int|
            0 <= i < j < w.order@.len() ==> w.order@[i] != w.order@[j],
        forall|j: int|
            0 <= j < w.objects@.len() ==> ((#[trigger] w.objects@[j].num) is Some <==> exists|
                i: int,
            | 0 <= i < w.order@.len() && w.order@[i] as int == j),
{
    assert forall|i: int, j: int| 0 <= i < j < w.order@.len() implies w.order@[i]
        != w.order@[j] by {
        assert(w.objects@[w.order@[i] as int].num == Some((i + 1) as usize));
        assert(w.objects@[w.order@[j] as int].num == Some((j + 1) as usize));
    }
}

/// The trailer's declared size is one more than the greatest assigned
/// object number.
pub proof fn lemma_size_is_max_num_plus_one(w: PDFWrite)
    requires
        w.wf(),
    ensures
        forall|j: int|
            0 <= j < w.objects@.len() && (#[trigger] w.objects@[j].num) is Some
                ==> w.objects@[j].num->0 <= w.order@.len(),
        w.order@.len() > 0 ==> exists|j: int|
            0 <= j < w.objects@.len() && (#[trigger] w.objects@[j].num) == Some(
                w.order@.len() as usize,
            ),
{
    assert forall|j: int|
        0 <= j < w.objects@.len() && (#[trigger] w.objects@[j].num) is Some implies w.objects@[j].num->0
        <= w.order@.len() by {
        let i = choose|i: int| 0 <= i < w.order@.len() && w.order@[i] as int == j;
        assert(w.objects@[j].num == Some((i + 1) as usize));
    }
    if w.order@.len() > 0 {
        let last = w.order@.len() - 1;
        assert(w.objects@[w.order@[last] as int].num == Some((last + 1) as usize));
    }
}

/// The cross-reference table always starts with the implicit free record
/// for object zero, and its declared size covers every entry.
pub proof fn lemma_xref_free_record(w: PDFWrite)
    requires
        w.wf(),
    ensures
        spec_xref_entries(w.objects@, w.order@)[0] == (0usize, 0usize, 65535usize, true),
        spec_xref_entries(w.objects@, w.order@).len() == w.order@.len() + 1,
{
}

/// Whether node `j` can be written out: it holds a value whose references
/// all resolve.
pub open spec fn node_write_ok(nodes: Seq<ObjRef>, j: int) -> bool {
    nodes[j].data matches Some(v) && refs_ok(nodes, v)
}

/// Whether every registered node except possibly the node `ex` can be
/// written out.
pub open spec fn registered_ok_except(w: PDFWrite, ex: int) -> bool {
    forall|i: int|
        0 <= i < w.order@.len() && (#[trigger] w.order@[i]) as int != ex ==> node_write_ok(
            w.objects@,
            w.order@[i] as int,
        )
}

/// Whether every registered node can be written out.
pub open spec fn registered_ok(w: PDFWrite) -> bool {
    forall|i: int|
        0 <= i < w.order@.len() ==> node_write_ok(w.objects@, (#[trigger] w.order@[i]) as int)
}

/// When every registered node can be written out, serialization meets no
/// object-level failure.
pub proof fn lemma_first_obj_err_none(nodes: Seq<ObjRef>, order: Seq<usize>)
    requires
        forall|i: int|
            0 <= i < order.len() ==> node_write_ok(nodes, (#[trigger] order[i]) as int),
    ensures
        first_obj_err(nodes, order) is None,
    decreases order.len(),
{
    if order.len() == 0 {
    } else {
        assert(node_write_ok(nodes, order[0] as int));
        assert(forall|i: int|
            0 <= i < order.drop_first().len() ==> order.drop_first()[i] == order[i + 1]);
        lemma_first_obj_err_none(nodes, order.drop_first());
    }
}

/// Registration preserves writability of the registered nodes: nodes that
/// could be written before still can, and the freshly registered ones can
/// too, provided every unnumbered node other than `ex` already holds its
/// value.
pub proof fn lemma_registered_ok_after_add(w0: PDFWrite, w1: PDFWrite, ex: int)
    requires
        w0.wf(),
        w1.wf(),
        nodes_frame(w0.objects@, w1.objects@),
        w0.order@.is_prefix_of(w1.order@),
        new_closed(w0.objects@, w1.objects@),
        registered_ok_except(w0, ex),
        forall|j: int|
            0 <= j < w0.objects@.len() && (#[trigger] w0.objects@[j].num) is None && j != ex
                ==> w0.objects@[j].data is Some,
    ensures
        registered_ok_except(w1, ex),
{
    assert forall|i: int|
        0 <= i < w1.order@.len() && (#[trigger] w1.order@[i]) as int != ex implies node_write_ok(
        w1.objects@,
        w1.order@[i] as int,
    ) by {
        let j = w1.order@[i] as int;
        if i < w0.order@.len() {
            assert(w0.order@[i] == w1.order@[i]);
            assert(node_write_ok(w0.objects@, j));
            let v = w0.objects@[j].data->0;
            crate::pdf::types::lemma_refs_ok_mono(w0.objects@, w1.objects@, v);
        } else {
            assert(w1.objects@[j].num == Some((i + 1) as usize));
            if w0.objects@[j].num is Some {
                let i0 = choose|i0: int|
                    0 <= i0 < w0.order@.len() && w0.order@[i0] as int == j;
                assert(w0.objects@[j].num == Some((i0 + 1) as usize));
                assert(w1.objects@[j].num == Some((i0 + 1) as usize));
                assert(w1.order@[i0] == w0.order@[i0]);
                assert(w1.objects@[w1.order@[i0] as int].num == Some((i0 + 1) as usize));
                assert(i0 < i);
                assert(false);
            }
            assert(w0.objects@[j].data is Some);
            assert(node_deps_assigned(w1.objects@, j));
            let v = w1.objects@[j].data->0;
            assert(node_refs_bounded(w1.objects@, j, w1.objects@.len() as int));
            assert forall|k: int| 0 <= k < val_refs(v).len() implies ref_ok(
                w1.objects@,
                (#[trigger] val_refs(v)[k]) as int,
            ) by {
                assert(node_refs(w1.objects@, j) == val_refs(v));
                assert(node_refs(w1.objects@, j)[k] == val_refs(v)[k]);
            }
        }
    }
}

/// Supplying the deferred value of `ex` with a value whose references all
/// resolve makes every registered node writable.
pub proof fn lemma_registered_ok_after_set(w0: PDFWrite, w1: PDFWrite, ex: int, v: Value)
    requires
        w0.wf(),
        registered_ok_except(w0, ex),
        0 <= ex < w0.objects@.len(),
        w1.objects@ == w0.objects@.update(
            ex,
            ObjRef { num: w0.objects@[ex].num, gen: w0.objects@[ex].gen, data: Some(v) },
        ),
        w1.order@ == w0.order@,
        refs_ok(w1.objects@, v),
    ensures
        registered_ok(w1),
{
    assert forall|i: int| 0 <= i < w1.order@.len() implies node_write_ok(
        w1.objects@,
        (#[trigger] w1.order@[i]) as int,
    ) by {
        let j = w1.order@[i] as int;
        if j == ex {
            assert(w1.objects@[j].data == Some(v));
        } else {
            assert(node_write_ok(w0.objects@, j));
            assert(w1.objects@[j].data == w0.objects@[j].data);
            let val = w0.objects@[j].data->0;
            assert forall|k: int|
                0 <= k < w0.objects@.len() && (#[trigger] w0.objects@[k].num)
                    is Some implies w1.objects@[k].num == w0.objects@[k].num by {}
            crate::pdf::types::lemma_refs_ok_mono(w0.objects@, w1.objects@, val);
        }
    }
}

proof fn lemma_crt_ins_pos_char(s: Seq<(usize, usize, usize, bool)>, num: usize)
    requires
        forall|i: int, j: int| 0 <= i < j < s.len() ==> s[i].1 <= s[j].1,
    ensures
        0 <= crt_ins_pos(s, num) <= s.len(),
        forall|j: int| 0 <= j < crt_ins_pos(s, num) ==> s[j].1 <= num,
        forall|j: int| crt_ins_pos(s, num) <= j < s.len() ==> s[j].1 > num,
    decreases s.len(),
{
    if s.len() == 0 {
    } else if s.last().1 <= num {
        assert forall|j: int| 0 <= j < s.len() implies s[j].1 <= num by {
            if j < s.len() - 1 {
                assert(s[j].1 <= s[s.len() - 1].1);
            }
        }
    } else {
        let t = s.drop_last();
        assert(forall|i: int, j: int| 0 <= i < j < t.len() ==> t[i].1 <= t[j].1) by {
            assert(forall|i: int| 0 <= i < t.len() ==> t[i] == s[i]);
        }
        lemma_crt_ins_pos_char(t, num);
        assert(forall|j: int| 0 <= j < crt_ins_pos(s, num) ==> s[j] == t[j]);
        assert forall|j: int| crt_ins_pos(s, num) <= j < s.len() implies s[j].1 > num by {
            if j < s.len() - 1 {
                assert(s[j] == t[j]);
            }
        }
    }
}

} // verus!
