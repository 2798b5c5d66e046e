//! The payload values a document object can hold: numbers, symbol names,
//! text strings, arrays, dictionaries, binary streams, and references to
//! other objects, together with their exact byte encodings.

use vstd::prelude::*;
use vstd::string::StringSliceAdditionalSpecFns;
use vstd::string::StrSliceExecFns;
use crate::num::{dec_bytes, fixed_bytes, push_dec, push_fixed, Fixed};
use crate::pdf::ObjRef;

verus! {

/// An immutable symbol token; serializes with a leading `/`.
#[derive(Debug)]
pub struct Name {
    bytes: Vec<u8>,
}

impl View for Name {
    type V = Seq<u8>;

    closed spec fn view(&self) -> Seq<u8> {
        self.bytes@
    }
}

impl Name {
    /// A name with the text of `s`.
    pub fn new(s: &str) -> (n: Name)
        ensures
            n@ == s.spec_bytes(),
    {
        Name { bytes: s.as_bytes_vec() }
    }

    /// A name holding exactly the bytes of `b`.
    pub fn from_bytes(b: Vec<u8>) -> (n: Name)
        ensures
            n@ == b@,
    {
        Name { bytes: b }
    }

    /// A copy of this name.
    #[verifier::loop_isolation(false)]
    pub fn dup(&self) -> (n: Name)
        ensures
            n@ == self@,
    {
        let mut bytes: Vec<u8> = Vec::new();
        let mut i: usize = 0;
        while i < self.bytes.len()
            invariant
                i <= self.bytes.len(),
                bytes@ == self.bytes@.take(i as int),
            decreases self.bytes.len() - i,
        {
            bytes.push(self.bytes[i]);
            proof {
                assert(bytes@ =~= self.bytes@.take(i + 1));
            }
            i = i + 1;
        }
        proof {
            assert(bytes@ =~= self.bytes@);
        }
        Name { bytes }
    }

    /// Whether this name has the same text as `other`.
    #[verifier::loop_isolation(false)]
    pub fn same_name(&self, other: &Name) -> (r: bool)
        ensures
            r == (self@ == other@),
    {
        if self.bytes.len() != other.bytes.len() {
            return false;
        }
        let mut i: usize = 0;
        while i < self.bytes.len()
            invariant
                i <= self.bytes.len(),
                self.bytes@.len() == other.bytes@.len(),
                forall|j: int| 0 <= j < i ==> self.bytes@[j] == other.bytes@[j],
            decreases self.bytes.len() - i,
        {
            if self.bytes[i] != other.bytes[i] {
                return false;
            }
            i = i + 1;
        }
        proof {
            assert(self.bytes@ =~= other.bytes@);
        }
        true
    }

    /// Appends the bytes of this name (without the leading `/`) to `out`.
    #[verifier::loop_isolation(false)]
    pub fn push_to(&self, out: &mut Vec<u8>)
        ensures
            final(out)@ == old(out)@ + self@,
    {
        let mut i: usize = 0;
        while i < self.bytes.len()
            invariant
                i <= self.bytes.len(),
                out@ == old(out)@ + self.bytes@.take(i as int),
            decreases self.bytes.len() - i,
        {
            out.push(self.bytes[i]);
            proof {
                assert(out@ =~= old(out)@ + self.bytes@.take(i + 1));
            }
            i = i + 1;
        }
        proof {
            assert(out@ =~= old(out)@ + self.bytes@);
        }
    }
}

/// A document payload value, the closed set of kinds the format uses.
///
/// A `Ref` names another node of the document graph by index and serializes
/// as the short reference token `num gen R` rather than inline.
#[derive(Debug)]
pub enum Value {
    Int(usize),
    Real(Fixed),
    Name(Name),
    Str(Vec<u8>),
    Array(Vec<Value>),
    Dict(Dict),
    Stream(Stream),
    Ref(usize),
}

/// An unordered symbol-to-value mapping with unique keys.
#[derive(Debug)]
pub struct Dict {
    pub entries: Vec<(Name, Value)>,
}

/// A binary block: a metadata dictionary plus a raw payload.
#[derive(Debug)]
pub struct Stream {
    pub meta: Dict,
    pub data: Vec<u8>,
}

/// Whether the reference target `id` exists and has a number assigned.
pub open spec fn ref_ok(nodes: Seq<ObjRef>, id: int) -> bool {
    0 <= id < nodes.len() && nodes[id].num is Some
}

/// The reference token `num gen R` for node `id`.
pub open spec fn ref_bytes(nodes: Seq<ObjRef>, id: int) -> Seq<u8> {
    dec_bytes(nodes[id].num->0 as nat) + seq![32u8] + dec_bytes(nodes[id].gen as nat) + seq![
        32u8,
        82u8,
    ]
}

/// The serialized bytes of `v`, given the nodes of the document graph
/// (references print the target's assigned number).
pub open spec fn val_bytes(nodes: Seq<ObjRef>, v: Value) -> Seq<u8>
    decreases v, 1int,
{
    match v {
        Value::Int(n) => dec_bytes(n as nat),
        Value::Real(x) => fixed_bytes(x.milli as int),
        Value::Name(n) => seq![47u8] + n@,
        Value::Str(s) => seq![40u8] + s@ + seq![41u8],
        Value::Array(vs) => seq![91u8] + list_bytes(nodes, vs@) + seq![93u8],
        Value::Dict(d) => dict_bytes(nodes, d.entries@),
        Value::Stream(st) => dict_bytes(nodes, st.meta.entries@) + seq![
            115u8,
            116u8,
            114u8,
            101u8,
            97u8,
            109u8,
            10u8,
        ] + st.data@ + seq![
            10u8,
            101u8,
            110u8,
            100u8,
            115u8,
            116u8,
            114u8,
            101u8,
            97u8,
            109u8,
            10u8,
        ],
        Value::Ref(id) => if ref_ok(nodes, id as int) {
            ref_bytes(nodes, id as int)
        } else {
            Seq::empty()
        },
    }
}

/// The space-separated serializations of the elements of an array.
pub open spec fn list_bytes(nodes: Seq<ObjRef>, elems: Seq<Value>) -> Seq<u8>
    decreases elems, 0int,
{
    if elems.len() == 0 {
        Seq::empty()
    } else if elems.len() == 1 {
        val_bytes(nodes, elems[0])
    } else {
        list_bytes(nodes, elems.drop_last()) + seq![32u8] + val_bytes(nodes, elems.last())
    }
}

/// The `<<\n ... >>\n` serialization of a dictionary's entries.
pub open spec fn dict_bytes(nodes: Seq<ObjRef>, entries: Seq<(Name, Value)>) -> Seq<u8>
    decreases entries, 2int,
{
    seq![60u8, 60u8, 10u8] + entries_bytes(nodes, entries) + seq![62u8, 62u8, 10u8]
}

/// One `/Key value\n` line per dictionary entry.
pub open spec fn entries_bytes(nodes: Seq<ObjRef>, entries: Seq<(Name, Value)>) -> Seq<u8>
    decreases entries, 1int,
{
    if entries.len() == 0 {
        Seq::empty()
    } else {
        entries_bytes(nodes, entries.drop_last()) + seq![47u8] + entries.last().0@ + seq![32u8]
            + val_bytes(nodes, entries.last().1) + seq![10u8]
    }
}

/// The indices of the nodes that `v` references directly, in serialization
/// order; these are the direct dependencies of a value.
pub open spec fn val_refs(v: Value) -> Seq<usize>
    decreases v, 1int,
{
    match v {
        Value::Array(vs) => list_refs(vs@),
        Value::Dict(d) => entries_refs(d.entries@),
        Value::Stream(st) => entries_refs(st.meta.entries@),
        Value::Ref(id) => seq![id],
        _ => Seq::empty(),
    }
}

pub open spec fn list_refs(elems: Seq<Value>) -> Seq<usize>
    decreases elems, 0int,
{
    if elems.len() == 0 {
        Seq::empty()
    } else {
        list_refs(elems.drop_last()) + val_refs(elems.last())
    }
}

pub open spec fn entries_refs(entries: Seq<(Name, Value)>) -> Seq<usize>
    decreases entries, 0int,
{
    if entries.len() == 0 {
        Seq::empty()
    } else {
        entries_refs(entries.drop_last()) + val_refs(entries.last().1)
    }
}

/// Whether every node index in `rs` exists and has a number.
pub open spec fn refs_all_ok(nodes: Seq<ObjRef>, rs: Seq<usize>) -> bool {
    forall|i: int| 0 <= i < rs.len() ==> ref_ok(nodes, #[trigger] rs[i] as int)
}

/// Whether every node that `v` references exists and has a number, so that
/// `v` can be serialized.
pub open spec fn refs_ok(nodes: Seq<ObjRef>, v: Value) -> bool {
    refs_all_ok(nodes, val_refs(v))
}

pub proof fn lemma_refs_all_concat(nodes: Seq<ObjRef>, a: Seq<usize>, b: Seq<usize>)
    ensures
        refs_all_ok(nodes, a + b) <==> (refs_all_ok(nodes, a) && refs_all_ok(nodes, b)),
{
    if refs_all_ok(nodes, a + b) {
        assert forall|i: int| 0 <= i < a.len() implies ref_ok(nodes, a[i] as int) by {
            assert((a + b)[i] == a[i]);
            assert(ref_ok(nodes, (a + b)[i] as int));
        }
        assert forall|i: int| 0 <= i < b.len() implies ref_ok(nodes, b[i] as int) by {
            assert((a + b)[a.len() + i] == b[i]);
            assert(ref_ok(nodes, (a + b)[a.len() + i] as int));
        }
    }
    if refs_all_ok(nodes, a) && refs_all_ok(nodes, b) {
        assert forall|i: int| 0 <= i < (a + b).len() implies ref_ok(
            nodes,
            (a + b)[i] as int,
        ) by {
            if i < a.len() {
                assert((a + b)[i] == a[i]);
            } else {
                assert((a + b)[i] == b[i - a.len()]);
            }
        }
    }
}

/// A serialized array is reference-closed exactly when each element is.
pub proof fn lemma_list_refs_ok(nodes: Seq<ObjRef>, elems: Seq<Value>)
    ensures
        refs_all_ok(nodes, list_refs(elems)) <==> (forall|k: int|
            0 <= k < elems.len() ==> refs_ok(nodes, #[trigger] elems[k])),
    decreases elems.len(),
{
    if elems.len() == 0 {
    } else {
        lemma_list_refs_ok(nodes, elems.drop_last());
        lemma_refs_all_concat(nodes, list_refs(elems.drop_last()), val_refs(elems.last()));
        assert(forall|k: int|
            0 <= k < elems.len() - 1 ==> elems.drop_last()[k] == #[trigger] elems[k]);
    }
}

/// Whether every node index referenced by `v` lies below `bound`.
pub open spec fn refs_bounded(v: Value, bound: int) -> bool {
    forall|i: int|
        0 <= i < val_refs(v).len() ==> (((#[trigger] val_refs(v)[i]) as int) < bound)
}

/// Whether every node index referenced by `v` occurs in `ids`.
pub open spec fn refs_within(v: Value, ids: Seq<usize>) -> bool {
    forall|i: int| 0 <= i < val_refs(v).len() ==> ids.contains(#[trigger] val_refs(v)[i])
}

/// An array of reference-free values contributes no references.
pub proof fn lemma_list_refs_empty(elems: Seq<Value>)
    requires
        forall|k: int| 0 <= k < elems.len() ==> val_refs(#[trigger] elems[k]) == Seq::<usize>::empty(),
    ensures
        list_refs(elems) == Seq::<usize>::empty(),
    decreases elems.len(),
{
    if elems.len() == 0 {
    } else {
        assert(forall|k: int|
            0 <= k < elems.len() - 1 ==> elems.drop_last()[k] == #[trigger] elems[k]);
        lemma_list_refs_empty(elems.drop_last());
        assert(elems.last() == elems[elems.len() - 1]);
        assert(list_refs(elems) =~= Seq::<usize>::empty());
    }
}

/// A reference occurs in a serialized array exactly when it occurs in one
/// of its elements.
pub proof fn lemma_list_refs_mem(elems: Seq<Value>, r: usize)
    ensures
        list_refs(elems).contains(r) <==> exists|k: int|
            0 <= k < elems.len() && val_refs(#[trigger] elems[k]).contains(r),
    decreases elems.len(),
{
    if elems.len() == 0 {
    } else {
        lemma_list_refs_mem(elems.drop_last(), r);
        let a = list_refs(elems.drop_last());
        let b = val_refs(elems.last());
        if list_refs(elems).contains(r) {
            let i = choose|i: int| 0 <= i < (a + b).len() && (a + b)[i] == r;
            if i < a.len() {
                assert(a[i] == r);
                let k = choose|k: int|
                    0 <= k < elems.drop_last().len() && val_refs(
                        #[trigger] elems.drop_last()[k],
                    ).contains(r);
                assert(elems[k] == elems.drop_last()[k]);
                assert(val_refs(elems[k]).contains(r));
            } else {
                assert(b[i - a.len()] == r);
                assert(val_refs(elems.last()).contains(r));
                assert(elems[elems.len() - 1] == elems.last());
            }
        }
        if exists|k: int| 0 <= k < elems.len() && val_refs(#[trigger] elems[k]).contains(r) {
            let k = choose|k: int|
                0 <= k < elems.len() && val_refs(#[trigger] elems[k]).contains(r);
            if k < elems.len() - 1 {
                assert(elems.drop_last()[k] == elems[k]);
                assert(a.contains(r));
                let i = choose|i: int| 0 <= i < a.len() && a[i] == r;
                assert((a + b)[i] == r);
            } else {
                assert(b.contains(r));
                let i = choose|i: int| 0 <= i < b.len() && b[i] == r;
                assert((a + b)[a.len() + i] == r);
            }
        }
    }
}

/// A reference occurs in a serialized dictionary exactly when it occurs in
/// one of its entry values.
pub proof fn lemma_entries_refs_mem(entries: Seq<(Name, Value)>, r: usize)
    ensures
        entries_refs(entries).contains(r) <==> exists|k: int|
            0 <= k < entries.len() && val_refs((#[trigger] entries[k]).1).contains(r),
    decreases entries.len(),
{
    if entries.len() == 0 {
    } else {
        lemma_entries_refs_mem(entries.drop_last(), r);
        let a = entries_refs(entries.drop_last());
        let b = val_refs(entries.last().1);
        if entries_refs(entries).contains(r) {
            let i = choose|i: int| 0 <= i < (a + b).len() && (a + b)[i] == r;
            if i < a.len() {
                assert(a[i] == r);
                let k = choose|k: int|
                    0 <= k < entries.drop_last().len() && val_refs(
                        (#[trigger] entries.drop_last()[k]).1,
                    ).contains(r);
                assert(entries[k] == entries.drop_last()[k]);
            } else {
                assert(b[i - a.len()] == r);
                assert(entries[entries.len() - 1] == entries.last());
            }
        }
        if exists|k: int| 0 <= k < entries.len() && val_refs((#[trigger] entries[k]).1).contains(
            r,
        ) {
            let k = choose|k: int|
                0 <= k < entries.len() && val_refs((#[trigger] entries[k]).1).contains(r);
            if k < entries.len() - 1 {
                assert(entries.drop_last()[k] == entries[k]);
                assert(a.contains(r));
                let i = choose|i: int| 0 <= i < a.len() && a[i] == r;
                assert((a + b)[i] == r);
            } else {
                assert(b.contains(r));
                let i = choose|i: int| 0 <= i < b.len() && b[i] == r;
                assert((a + b)[a.len() + i] == r);
            }
        }
    }
}

/// A reference reachable after an insertion comes from the old entries or
/// from the inserted value.
pub proof fn lemma_dict_insert_refs_mem(s: Seq<(Name, Value)>, n: Name, v: Value, r: usize)
    ensures
        entries_refs(dict_insert(s, n, v)).contains(r) ==> entries_refs(s).contains(r)
            || val_refs(v).contains(r),
{
    let s2 = dict_insert(s, n, v);
    if entries_refs(s2).contains(r) {
        lemma_entries_refs_mem(s2, r);
        let k = choose|k: int| 0 <= k < s2.len() && val_refs((#[trigger] s2[k]).1).contains(r);
        lemma_entries_refs_mem(s, r);
        if has_key(s, n@) {
            let i = key_index(s, n@);
            if k == i {
                assert(s2[k].1 == v);
            } else {
                assert(s2[k].1 == s[k].1);
            }
        } else {
            if k < s.len() {
                assert(s2[k].1 == s[k].1);
            } else {
                assert(s2[k].1 == v);
            }
        }
    }
}

/// Serializability of a value is kept when the node arena evolves without
/// revoking numbers (including when it merely grows).
pub proof fn lemma_refs_ok_mono(a: Seq<ObjRef>, b: Seq<ObjRef>, v: Value)
    requires
        a.len() <= b.len(),
        forall|j: int| 0 <= j < a.len() && (#[trigger] a[j].num) is Some ==> b[j].num == a[j].num,
        refs_ok(a, v),
    ensures
        refs_ok(b, v),
{
    assert forall|i: int| 0 <= i < val_refs(v).len() implies ref_ok(
        b,
        (#[trigger] val_refs(v)[i]) as int,
    ) by {
        assert(ref_ok(a, val_refs(v)[i] as int));
    }
}

/// Whether some entry of `s` has the key text `k`.
pub open spec fn has_key(s: Seq<(Name, Value)>, k: Seq<u8>) -> bool {
    exists|i: int| 0 <= i < s.len() && s[i].0@ == k
}

/// The index of the entry with key text `k`.
pub open spec fn key_index(s: Seq<(Name, Value)>, k: Seq<u8>) -> int {
    choose|i: int| 0 <= i < s.len() && s[i].0@ == k
}

/// The value stored under key text `k`, if any.
pub open spec fn dict_get(s: Seq<(Name, Value)>, k: Seq<u8>) -> Option<Value> {
    if has_key(s, k) {
        Some(s[key_index(s, k)].1)
    } else {
        None
    }
}

/// Last-write-wins insertion: replaces the entry with the same key text,
/// or appends a new entry.
pub open spec fn dict_insert(s: Seq<(Name, Value)>, n: Name, v: Value) -> Seq<(Name, Value)> {
    if has_key(s, n@) {
        s.update(key_index(s, n@), (n, v))
    } else {
        s.push((n, v))
    }
}

/// No two entries share a key text.
pub open spec fn keys_unique(s: Seq<(Name, Value)>) -> bool {
    forall|i: int, j: int| 0 <= i < j < s.len() ==> s[i].0@ != s[j].0@
}

/// Insertion keeps keys unique and changes `dict_get` only at the
/// inserted key.
pub proof fn lemma_dict_insert_get(s: Seq<(Name, Value)>, n: Name, v: Value, k: Seq<u8>)
    requires
        keys_unique(s),
    ensures
        keys_unique(dict_insert(s, n, v)),
        k == n@ ==> dict_get(dict_insert(s, n, v), k) == Some(v),
        k != n@ ==> dict_get(dict_insert(s, n, v), k) == dict_get(s, k),
{
    let s2 = dict_insert(s, n, v);
    if has_key(s, n@) {
        let i = key_index(s, n@);
        assert(0 <= i < s.len() && s[i].0@ == n@);
        assert forall|a: int, b: int| 0 <= a < b < s2.len() implies s2[a].0@ != s2[b].0@ by {
            assert(s2[a].0@ == if a == i { n@ } else { s[a].0@ });
            assert(s2[b].0@ == if b == i { n@ } else { s[b].0@ });
        }
        if has_key(s2, n@) {
            let j = key_index(s2, n@);
            assert(s2[i].0@ == n@);
            assert(j == i);
        } else {
            assert(s2[i].0@ == n@);
        }
        if k != n@ {
            if has_key(s, k) {
                let j = key_index(s, k);
                assert(s2[j].0@ == k && 0 <= j < s2.len());
                let j2 = key_index(s2, k);
                assert(s2[j2].0@ == k);
                assert(j2 != i);
                assert(s[j2].0@ == k);
                assert(j2 == j);
            } else {
                if has_key(s2, k) {
                    let j2 = key_index(s2, k);
                    assert(s2[j2].0@ == k);
                    assert(j2 != i);
                    assert(s[j2].0@ == k);
                }
            }
        }
    } else {
        assert forall|a: int, b: int| 0 <= a < b < s2.len() implies s2[a].0@ != s2[b].0@ by {
            if b < s.len() {
            } else {
                assert(s2[b].0@ == n@);
                assert(s2[a].0@ == s[a].0@);
            }
        }
        assert(s2[s.len() as int].0@ == n@);
        if k == n@ {
            let j2 = key_index(s2, k);
            assert(s2[j2].0@ == k);
            if j2 < s.len() {
                assert(s[j2].0@ == n@);
                assert(false);
            }
        } else {
            if has_key(s, k) {
                let j = key_index(s, k);
                assert(s2[j].0@ == k);
                let j2 = key_index(s2, k);
                assert(s2[j2].0@ == k);
                assert(j2 < s.len());
                assert(j2 == j);
            } else {
                if has_key(s2, k) {
                    let j2 = key_index(s2, k);
                    assert(s2[j2].0@ == k);
                    assert(j2 < s.len() ==> has_key(s, k));
                    assert(j2 == s.len() ==> k == n@);
                    assert(false);
                }
            }
        }
    }
}

/// Every reference reachable after an insertion was reachable before or
/// comes from the inserted value.
pub proof fn lemma_dict_insert_refs(
    nodes: Seq<ObjRef>,
    s: Seq<(Name, Value)>,
    n: Name,
    v: Value,
)
    requires
        refs_all_ok(nodes, entries_refs(s)),
        refs_ok(nodes, v),
    ensures
        refs_all_ok(nodes, entries_refs(dict_insert(s, n, v))),
{
    let s2 = dict_insert(s, n, v);
    lemma_entries_refs_ok(nodes, s);
    lemma_entries_refs_ok(nodes, s2);
    if has_key(s, n@) {
        let i = key_index(s, n@);
        assert forall|k: int| 0 <= k < s2.len() implies refs_ok(nodes, #[trigger] s2[k].1) by {
            if k == i {
                assert(s2[k].1 == v);
            } else {
                assert(s2[k].1 == s[k].1);
            }
        }
    } else {
        assert forall|k: int| 0 <= k < s2.len() implies refs_ok(nodes, #[trigger] s2[k].1) by {
            if k < s.len() {
                assert(s2[k].1 == s[k].1);
            } else {
                assert(s2[k].1 == v);
            }
        }
    }
}

/// A serialized dictionary is reference-closed exactly when each entry
/// value is.
pub proof fn lemma_entries_refs_ok(nodes: Seq<ObjRef>, entries: Seq<(Name, Value)>)
    ensures
        refs_all_ok(nodes, entries_refs(entries)) <==> (forall|k: int|
            0 <= k < entries.len() ==> refs_ok(nodes, #[trigger] entries[k].1)),
    decreases entries.len(),
{
    if entries.len() == 0 {
    } else {
        lemma_entries_refs_ok(nodes, entries.drop_last());
        lemma_refs_all_concat(nodes, entries_refs(entries.drop_last()), val_refs(
            entries.last().1,
        ));
        assert(forall|k: int|
            0 <= k < entries.len() - 1 ==> entries.drop_last()[k] == #[trigger] entries[k]);
    }
}

/// Folds `dict_insert` over a list of entries, first to last.
pub open spec fn insert_all(acc: Seq<(Name, Value)>, items: Seq<(Name, Value)>) -> Seq<
    (Name, Value),
>
    decreases items.len(),
{
    if items.len() == 0 {
        acc
    } else {
        insert_all(dict_insert(acc, items[0].0, items[0].1), items.drop_first())
    }
}

impl Dict {
    /// An empty mapping.
    pub fn new() -> (d: Dict)
        ensures
            d.entries@ == Seq::<(Name, Value)>::empty(),
            keys_unique(d.entries@),
    {
        Dict { entries: Vec::new() }
    }

    /// Inserts `v` under `n`; a later write to the same key wins.
    #[verifier::loop_isolation(false)]
    pub fn add_entry(&mut self, n: Name, v: Value)
        requires
            keys_unique(old(self).entries@),
        ensures
            final(self).entries@ == dict_insert(old(self).entries@, n, v),
            keys_unique(final(self).entries@),
    {
        proof {
            lemma_dict_insert_get(self.entries@, n, v, n@);
        }
        let ghost s = self.entries@;
        let mut i: usize = 0;
        while i < self.entries.len()
            invariant
                i <= self.entries@.len(),
                self.entries@ == s,
                s == old(self).entries@,
                keys_unique(s),
                forall|j: int| 0 <= j < i ==> s[j].0@ != n@,
            decreases self.entries@.len() - i,
        {
            let hit = self.entries[i].0.same_name(&n);
            if hit {
                proof {
                    assert(s[i as int].0@ == n@);
                    assert(has_key(s, n@));
                }
                self.entries.set(i, (n, v));
                proof {
                    let ki = key_index(s, n@);
                    assert(0 <= ki < s.len() && s[ki].0@ == n@);
                    assert(ki == i);
                    assert(self.entries@ == s.update(i as int, (n, v)));
                    assert(dict_insert(s, n, v) == s.update(ki, (n, v)));
                    assert(self.entries@ == dict_insert(s, n, v));
                }
                return;
            }
            i = i + 1;
        }
        self.entries.push((n, v));
        proof {
            assert(!has_key(s, n@));
        }
    }

    /// Inserts `v` under `n` only when `v` is present.
    pub fn add_optional(&mut self, n: Name, v: Option<Value>)
        requires
            keys_unique(old(self).entries@),
        ensures
            v is Some ==> final(self).entries@ == dict_insert(old(self).entries@, n, v->0),
            v is None ==> final(self).entries@ == old(self).entries@,
            keys_unique(final(self).entries@),
    {
        match v {
            Some(v) => self.add_entry(n, v),
            None => {},
        }
    }

    /// A mapping holding the given entries, inserted first to last.
    #[verifier::loop_isolation(false)]
    pub fn from_vec(v: Vec<(Name, Value)>) -> (d: Dict)
        ensures
            d.entries@ == insert_all(Seq::empty(), v@),
            keys_unique(d.entries@),
    {
        let ghost orig = v@;
        let mut v = v;
        let mut d = Dict::new();
        while v.len() > 0
            invariant
                keys_unique(d.entries@),
                insert_all(d.entries@, v@) == insert_all(Seq::empty(), orig),
            decreases v.len(),
        {
            let (n, val) = v.remove(0);
            proof {
                assert(v@ == old_seq_tail(n, val, v@));
            }
            d.add_entry(n, val);
        }
        proof {
            assert(insert_all(d.entries@, v@) == d.entries@);
        }
        d
    }

    /// Whether the mapping has no entries.
    pub fn is_empty(&self) -> (r: bool)
        ensures
            r == (self.entries@.len() == 0),
    {
        self.entries.len() == 0
    }
}

spec fn old_seq_tail(n: Name, val: Value, rest: Seq<(Name, Value)>) -> Seq<(Name, Value)> {
    rest
}

impl Stream {
    /// A binary block over `meta` and `data`; injects a `Length` header
    /// holding the payload's byte count.
    pub fn new(meta: Dict, data: Vec<u8>) -> (st: Stream)
        requires
            keys_unique(meta.entries@),
        ensures
            st.data == data,
            keys_unique(st.meta.entries@),
            dict_get(st.meta.entries@, "Length".spec_bytes()) == Some(
                Value::Int(data@.len() as usize),
            ),
            forall|k: Seq<u8>|
                k != "Length".spec_bytes() ==> #[trigger] dict_get(st.meta.entries@, k)
                    == dict_get(meta.entries@, k),
            refs_all_ok_entries_after(st.meta.entries@, meta.entries@),
    {
        let mut meta = meta;
        let n = Name::new("Length");
        let len = data.len();
        proof {
            lemma_dict_insert_get(meta.entries@, n, Value::Int(len), n@);
            assert forall|k: Seq<u8>| k != "Length".spec_bytes() implies #[trigger] dict_get(
                dict_insert(meta.entries@, n, Value::Int(len)),
                k,
            ) == dict_get(meta.entries@, k) by {
                lemma_dict_insert_get(meta.entries@, n, Value::Int(len), k);
            }
            assert forall|nodes: Seq<ObjRef>|
                refs_all_ok(nodes, entries_refs(meta.entries@)) implies refs_all_ok(
                nodes,
                entries_refs(dict_insert(meta.entries@, n, Value::Int(len))),
            ) by {
                assert(val_refs(Value::Int(len)) =~= Seq::<usize>::empty());
                lemma_dict_insert_refs(nodes, meta.entries@, n, Value::Int(len));
            }
        }
        meta.add_entry(n, Value::Int(len));
        Stream { meta, data }
    }
}

/// Whether reference-closedness of the entry list `before` carries over to
/// `after`, for every state of the node arena.
pub open spec fn refs_all_ok_entries_after(
    after: Seq<(Name, Value)>,
    before: Seq<(Name, Value)>,
) -> bool {
    forall|nodes: Seq<ObjRef>|
        refs_all_ok(nodes, entries_refs(before)) ==> #[trigger] refs_all_ok(
            nodes,
            entries_refs(after),
        )
}

/// Appends the bytes of `src` to `out`.
#[verifier::loop_isolation(false)]
pub fn push_all(out: &mut Vec<u8>, src: &Vec<u8>)
    ensures
        final(out)@ == old(out)@ + src@,
{
    let mut i: usize = 0;
    while i < src.len()
        invariant
            i <= src.len(),
            out@ == old(out)@ + src@.take(i as int),
        decreases src.len() - i,
    {
        out.push(src[i]);
        proof {
            assert(out@ =~= old(out)@ + src@.take(i + 1));
        }
        i = i + 1;
    }
    proof {
        assert(out@ =~= old(out)@ + src@);
    }
}

/// Serializes `v` into `out`; returns false when a reference in `v` points
/// at a node that has no assigned number, in which case only a prefix of
/// the serialization was appended.
#[verifier::loop_isolation(false)]
pub fn write_value(nodes: &Vec<ObjRef>, v: &Value, out: &mut Vec<u8>) -> (ok: bool)
    ensures
        ok == refs_ok(nodes@, *v),
        ok ==> final(out)@ == old(out)@ + val_bytes(nodes@, *v),
        !ok ==> old(out)@.is_prefix_of(final(out)@),
    decreases *v, 1int,
{
    match v {
        Value::Int(n) => {
            push_dec(*n as u64, out);
            proof {
                assert(val_refs(*v) =~= Seq::<usize>::empty());
            }
            true
        },
        Value::Real(x) => {
            push_fixed(*x, out);
            proof {
                assert(val_refs(*v) =~= Seq::<usize>::empty());
            }
            true
        },
        Value::Name(n) => {
            out.push(47);
            n.push_to(out);
            proof {
                assert(val_refs(*v) =~= Seq::<usize>::empty());
                assert(final(out)@ =~= old(out)@ + val_bytes(nodes@, *v));
            }
            true
        },
        Value::Str(s) => {
            out.push(40);
            push_all(out, s);
            out.push(41);
            proof {
                assert(val_refs(*v) =~= Seq::<usize>::empty());
                assert(final(out)@ =~= old(out)@ + val_bytes(nodes@, *v));
            }
            true
        },
        Value::Array(vs) => {
            out.push(91);
            let ghost pre = out@;
            let mut k: usize = 0;
            while k < vs.len()
                invariant
                    k <= vs@.len(),
                    out@ == pre + list_bytes(nodes@, vs@.take(k as int)),
                    pre == old(out)@ + seq![91u8],
                    forall|j: int| 0 <= j < k ==> refs_ok(nodes@, #[trigger] vs@[j]),
                decreases vs@.len() - k,
            {
                if k > 0 {
                    out.push(32);
                }
                proof {
                    assert(decreases_to!(*v => v->Array_0));
                    assert(v->Array_0 == *vs);
                    assert(decreases_to!(*vs => vs@));
                    assert(decreases_to!(vs@ => vs@[k as int]));
                    assert(decreases_to!(*v => vs@[k as int]));
                }
                let elem = &vs[k];
                proof {
                    assert(*elem == vs@[k as int]);
                }
                let r = write_value(nodes, elem, out);
                if !r {
                    proof {
                        assert(!refs_ok(nodes@, vs@[k as int]));
                        lemma_list_refs_ok(nodes@, vs@);
                        assert(val_refs(*v) == list_refs(vs@));
                        assert(!refs_ok(nodes@, *v));
                        assert(old(out)@.is_prefix_of(out@));
                    }
                    return false;
                }
                proof {
                    assert(vs@.take(k + 1).drop_last() =~= vs@.take(k as int));
                    assert(vs@.take(k + 1).last() == vs@[k as int]);
                    if k == 0 {
                        assert(out@ =~= pre + list_bytes(nodes@, vs@.take(k + 1)));
                    } else {
                        assert(out@ =~= pre + list_bytes(nodes@, vs@.take(k + 1)));
                    }
                }
                k = k + 1;
            }
            out.push(93);
            proof {
                assert(vs@.take(vs@.len() as int) =~= vs@);
                lemma_list_refs_ok(nodes@, vs@);
                assert(refs_ok(nodes@, *v));
                assert(final(out)@ =~= old(out)@ + val_bytes(nodes@, *v));
            }
            true
        },
        Value::Dict(d) => {
            let r = write_dict_part(nodes, &d.entries, out);
            proof {
                if r {
                    assert(final(out)@ =~= old(out)@ + val_bytes(nodes@, *v));
                }
            }
            r
        },
        Value::Stream(st) => {
            let r = write_dict_part(nodes, &st.meta.entries, out);
            if !r {
                return false;
            }
            out.push(115);
            out.push(116);
            out.push(114);
            out.push(101);
            out.push(97);
            out.push(109);
            out.push(10);
            push_all(out, &st.data);
            out.push(10);
            out.push(101);
            out.push(110);
            out.push(100);
            out.push(115);
            out.push(116);
            out.push(114);
            out.push(101);
            out.push(97);
            out.push(109);
            out.push(10);
            proof {
                assert(final(out)@ =~= old(out)@ + val_bytes(nodes@, *v));
            }
            true
        },
        Value::Ref(id) => {
            proof {
                assert(val_refs(*v) =~= seq![*id]);
            }
            if *id < nodes.len() {
                let node = &nodes[*id];
                match node.num {
                    Some(num) => {
                        push_dec(num as u64, out);
                        out.push(32);
                        push_dec(node.gen as u64, out);
                        out.push(32);
                        out.push(82);
                        proof {
                            assert(ref_ok(nodes@, *id as int));
                            assert(refs_ok(nodes@, *v));
                            assert(final(out)@ =~= old(out)@ + val_bytes(nodes@, *v));
                        }
                        true
                    },
                    None => {
                        proof {
                            assert(!ref_ok(nodes@, *id as int));
                            assert(val_refs(*v)[0] == *id);
                            assert(!refs_ok(nodes@, *v));
                            assert(old(out)@.is_prefix_of(final(out)@));
                        }
                        false
                    },
                }
            } else {
                proof {
                    assert(!ref_ok(nodes@, *id as int));
                    assert(val_refs(*v)[0] == *id);
                    assert(!refs_ok(nodes@, *v));
                    assert(old(out)@.is_prefix_of(final(out)@));
                }
                false
            }
        },
    }
}

/// Serializes a dictionary body `<<\n ... >>\n` into `out`; returns false
/// on the first entry whose references cannot be resolved.
#[verifier::loop_isolation(false)]
fn write_dict_part(nodes: &Vec<ObjRef>, entries: &Vec<(Name, Value)>, out: &mut Vec<u8>) -> (ok:
    bool)
    ensures
        ok == refs_all_ok(nodes@, entries_refs(entries@)),
        ok ==> final(out)@ == old(out)@ + dict_bytes(nodes@, entries@),
        !ok ==> old(out)@.is_prefix_of(final(out)@),
    decreases entries@, 0int,
{
    out.push(60);
    out.push(60);
    out.push(10);
    let ghost pre = out@;
    let mut k: usize = 0;
    while k < entries.len()
        invariant
            k <= entries@.len(),
            out@ == pre + entries_bytes(nodes@, entries@.take(k as int)),
            pre == old(out)@ + seq![60u8, 60u8, 10u8],
            forall|j: int| 0 <= j < k ==> refs_ok(nodes@, #[trigger] entries@[j].1),
        decreases entries@.len() - k,
    {
        out.push(47);
        entries[k].0.push_to(out);
        out.push(32);
        let r = write_value(nodes, &entries[k].1, out);
        if !r {
            proof {
                lemma_entries_refs_ok(nodes@, entries@);
                assert(old(out)@.is_prefix_of(out@));
            }
            return false;
        }
        out.push(10);
        proof {
            assert(entries@.take(k + 1).drop_last() =~= entries@.take(k as int));
            assert(entries@.take(k + 1).last() == entries@[k as int]);
            assert(out@ =~= pre + entries_bytes(nodes@, entries@.take(k + 1)));
        }
        k = k + 1;
    }
    out.push(62);
    out.push(62);
    out.push(10);
    proof {
        assert(entries@.take(entries@.len() as int) =~= entries@);
        lemma_entries_refs_ok(nodes@, entries@);
        assert(final(out)@ =~= old(out)@ + dict_bytes(nodes@, entries@));
    }
    true
}

/// Appends to `out` the indices of the nodes that `v` references directly.
#[verifier::loop_isolation(false)]
pub fn collect_refs(v: &Value, out: &mut Vec<usize>)
    ensures
        final(out)@ == old(out)@ + val_refs(*v),
    decreases *v, 1int,
{
    match v {
        Value::Array(vs) => {
            let mut k: usize = 0;
            while k < vs.len()
                invariant
                    k <= vs@.len(),
                    out@ == old(out)@ + list_refs(vs@.take(k as int)),
                decreases vs@.len() - k,
            {
                proof {
                    assert(decreases_to!(*v => v->Array_0));
                    assert(v->Array_0 == *vs);
                    assert(decreases_to!(*vs => vs@));
                    assert(decreases_to!(vs@ => vs@[k as int]));
                    assert(decreases_to!(*v => vs@[k as int]));
                }
                collect_refs(&vs[k], out);
                proof {
                    assert(vs@.take(k + 1).drop_last() =~= vs@.take(k as int));
                    assert(vs@.take(k + 1).last() == vs@[k as int]);
                    assert(out@ =~= old(out)@ + list_refs(vs@.take(k + 1)));
                }
                k = k + 1;
            }
            proof {
                assert(vs@.take(vs@.len() as int) =~= vs@);
            }
        },
        Value::Dict(d) => {
            collect_entry_refs(&d.entries, out);
        },
        Value::Stream(st) => {
            collect_entry_refs(&st.meta.entries, out);
        },
        Value::Ref(id) => {
            out.push(*id);
            proof {
                assert(final(out)@ =~= old(out)@ + val_refs(*v));
            }
        },
        _ => {
            proof {
                assert(val_refs(*v) =~= Seq::<usize>::empty());
                assert(final(out)@ =~= old(out)@ + val_refs(*v));
            }
        },
    }
}

#[verifier::loop_isolation(false)]
fn collect_entry_refs(entries: &Vec<(Name, Value)>, out: &mut Vec<usize>)
    ensures
        final(out)@ == old(out)@ + entries_refs(entries@),
    decreases entries@, 0int,
{
    let mut k: usize = 0;
    while k < entries.len()
        invariant
            k <= entries@.len(),
            out@ == old(out)@ + entries_refs(entries@.take(k as int)),
        decreases entries@.len() - k,
    {
        collect_refs(&entries[k].1, out);
        proof {
            assert(entries@.take(k + 1).drop_last() =~= entries@.take(k as int));
            assert(entries@.take(k + 1).last() == entries@[k as int]);
            assert(out@ =~= old(out)@ + entries_refs(entries@.take(k + 1)));
        }
        k = k + 1;
    }
    proof {
        assert(entries@.take(entries@.len() as int) =~= entries@);
    }
}

/// The concrete byte texts of the dictionary keys and fixed names the
/// library writes; with these, distinct keys are provably distinct.
pub proof fn lemma_key_literals()
    ensures
        "Type".spec_bytes() == seq![84u8, 121u8, 112u8, 101u8],
        "Count".spec_bytes() == seq![67u8, 111u8, 117u8, 110u8, 116u8],
        "Kids".spec_bytes() == seq![75u8, 105u8, 100u8, 115u8],
        "Outlines".spec_bytes() == seq![79u8, 117u8, 116u8, 108u8, 105u8, 110u8, 101u8, 115u8],
        "Pages".spec_bytes() == seq![80u8, 97u8, 103u8, 101u8, 115u8],
        "Catalog".spec_bytes() == seq![67u8, 97u8, 116u8, 97u8, 108u8, 111u8, 103u8],
        "Page".spec_bytes() == seq![80u8, 97u8, 103u8, 101u8],
        "Parent".spec_bytes() == seq![80u8, 97u8, 114u8, 101u8, 110u8, 116u8],
        "MediaBox".spec_bytes() == seq![77u8, 101u8, 100u8, 105u8, 97u8, 66u8, 111u8, 120u8],
        "Contents".spec_bytes() == seq![67u8, 111u8, 110u8, 116u8, 101u8, 110u8, 116u8, 115u8],
        "Resources".spec_bytes() == seq![82u8, 101u8, 115u8, 111u8, 117u8, 114u8, 99u8, 101u8, 115u8],
        "Font".spec_bytes() == seq![70u8, 111u8, 110u8, 116u8],
        "Subtype".spec_bytes() == seq![83u8, 117u8, 98u8, 116u8, 121u8, 112u8, 101u8],
        "BaseFont".spec_bytes() == seq![66u8, 97u8, 115u8, 101u8, 70u8, 111u8, 110u8, 116u8],
        "ProcSet".spec_bytes() == seq![80u8, 114u8, 111u8, 99u8, 83u8, 101u8, 116u8],
        "Length".spec_bytes() == seq![76u8, 101u8, 110u8, 103u8, 116u8, 104u8],
        "PDF".spec_bytes() == seq![80u8, 68u8, 70u8],
        "Text".spec_bytes() == seq![84u8, 101u8, 120u8, 116u8],
        "Type1".spec_bytes() == seq![84u8, 121u8, 112u8, 101u8, 49u8],
        "PatternType".spec_bytes() == seq![80u8, 97u8, 116u8, 116u8, 101u8, 114u8, 110u8, 84u8, 121u8, 112u8, 101u8],
        "Pattern".spec_bytes() == seq![80u8, 97u8, 116u8, 116u8, 101u8, 114u8, 110u8],
{
    reveal_strlit("Type");
    assert(vstd::utf8::is_ascii_chars("Type"@));
    vstd::utf8::is_ascii_chars_encode_utf8("Type"@);
    assert("Type".spec_bytes() =~= seq![84u8, 121u8, 112u8, 101u8]);
    reveal_strlit("Count");
    assert(vstd::utf8::is_ascii_chars("Count"@));
    vstd::utf8::is_ascii_chars_encode_utf8("Count"@);
    assert("Count".spec_bytes() =~= seq![67u8, 111u8, 117u8, 110u8, 116u8]);
    reveal_strlit("Kids");
    assert(vstd::utf8::is_ascii_chars("Kids"@));
    vstd::utf8::is_ascii_chars_encode_utf8("Kids"@);
    assert("Kids".spec_bytes() =~= seq![75u8, 105u8, 100u8, 115u8]);
    reveal_strlit("Outlines");
    assert(vstd::utf8::is_ascii_chars("Outlines"@));
    vstd::utf8::is_ascii_chars_encode_utf8("Outlines"@);
    assert("Outlines".spec_bytes() =~= seq![79u8, 117u8, 116u8, 108u8, 105u8, 110u8, 101u8, 115u8]);
    reveal_strlit("Pages");
    assert(vstd::utf8::is_ascii_chars("Pages"@));
    vstd::utf8::is_ascii_chars_encode_utf8("Pages"@);
    assert("Pages".spec_bytes() =~= seq![80u8, 97u8, 103u8, 101u8, 115u8]);
    reveal_strlit("Catalog");
    assert(vstd::utf8::is_ascii_chars("Catalog"@));
    vstd::utf8::is_ascii_chars_encode_utf8("Catalog"@);
    assert("Catalog".spec_bytes() =~= seq![67u8, 97u8, 116u8, 97u8, 108u8, 111u8, 103u8]);
    reveal_strlit("Page");
    assert(vstd::utf8::is_ascii_chars("Page"@));
    vstd::utf8::is_ascii_chars_encode_utf8("Page"@);
    assert("Page".spec_bytes() =~= seq![80u8, 97u8, 103u8, 101u8]);
    reveal_strlit("Parent");
    assert(vstd::utf8::is_ascii_chars("Parent"@));
    vstd::utf8::is_ascii_chars_encode_utf8("Parent"@);
    assert("Parent".spec_bytes() =~= seq![80u8, 97u8, 114u8, 101u8, 110u8, 116u8]);
    reveal_strlit("MediaBox");
    assert(vstd::utf8::is_ascii_chars("MediaBox"@));
    vstd::utf8::is_ascii_chars_encode_utf8("MediaBox"@);
    assert("MediaBox".spec_bytes() =~= seq![77u8, 101u8, 100u8, 105u8, 97u8, 66u8, 111u8, 120u8]);
    reveal_strlit("Contents");
    assert(vstd::utf8::is_ascii_chars("Contents"@));
    vstd::utf8::is_ascii_chars_encode_utf8("Contents"@);
    assert("Contents".spec_bytes() =~= seq![67u8, 111u8, 110u8, 116u8, 101u8, 110u8, 116u8, 115u8]);
    reveal_strlit("Resources");
    assert(vstd::utf8::is_ascii_chars("Resources"@));
    vstd::utf8::is_ascii_chars_encode_utf8("Resources"@);
    assert("Resources".spec_bytes() =~= seq![82u8, 101u8, 115u8, 111u8, 117u8, 114u8, 99u8, 101u8, 115u8]);
    reveal_strlit("Font");
    assert(vstd::utf8::is_ascii_chars("Font"@));
    vstd::utf8::is_ascii_chars_encode_utf8("Font"@);
    assert("Font".spec_bytes() =~= seq![70u8, 111u8, 110u8, 116u8]);
    reveal_strlit("Subtype");
    assert(vstd::utf8::is_ascii_chars("Subtype"@));
    vstd::utf8::is_ascii_chars_encode_utf8("Subtype"@);
    assert("Subtype".spec_bytes() =~= seq![83u8, 117u8, 98u8, 116u8, 121u8, 112u8, 101u8]);
    reveal_strlit("BaseFont");
    assert(vstd::utf8::is_ascii_chars("BaseFont"@));
    vstd::utf8::is_ascii_chars_encode_utf8("BaseFont"@);
    assert("BaseFont".spec_bytes() =~= seq![66u8, 97u8, 115u8, 101u8, 70u8, 111u8, 110u8, 116u8]);
    reveal_strlit("ProcSet");
    assert(vstd::utf8::is_ascii_chars("ProcSet"@));
    vstd::utf8::is_ascii_chars_encode_utf8("ProcSet"@);
    assert("ProcSet".spec_bytes() =~= seq![80u8, 114u8, 111u8, 99u8, 83u8, 101u8, 116u8]);
    reveal_strlit("Length");
    assert(vstd::utf8::is_ascii_chars("Length"@));
    vstd::utf8::is_ascii_chars_encode_utf8("Length"@);
    assert("Length".spec_bytes() =~= seq![76u8, 101u8, 110u8, 103u8, 116u8, 104u8]);
    reveal_strlit("PDF");
    assert(vstd::utf8::is_ascii_chars("PDF"@));
    vstd::utf8::is_ascii_chars_encode_utf8("PDF"@);
    assert("PDF".spec_bytes() =~= seq![80u8, 68u8, 70u8]);
    reveal_strlit("Text");
    assert(vstd::utf8::is_ascii_chars("Text"@));
    vstd::utf8::is_ascii_chars_encode_utf8("Text"@);
    assert("Text".spec_bytes() =~= seq![84u8, 101u8, 120u8, 116u8]);
    reveal_strlit("Pattern");
    assert(vstd::utf8::is_ascii_chars("Pattern"@));
    vstd::utf8::is_ascii_chars_encode_utf8("Pattern"@);
    assert("Pattern".spec_bytes() =~= seq![80u8, 97u8, 116u8, 116u8, 101u8, 114u8, 110u8]);
    reveal_strlit("PatternType");
    assert(vstd::utf8::is_ascii_chars("PatternType"@));
    vstd::utf8::is_ascii_chars_encode_utf8("PatternType"@);
    assert("PatternType".spec_bytes() =~= seq![80u8, 97u8, 116u8, 116u8, 101u8, 114u8, 110u8, 84u8, 121u8, 112u8, 101u8]);
    reveal_strlit("Type1");
    assert(vstd::utf8::is_ascii_chars("Type1"@));
    vstd::utf8::is_ascii_chars_encode_utf8("Type1"@);
    assert("Type1".spec_bytes() =~= seq![84u8, 121u8, 112u8, 101u8, 49u8]);
}

} // verus!
