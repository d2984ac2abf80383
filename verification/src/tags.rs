//! The recursively nested tagged-value tree. A tag is a 16-bit
//! length-prefixed name, one kind byte, and a payload dispatched on that
//! byte over a closed set of twelve kinds. Lists repeat one element kind
//! with no per-element prefix; compounds are terminated by a sentinel zero
//! byte that is peeked before each child and consumed at the end.
//!
//! The decoder's contract is stated against a ghost tree model and its
//! serialization, in both directions: whatever bytes a successful decode
//! consumed are exactly the serialization of a well-formed model tree
//! related to the returned value, and whenever the serialization of a
//! well-formed tree lies at the cursor the decode succeeds. Serialization
//! is unambiguous (`lemma_encode_tag_unambiguous`), so decoding a
//! serialized tree reproduces that tree, child for child and name for
//! name.

use vstd::prelude::*;
use crate::binary_reader::BinaryReader;
use crate::endian::Endian;
use crate::errors::{DecodeError, DecodeErrorKind, DecodeStage};
use crate::fields::{bytes_field, u16_field, u32_field, u64_field, u8_field};
use crate::strings::{lossy_of, lossy_string};
use crate::values::{
    bytes_of, lemma_bytes_of_len, lemma_bytes_of_value_of, lemma_value_of_bound,
    lemma_value_of_bytes_of, value_of,
};

verus! {

broadcast use vstd::seq::axiom_seq_index_decreases, vstd::seq::axiom_seq_subrange_decreases;

/// The ghost shape of a payload: what the wire format stores, with text and
/// names kept as raw bytes.
pub enum PayloadModel {
    End,
    Byte(i8),
    Short(i16),
    Int(i32),
    Long(i64),
    Float(u32),
    Double(u64),
    ByteArray(Seq<u8>),
    Str(Seq<u8>),
    List(u8, Seq<PayloadModel>),
    Compound(Seq<TagModel>),
    IntArray(Seq<i32>),
}

/// The ghost shape of a tag: raw name bytes and a payload.
pub struct TagModel {
    pub name: Seq<u8>,
    pub value: PayloadModel,
}

/// The kind byte each payload shape is dispatched on.
pub open spec fn kind_of(m: PayloadModel) -> u8 {
    match m {
        PayloadModel::End => 0,
        PayloadModel::Byte(_) => 1,
        PayloadModel::Short(_) => 2,
        PayloadModel::Int(_) => 3,
        PayloadModel::Long(_) => 4,
        PayloadModel::Float(_) => 5,
        PayloadModel::Double(_) => 6,
        PayloadModel::ByteArray(_) => 7,
        PayloadModel::Str(_) => 8,
        PayloadModel::List(_, _) => 9,
        PayloadModel::Compound(_) => 10,
        PayloadModel::IntArray(_) => 11,
    }
}

/// The serialization of a payload under the byte order `en`.
pub open spec fn encode_payload(m: PayloadModel, en: Endian) -> Seq<u8>
    decreases m,
{
    match m {
        PayloadModel::End => Seq::empty(),
        PayloadModel::Byte(v) => seq![v as u8],
        PayloadModel::Short(v) => bytes_of((v as u16) as nat, 2, en),
        PayloadModel::Int(v) => bytes_of((v as u32) as nat, 4, en),
        PayloadModel::Long(v) => bytes_of((v as u64) as nat, 8, en),
        PayloadModel::Float(bits) => bytes_of(bits as nat, 4, en),
        PayloadModel::Double(bits) => bytes_of(bits as nat, 8, en),
        PayloadModel::ByteArray(bs) => bytes_of(bs.len(), 4, en) + bs,
        PayloadModel::Str(bs) => bytes_of(bs.len(), 2, en) + bs,
        PayloadModel::List(k, elems) => seq![k] + bytes_of(elems.len(), 4, en) + encode_elems(
            elems,
            en,
        ),
        PayloadModel::Compound(tags) => encode_tags(tags, en) + seq![0u8],
        PayloadModel::IntArray(vs) => bytes_of(vs.len(), 4, en) + encode_ints(vs, en),
    }
}

/// The serializations of a list's elements, one after another, with no
/// per-element prefix.
pub open spec fn encode_elems(elems: Seq<PayloadModel>, en: Endian) -> Seq<u8>
    decreases elems,
{
    if elems.len() == 0 {
        Seq::empty()
    } else {
        encode_payload(elems[0], en) + encode_elems(elems.drop_first(), en)
    }
}

/// The serializations of 32-bit integers, one after another.
pub open spec fn encode_ints(vs: Seq<i32>, en: Endian) -> Seq<u8>
    decreases vs.len(),
{
    if vs.len() == 0 {
        Seq::empty()
    } else {
        bytes_of((vs[0] as u32) as nat, 4, en) + encode_ints(vs.drop_first(), en)
    }
}

/// The serialization of one tag: name length, name bytes, kind byte,
/// payload.
pub open spec fn encode_tag(t: TagModel, en: Endian) -> Seq<u8>
    decreases t,
{
    bytes_of(t.name.len(), 2, en) + t.name + seq![kind_of(t.value)] + encode_payload(t.value, en)
}

/// The serializations of a compound's children, one after another (the
/// sentinel byte is not included here).
pub open spec fn encode_tags(tags: Seq<TagModel>, en: Endian) -> Seq<u8>
    decreases tags,
{
    if tags.len() == 0 {
        Seq::empty()
    } else {
        encode_tag(tags[0], en) + encode_tags(tags.drop_first(), en)
    }
}

/// A compound child's serialization must not begin with the sentinel byte,
/// or decoding would stop before it.
pub open spec fn nonzero_lead(t: TagModel, en: Endian) -> bool {
    encode_tag(t, en).len() > 0 && encode_tag(t, en)[0] != 0
}

/// A payload that the wire format can carry: lengths fit their prefixes,
/// list elements all have the declared kind, and compound children never
/// begin with the sentinel.
pub open spec fn wf_payload(m: PayloadModel, en: Endian) -> bool
    decreases m,
{
    match m {
        PayloadModel::End => true,
        PayloadModel::Byte(_) => true,
        PayloadModel::Short(_) => true,
        PayloadModel::Int(_) => true,
        PayloadModel::Long(_) => true,
        PayloadModel::Float(_) => true,
        PayloadModel::Double(_) => true,
        PayloadModel::ByteArray(bs) => bs.len() < 0x1_0000_0000,
        PayloadModel::Str(bs) => bs.len() < 0x10000,
        PayloadModel::List(k, elems) => {
            &&& elems.len() < 0x1_0000_0000
            &&& forall|i: int| 0 <= i < elems.len() ==> kind_of(#[trigger] elems[i]) == k
            &&& forall|i: int| 0 <= i < elems.len() ==> wf_payload(#[trigger] elems[i], en)
        },
        PayloadModel::Compound(tags) => {
            &&& forall|i: int| 0 <= i < tags.len() ==> wf_tag(#[trigger] tags[i], en)
            &&& forall|i: int| 0 <= i < tags.len() ==> nonzero_lead(#[trigger] tags[i], en)
        },
        PayloadModel::IntArray(vs) => vs.len() < 0x1_0000_0000,
    }
}

/// A tag the wire format can carry.
pub open spec fn wf_tag(t: TagModel, en: Endian) -> bool
    decreases t,
{
    &&& t.name.len() < 0x10000
    &&& wf_payload(t.value, en)
}

/// A decoded payload carries the model's values: equal scalars and bit
/// patterns, equal raw bytes, permissively decoded text, and related
/// children elementwise.
pub open spec fn payload_rel(p: TagPayload, m: PayloadModel) -> bool
    decreases m,
{
    match (p, m) {
        (TagPayload::End, PayloadModel::End) => true,
        (TagPayload::Byte(a), PayloadModel::Byte(b)) => a == b,
        (TagPayload::Short(a), PayloadModel::Short(b)) => a == b,
        (TagPayload::Int(a), PayloadModel::Int(b)) => a == b,
        (TagPayload::Long(a), PayloadModel::Long(b)) => a == b,
        (TagPayload::Float(a), PayloadModel::Float(b)) => a == b,
        (TagPayload::Double(a), PayloadModel::Double(b)) => a == b,
        (TagPayload::ByteArray(v), PayloadModel::ByteArray(bs)) => v@ == bs,
        (TagPayload::String(s), PayloadModel::Str(bs)) => s@ == lossy_of(bs),
        (TagPayload::List(v), PayloadModel::List(_, elems)) => v@.len() == elems.len() && (forall|
            i: int,
        |
            0 <= i < elems.len() ==> payload_rel(v@[i], #[trigger] elems[i])),
        (TagPayload::Compound(v), PayloadModel::Compound(tags)) => v@.len() == tags.len() && (forall|
            i: int,
        |
            0 <= i < tags.len() ==> tag_rel(v@[i], #[trigger] tags[i])),
        (TagPayload::IntArray(v), PayloadModel::IntArray(vs)) => v@ == vs,
        _ => false,
    }
}

/// A decoded tag carries the model's permissively decoded name and a
/// related payload.
pub open spec fn tag_rel(t: Tag, m: TagModel) -> bool
    decreases m,
{
    &&& t.name@ == lossy_of(m.name)
    &&& payload_rel(t.value, m.value)
}

/// A payload value: one of twelve kinds. Floating-point payloads keep the
/// raw IEEE-754 bit pattern the wire carries.
#[derive(PartialEq, Debug)]
pub enum TagPayload {
    End,
    Byte(i8),
    Short(i16),
    Int(i32),
    Long(i64),
    Float(u32),
    Double(u64),
    ByteArray(Vec<u8>),
    String(String),
    List(Vec<TagPayload>),
    Compound(Vec<Tag>),
    IntArray(Vec<i32>),
}

/// A named node of the tree.
#[derive(PartialEq, Debug)]
pub struct Tag {
    pub name: String,
    pub value: TagPayload,
}

impl Default for TagPayload {
    /// The zero-size sentinel payload.
    fn default() -> (r: Self)
        ensures
            r == TagPayload::End,
    {
        TagPayload::End
    }
}

/// Appending an element extends the elements' serialization by its own.
pub proof fn lemma_encode_elems_push(elems: Seq<PayloadModel>, m: PayloadModel, en: Endian)
    ensures
        encode_elems(elems.push(m), en) == encode_elems(elems, en) + encode_payload(m, en),
    decreases elems.len(),
{
    if elems.len() == 0 {
        assert(elems.push(m)[0] == m);
        assert(elems.push(m).drop_first() =~= Seq::<PayloadModel>::empty());
        assert(encode_elems(Seq::<PayloadModel>::empty(), en) == Seq::<u8>::empty());
        assert(encode_elems(elems.push(m), en) =~= encode_payload(m, en) + Seq::<u8>::empty());
        assert(encode_elems(elems.push(m), en) =~= encode_elems(elems, en) + encode_payload(m, en));
    } else {
        assert(elems.push(m)[0] == elems[0]);
        assert(elems.push(m).drop_first() =~= elems.drop_first().push(m));
        lemma_encode_elems_push(elems.drop_first(), m, en);
        assert(encode_elems(elems.push(m), en) =~= encode_elems(elems, en) + encode_payload(m, en));
    }
}

/// Appending an integer extends the integers' serialization by its own.
pub proof fn lemma_encode_ints_push(vs: Seq<i32>, v: i32, en: Endian)
    ensures
        encode_ints(vs.push(v), en) == encode_ints(vs, en) + bytes_of((v as u32) as nat, 4, en),
    decreases vs.len(),
{
    if vs.len() == 0 {
        assert(vs.push(v)[0] == v);
        assert(vs.push(v).drop_first() =~= Seq::<i32>::empty());
        assert(encode_ints(Seq::<i32>::empty(), en) == Seq::<u8>::empty());
        assert(encode_ints(vs.push(v), en) =~= bytes_of((v as u32) as nat, 4, en));
        assert(encode_ints(vs.push(v), en) =~= encode_ints(vs, en) + bytes_of(
            (v as u32) as nat,
            4,
            en,
        ));
    } else {
        assert(vs.push(v)[0] == vs[0]);
        assert(vs.push(v).drop_first() =~= vs.drop_first().push(v));
        lemma_encode_ints_push(vs.drop_first(), v, en);
        assert(encode_ints(vs.push(v), en) =~= encode_ints(vs, en) + bytes_of(
            (v as u32) as nat,
            4,
            en,
        ));
    }
}

/// Appending a child extends the children's serialization by its own.
pub proof fn lemma_encode_tags_push(tags: Seq<TagModel>, t: TagModel, en: Endian)
    ensures
        encode_tags(tags.push(t), en) == encode_tags(tags, en) + encode_tag(t, en),
    decreases tags.len(),
{
    if tags.len() == 0 {
        assert(tags.push(t)[0] == t);
        assert(tags.push(t).drop_first() =~= Seq::<TagModel>::empty());
        assert(encode_tags(Seq::<TagModel>::empty(), en) == Seq::<u8>::empty());
        assert(encode_tags(tags.push(t), en) =~= encode_tag(t, en));
        assert(encode_tags(tags.push(t), en) =~= encode_tags(tags, en) + encode_tag(t, en));
    } else {
        assert(tags.push(t)[0] == tags[0]);
        assert(tags.push(t).drop_first() =~= tags.drop_first().push(t));
        lemma_encode_tags_push(tags.drop_first(), t, en);
        assert(encode_tags(tags.push(t), en) =~= encode_tags(tags, en) + encode_tag(t, en));
    }
}

/// Some well-formed payload of the given kind is serialized at the cursor.
pub open spec fn payload_prefix_exists(r: &BinaryReader, tag_type: u8) -> bool {
    exists|m: PayloadModel|
        #[trigger] wf_payload(m, r.endian) && kind_of(m) == tag_type && prefix_is(
            r,
            encode_payload(m, r.endian),
        )
}

/// Some well-formed tag is serialized at the cursor.
pub open spec fn tag_prefix_exists(r: &BinaryReader) -> bool {
    exists|m: TagModel| #[trigger] wf_tag(m, r.endian) && prefix_is(r, encode_tag(m, r.endian))
}

/// How many bytes lie between the cursor and the end of its buffer; the
/// decoder's recursion shrinks this.
pub open spec fn remaining(r: &BinaryReader) -> int {
    if r.offset <= r.data@.len() {
        r.data@.len() - r.offset
    } else {
        0
    }
}

/// A prefix of the buffer splits: consuming its first part leaves the
/// second part as a prefix at the advanced cursor.
proof fn lemma_prefix_advance(r0: BinaryReader, r1: BinaryReader, a: Seq<u8>, b: Seq<u8>)
    requires
        r1.data@ == r0.data@,
        prefix_is(&r0, a + b),
        r1.offset == r0.offset + a.len(),
    ensures
        prefix_is(&r1, b),
{
    assert forall|q: int| 0 <= q < b.len() implies r1.data@[r1.offset + q] == b[q] by {
        assert((a + b)[a.len() + q] == b[q]);
        assert(r0.data@.subrange(r0.offset as int, r0.offset + (a + b).len())[a.len() + q]
            == r0.data@[r0.offset + a.len() + q]);
    }
    assert(r1.data@.subrange(r1.offset as int, r1.offset + b.len()) =~= b);
}

/// A prefix of the buffer shortens: if a concatenation lies at the cursor,
/// so does its first part.
proof fn lemma_prefix_take(r: BinaryReader, a: Seq<u8>, b: Seq<u8>)
    requires
        prefix_is(&r, a + b),
    ensures
        prefix_is(&r, a),
{
    assert forall|q: int| 0 <= q < a.len() implies r.data@[r.offset + q] == a[q] by {
        assert((a + b)[q] == a[q]);
        assert(r.data@.subrange(r.offset as int, r.offset + (a + b).len())[q] == r.data@[r.offset
            + q]);
    }
    assert(r.data@.subrange(r.offset as int, r.offset + a.len()) =~= a);
}

/// What the compound decoder sees after `i` children of a serialized
/// compound: either the next child's serialization — whose lead byte is
/// never the sentinel — or the sentinel itself.
proof fn lemma_compound_step(
    pre: BinaryReader,
    cur: BinaryReader,
    cw: PayloadModel,
    cw_tags: Seq<TagModel>,
    i: int,
)
    requires
        wf_payload(cw, pre.endian),
        cw == PayloadModel::Compound(cw_tags),
        prefix_is(&pre, encode_payload(cw, pre.endian)),
        cur.data@ == pre.data@,
        cur.endian == pre.endian,
        0 <= i <= cw_tags.len(),
        cur.offset == pre.offset + encode_tags(cw_tags.take(i), pre.endian).len(),
    ensures
        cur.offset < pre.data@.len(),
        i < cw_tags.len() ==> (cur.data@[cur.offset as int] != 0 && prefix_is(
            &cur,
            encode_tag(cw_tags[i], pre.endian),
        ) && wf_tag(cw_tags[i], pre.endian)),
        i == cw_tags.len() ==> cur.data@[cur.offset as int] == 0,
{
    let en = pre.endian;
    lemma_encode_tags_split(cw_tags, i, en);
    let a = encode_tags(cw_tags.take(i), en);
    let b = encode_tags(cw_tags.skip(i), en) + seq![0u8];
    assert(encode_payload(cw, en) =~= a + b);
    lemma_prefix_advance(pre, cur, a, b);
    if i < cw_tags.len() {
        assert(cw_tags.skip(i)[0] == cw_tags[i]);
        assert(cw_tags.skip(i).drop_first() =~= cw_tags.skip(i + 1));
        assert(encode_tags(cw_tags.skip(i), en) == encode_tag(cw_tags[i], en) + encode_tags(
            cw_tags.skip(i + 1),
            en,
        ));
        assert(b =~= encode_tag(cw_tags[i], en) + (encode_tags(cw_tags.skip(i + 1), en) + seq![
            0u8,
        ]));
        lemma_prefix_take(
            cur,
            encode_tag(cw_tags[i], en),
            encode_tags(cw_tags.skip(i + 1), en) + seq![0u8],
        );
        assert(wf_tag(cw_tags[i], en));
        assert(nonzero_lead(cw_tags[i], en));
        assert(cur.data@.subrange(
            cur.offset as int,
            cur.offset + encode_tag(cw_tags[i], en).len(),
        )[0] == cur.data@[cur.offset as int]);
    } else {
        assert(cw_tags.skip(i) =~= Seq::<TagModel>::empty());
        assert(encode_tags(Seq::<TagModel>::empty(), en) == Seq::<u8>::empty());
        assert(b =~= seq![0u8]);
        assert(cur.data@.subrange(cur.offset as int, cur.offset + 1)[0] == cur.data@[cur.offset
            as int]);
    }
}

/// What a serialized well-formed tag at the cursor guarantees: the length
/// prefix reads back the name's length, the whole head fits the buffer,
/// and the kind byte is the payload's kind.
proof fn lemma_tag_prefix_facts(pre: BinaryReader, cw: TagModel)
    requires
        wf_tag(cw, pre.endian),
        prefix_is(&pre, encode_tag(cw, pre.endian)),
    ensures
        value_of(pre.data@.subrange(pre.offset as int, pre.offset + 2), pre.endian)
            == cw.name.len(),
        pre.can_read(2 + cw.name.len() + 1),
        pre.data@[pre.offset + 2 + cw.name.len()] == kind_of(cw.value),
{
    let en = pre.endian;
    let l1 = bytes_of(cw.name.len(), 2, en);
    let k1 = seq![kind_of(cw.value)];
    lemma_bytes_of_len(cw.name.len(), 2, en);
    vstd::arithmetic::power2::lemma2_to64();
    assert(encode_tag(cw, en) =~= l1 + (cw.name + (k1 + encode_payload(cw.value, en))));
    lemma_prefix_take(pre, l1, cw.name + (k1 + encode_payload(cw.value, en)));
    assert(pre.data@.subrange(pre.offset as int, pre.offset + 2) == l1);
    lemma_value_of_bytes_of(cw.name.len(), 2, en);
    let enc = encode_tag(cw, en);
    assert(enc[2 + cw.name.len() as int] == kind_of(cw.value)) by {
        assert((l1 + cw.name + k1 + encode_payload(cw.value, en))[2 + cw.name.len() as int] == k1[0]);
        assert(enc =~= l1 + cw.name + k1 + encode_payload(cw.value, en));
    }
    assert(pre.data@.subrange(pre.offset as int, pre.offset + enc.len())[2 + cw.name.len() as int]
        == pre.data@[pre.offset + 2 + cw.name.len()]);
}

/// What a serialized well-formed payload at the cursor guarantees about
/// the buffer: the reads the decoder performs for its kind cannot run out.
proof fn lemma_payload_prefix_facts(pre: BinaryReader, tag_type: u8, cw: PayloadModel)
    requires
        wf_payload(cw, pre.endian),
        kind_of(cw) == tag_type,
        prefix_is(&pre, encode_payload(cw, pre.endian)),
    ensures
        tag_type <= 11,
        tag_type == 1 ==> pre.can_read(1),
        tag_type == 2 ==> pre.can_read(2),
        tag_type == 3 || tag_type == 5 ==> pre.can_read(4),
        tag_type == 4 || tag_type == 6 ==> pre.can_read(8),
        tag_type == 7 ==> pre.can_read(4 + value_of(pre.window(4), pre.endian)),
        tag_type == 8 ==> pre.can_read(2 + value_of(pre.window(2), pre.endian)),
        tag_type == 11 ==> pre.can_read(4 + 4 * value_of(pre.window(4), pre.endian)),
        tag_type == 9 ==> (cw matches PayloadModel::List(k, elems) && pre.can_read(5)
            && pre.data@[pre.offset as int] == k && value_of(
            pre.data@.subrange(pre.offset + 1, pre.offset + 5),
            pre.endian,
        ) == elems.len()),
        tag_type == 10 ==> pre.can_read(1),
{
    let en = pre.endian;
    let enc = encode_payload(cw, en);
    lemma_encode_payload_len(cw, en);
    vstd::arithmetic::power2::lemma2_to64();
    match cw {
        PayloadModel::ByteArray(bs) => {
            lemma_bytes_of_len(bs.len(), 4, en);
            assert(pre.window(4) =~= bytes_of(bs.len(), 4, en));
            lemma_value_of_bytes_of(bs.len(), 4, en);
        },
        PayloadModel::Str(bs) => {
            lemma_bytes_of_len(bs.len(), 2, en);
            assert(pre.window(2) =~= bytes_of(bs.len(), 2, en));
            lemma_value_of_bytes_of(bs.len(), 2, en);
        },
        PayloadModel::IntArray(vs) => {
            lemma_bytes_of_len(vs.len(), 4, en);
            assert(pre.window(4) =~= bytes_of(vs.len(), 4, en));
            lemma_value_of_bytes_of(vs.len(), 4, en);
        },
        PayloadModel::List(k, elems) => {
            let cnt = bytes_of(elems.len(), 4, en);
            lemma_bytes_of_len(elems.len(), 4, en);
            assert(enc =~= seq![k] + cnt + encode_elems(elems, en));
            assert(enc[0] == k);
            assert(pre.data@.subrange(pre.offset as int, pre.offset + enc.len())[0] == pre.data@[
                pre.offset as int]);
            assert forall|q: int| 0 <= q < 4 implies pre.data@[pre.offset + 1 + q] == cnt[q] by {
                assert(enc[1 + q] == cnt[q]);
                assert(pre.data@.subrange(pre.offset as int, pre.offset + enc.len())[1 + q]
                    == pre.data@[pre.offset + 1 + q]);
            }
            assert(pre.data@.subrange(pre.offset + 1, pre.offset + 5) =~= cnt);
            lemma_value_of_bytes_of(elems.len(), 4, en);
        },
        _ => {},
    }
}

impl TagPayload {
    /// Decodes one payload of the given kind at the cursor. Whatever bytes
    /// a successful decode consumed are exactly the serialization of a
    /// well-formed model payload of that kind, related to the returned
    /// value; a kind byte outside the closed set is reported, never
    /// defaulted.
    #[verifier::loop_isolation(false)]
    #[verifier::rlimit(100)]
    pub fn parse_payload(reader: &mut BinaryReader, tag_type: u8) -> (r: Result<
        TagPayload,
        DecodeError,
    >)
        ensures
            final(reader).same_buffer_and_modes(old(reader)),
            r matches Ok(_) ==> old(reader).offset <= final(reader).offset,
            (r matches Ok(_) && old(reader).offset <= old(reader).data@.len())
                ==> final(reader).offset <= old(reader).data@.len(),
            old(reader).offset <= old(reader).data@.len() ==> (r matches Ok(p) ==> exists|
                m: PayloadModel,
            |
                #[trigger] payload_rel(p, m) && kind_of(m) == tag_type && wf_payload(
                    m,
                    old(reader).endian,
                ) && old(reader).data@.subrange(
                    old(reader).offset as int,
                    final(reader).offset as int,
                ) == encode_payload(m, old(reader).endian)),
            tag_type > 11 ==> r == Err::<TagPayload, DecodeError>(
                DecodeError {
                    kind: DecodeErrorKind::UnknownTagKind { kind: tag_type },
                    stage: DecodeStage::TagDecode,
                    offset: old(reader).offset,
                },
            ),
            tag_type == 0 ==> (r matches Ok(p) && p == TagPayload::End && final(reader).offset
                == old(reader).offset),
            tag_type == 1 ==> ((r is Ok) <==> old(reader).can_read(1)),
            tag_type == 2 ==> ((r is Ok) <==> old(reader).can_read(2)),
            (tag_type == 3 || tag_type == 5) ==> ((r is Ok) <==> old(reader).can_read(4)),
            (tag_type == 4 || tag_type == 6) ==> ((r is Ok) <==> old(reader).can_read(8)),
            tag_type == 7 ==> ((r is Ok) <==> old(reader).can_read(
                4 + value_of(old(reader).window(4), old(reader).endian),
            )),
            tag_type == 8 ==> ((r is Ok) <==> old(reader).can_read(
                2 + value_of(old(reader).window(2), old(reader).endian),
            )),
            tag_type == 11 ==> ((r is Ok) <==> old(reader).can_read(
                4 + 4 * value_of(old(reader).window(4), old(reader).endian),
            )),
            payload_prefix_exists(old(reader), tag_type) ==> r is Ok,
        decreases remaining(reader), 2int,
    {
        let ghost pre = *reader;
        let ghost en = pre.endian;
        let ghost cw: PayloadModel = if payload_prefix_exists(&pre, tag_type) {
            choose|m: PayloadModel|
                #[trigger] wf_payload(m, en) && kind_of(m) == tag_type && prefix_is(
                    &pre,
                    encode_payload(m, en),
                )
        } else {
            PayloadModel::End
        };
        proof {
            if payload_prefix_exists(&pre, tag_type) {
                lemma_payload_prefix_facts(pre, tag_type, cw);
            }
        }
        match tag_type {
            0 => {
                proof {
                    let m = PayloadModel::End;
                    assert(payload_rel(TagPayload::End, m));
                    if pre.offset <= pre.data@.len() {
                        assert(pre.data@.subrange(pre.offset as int, pre.offset as int) =~= Seq::<
                            u8,
                        >::empty());
                    }
                }
                Ok(TagPayload::End)
            },
            1 => {
                let b = match u8_field(reader, DecodeStage::TagDecode) {
                    Ok(v) => v,
                    Err(e) => {
                        return Err(e);
                    },
                };
                proof {
                    let m = PayloadModel::Byte(b as i8);
                    assert(b as i8 as u8 == b) by (bit_vector);
                    assert(pre.data@.subrange(pre.offset as int, reader.offset as int) =~= seq![b]);
                    assert(payload_rel(TagPayload::Byte(b as i8), m));
                    assert(pre.data@.subrange(pre.offset as int, reader.offset as int)
                        == encode_payload(m, en));
                }
                Ok(TagPayload::Byte(b as i8))
            },
            2 => {
                let v = match u16_field(reader, DecodeStage::TagDecode) {
                    Ok(v) => v,
                    Err(e) => {
                        return Err(e);
                    },
                };
                proof {
                    let m = PayloadModel::Short(v as i16);
                    assert(v as i16 as u16 == v) by (bit_vector);
                    lemma_bytes_of_value_of(pre.window(2), en);
                    assert(pre.data@.subrange(pre.offset as int, reader.offset as int)
                        =~= pre.window(2));
                    assert(payload_rel(TagPayload::Short(v as i16), m));
                    assert(pre.data@.subrange(pre.offset as int, reader.offset as int)
                        == encode_payload(m, en));
                }
                Ok(TagPayload::Short(v as i16))
            },
            3 => {
                let v = match u32_field(reader, DecodeStage::TagDecode) {
                    Ok(v) => v,
                    Err(e) => {
                        return Err(e);
                    },
                };
                proof {
                    let m = PayloadModel::Int(v as i32);
                    assert(v as i32 as u32 == v) by (bit_vector);
                    lemma_bytes_of_value_of(pre.window(4), en);
                    assert(pre.data@.subrange(pre.offset as int, reader.offset as int)
                        =~= pre.window(4));
                    assert(payload_rel(TagPayload::Int(v as i32), m));
                    assert(pre.data@.subrange(pre.offset as int, reader.offset as int)
                        == encode_payload(m, en));
                }
                Ok(TagPayload::Int(v as i32))
            },
            4 => {
                let v = match u64_field(reader, DecodeStage::TagDecode) {
                    Ok(v) => v,
                    Err(e) => {
                        return Err(e);
                    },
                };
                proof {
                    let m = PayloadModel::Long(v as i64);
                    assert(v as i64 as u64 == v) by (bit_vector);
                    lemma_bytes_of_value_of(pre.window(8), en);
                    assert(pre.data@.subrange(pre.offset as int, reader.offset as int)
                        =~= pre.window(8));
                    assert(payload_rel(TagPayload::Long(v as i64), m));
                    assert(pre.data@.subrange(pre.offset as int, reader.offset as int)
                        == encode_payload(m, en));
                }
                Ok(TagPayload::Long(v as i64))
            },
            5 => {
                let v = match u32_field(reader, DecodeStage::TagDecode) {
                    Ok(v) => v,
                    Err(e) => {
                        return Err(e);
                    },
                };
                proof {
                    let m = PayloadModel::Float(v);
                    lemma_bytes_of_value_of(pre.window(4), en);
                    assert(pre.data@.subrange(pre.offset as int, reader.offset as int)
                        =~= pre.window(4));
                    assert(payload_rel(TagPayload::Float(v), m));
                    assert(pre.data@.subrange(pre.offset as int, reader.offset as int)
                        == encode_payload(m, en));
                }
                Ok(TagPayload::Float(v))
            },
            6 => {
                let v = match u64_field(reader, DecodeStage::TagDecode) {
                    Ok(v) => v,
                    Err(e) => {
                        return Err(e);
                    },
                };
                proof {
                    let m = PayloadModel::Double(v);
                    lemma_bytes_of_value_of(pre.window(8), en);
                    assert(pre.data@.subrange(pre.offset as int, reader.offset as int)
                        =~= pre.window(8));
                    assert(payload_rel(TagPayload::Double(v), m));
                    assert(pre.data@.subrange(pre.offset as int, reader.offset as int)
                        == encode_payload(m, en));
                }
                Ok(TagPayload::Double(v))
            },
            7 => {
                let size = match u32_field(reader, DecodeStage::TagDecode) {
                    Ok(v) => v,
                    Err(e) => {
                        return Err(e);
                    },
                };
                let bytes = match bytes_field(reader, size as usize, DecodeStage::TagDecode) {
                    Ok(v) => v,
                    Err(e) => {
                        return Err(e);
                    },
                };
                proof {
                    let m = PayloadModel::ByteArray(bytes@);
                    lemma_bytes_of_value_of(pre.window(4), en);
                    assert(pre.data@.subrange(pre.offset as int, reader.offset as int)
                        =~= pre.window(4) + bytes@);
                    assert(payload_rel(TagPayload::ByteArray(bytes), m));
                    assert(pre.data@.subrange(pre.offset as int, reader.offset as int)
                        == encode_payload(m, en));
                }
                Ok(TagPayload::ByteArray(bytes))
            },
            8 => {
                let size = match u16_field(reader, DecodeStage::TagDecode) {
                    Ok(v) => v,
                    Err(e) => {
                        return Err(e);
                    },
                };
                let bytes = match bytes_field(reader, size as usize, DecodeStage::TagDecode) {
                    Ok(v) => v,
                    Err(e) => {
                        return Err(e);
                    },
                };
                let text = lossy_string(bytes.as_slice());
                proof {
                    let m = PayloadModel::Str(bytes@);
                    lemma_bytes_of_value_of(pre.window(2), en);
                    assert(pre.data@.subrange(pre.offset as int, reader.offset as int)
                        =~= pre.window(2) + bytes@);
                    assert(payload_rel(TagPayload::String(text), m));
                    assert(pre.data@.subrange(pre.offset as int, reader.offset as int)
                        == encode_payload(m, en));
                }
                Ok(TagPayload::String(text))
            },
            9 => TagPayload::parse_list_payload(reader),
            10 => TagPayload::parse_compound_payload(reader),
            11 => {
                let size = match u32_field(reader, DecodeStage::TagDecode) {
                    Ok(v) => v,
                    Err(e) => {
                        return Err(e);
                    },
                };
                let mut array: Vec<i32> = Vec::new();
                let mut j: u32 = 0;
                proof {
                    assert(pre.data@.subrange(pre.offset + 4, pre.offset + 4) =~= Seq::<
                        u8,
                    >::empty());
                    assert(encode_ints(Seq::<i32>::empty(), en) == Seq::<u8>::empty());
                }
                while j < size
                    invariant
                        j <= size,
                        reader.data@ == pre.data@,
                        reader.endian == pre.endian,
                        reader.is_64bit == pre.is_64bit,
                        reader.offset == pre.offset + 4 + 4 * j,
                        pre.offset + 4 + 4 * j <= pre.data@.len(),
                        array@.len() == j,
                        pre.data@.subrange(pre.offset + 4, reader.offset as int) == encode_ints(
                            array@,
                            en,
                        ),
                    decreases size - j,
                {
                    let ghost prev = *reader;
                    let v = match u32_field(reader, DecodeStage::TagDecode) {
                        Ok(v) => v,
                        Err(e) => {
                            return Err(e);
                        },
                    };
                    proof {
                        assert(v as i32 as u32 == v) by (bit_vector);
                        lemma_bytes_of_value_of(prev.window(4), en);
                        lemma_encode_ints_push(array@, v as i32, en);
                        assert(pre.data@.subrange(pre.offset + 4, reader.offset as int)
                            =~= pre.data@.subrange(pre.offset + 4, prev.offset as int)
                            + prev.window(4));
                        assert(array@.push(v as i32)[j as int] == v as i32);
                    }
                    array.push(v as i32);
                    j = j + 1;
                }
                proof {
                    let m = PayloadModel::IntArray(array@);
                    lemma_bytes_of_value_of(pre.window(4), en);
                    assert(pre.data@.subrange(pre.offset as int, reader.offset as int)
                        =~= pre.window(4) + pre.data@.subrange(
                        pre.offset + 4,
                        reader.offset as int,
                    ));
                    assert(payload_rel(TagPayload::IntArray(array), m));
                    assert(pre.data@.subrange(pre.offset as int, reader.offset as int)
                        == encode_payload(m, en));
                }
                Ok(TagPayload::IntArray(array))
            },
            _ => Err(
                DecodeError {
                    kind: DecodeErrorKind::UnknownTagKind { kind: tag_type },
                    stage: DecodeStage::TagDecode,
                    offset: reader.offset,
                },
            ),
        }
    }

    /// Decodes a list payload: one element-kind byte, a 32-bit count, then
    /// that many payloads of that kind with no per-element prefix.
    #[verifier::loop_isolation(false)]
    #[verifier::rlimit(100)]
    fn parse_list_payload(reader: &mut BinaryReader) -> (r: Result<TagPayload, DecodeError>)
        ensures
            final(reader).same_buffer_and_modes(old(reader)),
            r matches Ok(_) ==> old(reader).offset <= final(reader).offset,
            (r matches Ok(_) && old(reader).offset <= old(reader).data@.len())
                ==> final(reader).offset <= old(reader).data@.len(),
            old(reader).offset <= old(reader).data@.len() ==> (r matches Ok(p) ==> exists|
                m: PayloadModel,
            |
                #[trigger] payload_rel(p, m) && kind_of(m) == 9 && wf_payload(
                    m,
                    old(reader).endian,
                ) && old(reader).data@.subrange(
                    old(reader).offset as int,
                    final(reader).offset as int,
                ) == encode_payload(m, old(reader).endian)),
            payload_prefix_exists(old(reader), 9) ==> r is Ok,
        decreases remaining(reader), 1int,
    {
        let ghost pre = *reader;
        let ghost en = pre.endian;
        let ghost ante = payload_prefix_exists(&pre, 9);
        let ghost cw: PayloadModel = if ante {
            choose|m: PayloadModel|
                #[trigger] wf_payload(m, en) && kind_of(m) == 9 && prefix_is(
                    &pre,
                    encode_payload(m, en),
                )
        } else {
            PayloadModel::End
        };
        let ghost cw_elems: Seq<PayloadModel> = match cw {
            PayloadModel::List(_, es) => es,
            _ => Seq::empty(),
        };
        let ghost cw_k: u8 = match cw {
            PayloadModel::List(k, _) => k,
            _ => 0,
        };
        proof {
            if ante {
                lemma_payload_prefix_facts(pre, 9, cw);
            }
        }
        let sub_type = match u8_field(reader, DecodeStage::TagDecode) {
            Ok(v) => v,
            Err(e) => {
                proof {
                    if ante {
                        assert(false);
                    }
                }
                return Err(e);
            },
        };
        let size = match u32_field(reader, DecodeStage::TagDecode) {
            Ok(v) => v,
            Err(e) => {
                proof {
                    if ante {
                        assert(false);
                    }
                }
                return Err(e);
            },
        };
        proof {
            if ante {
                assert(sub_type == cw_k);
                assert(size == cw_elems.len());
            }
        }
        let mut list: Vec<TagPayload> = Vec::new();
        let ghost mut elems: Seq<PayloadModel> = Seq::empty();
        let mut j: u32 = 0;
        proof {
            assert(pre.data@.subrange(pre.offset + 5, pre.offset + 5) =~= Seq::<u8>::empty());
            if ante {
                assert(elems =~= cw_elems.take(0));
            }
        }
        while j < size
            invariant
                j <= size,
                reader.data@ == pre.data@,
                reader.endian == pre.endian,
                reader.is_64bit == pre.is_64bit,
                pre.offset + 5 <= reader.offset <= pre.data@.len(),
                list@.len() == j,
                elems.len() == j,
                forall|q: int| 0 <= q < j ==> payload_rel(list@[q], #[trigger] elems[q]),
                forall|q: int| 0 <= q < j ==> kind_of(#[trigger] elems[q]) == sub_type,
                forall|q: int| 0 <= q < j ==> wf_payload(#[trigger] elems[q], en),
                pre.data@.subrange(pre.offset + 5, reader.offset as int) == encode_elems(
                    elems,
                    en,
                ),
                ante ==> elems == cw_elems.take(j as int),
            decreases size - j,
        {
            let ghost prev = *reader;
            proof {
                if ante {
                    let s_j = cw_elems[j as int];
                    lemma_encode_payload_len(cw, en);
                    lemma_bytes_of_len(cw_elems.len(), 4, en);
                    lemma_encode_elems_split(cw_elems, j as int, en);
                    assert(cw_elems.skip(j as int)[0] == s_j);
                    assert(cw_elems.skip(j as int).drop_first() =~= cw_elems.skip(j as int + 1));
                    assert(encode_elems(cw_elems.skip(j as int), en) == encode_payload(s_j, en)
                        + encode_elems(cw_elems.skip(j as int + 1), en));
                    let a = seq![cw_k] + bytes_of(cw_elems.len(), 4, en) + encode_elems(
                        cw_elems.take(j as int),
                        en,
                    );
                    let b = encode_payload(s_j, en) + encode_elems(
                        cw_elems.skip(j as int + 1),
                        en,
                    );
                    assert(encode_payload(cw, en) =~= a + b);
                    assert(prev.offset == pre.offset + a.len());
                    lemma_prefix_advance(pre, prev, a, b);
                    lemma_prefix_take(
                        prev,
                        encode_payload(s_j, en),
                        encode_elems(cw_elems.skip(j as int + 1), en),
                    );
                    assert(wf_payload(s_j, en));
                    assert(kind_of(s_j) == sub_type);
                    assert(payload_prefix_exists(&prev, sub_type));
                }
            }
            let elem = match TagPayload::parse_payload(reader, sub_type) {
                Ok(v) => v,
                Err(e) => {
                    proof {
                        if ante {
                            assert(false);
                        }
                    }
                    return Err(e);
                },
            };
            proof {
                let m = choose|m: PayloadModel|
                    #[trigger] payload_rel(elem, m) && kind_of(m) == sub_type && wf_payload(
                        m,
                        en,
                    ) && prev.data@.subrange(prev.offset as int, reader.offset as int)
                        == encode_payload(m, en);
                lemma_encode_elems_push(elems, m, en);
                assert(pre.data@.subrange(pre.offset + 5, reader.offset as int)
                    =~= pre.data@.subrange(pre.offset + 5, prev.offset as int)
                    + prev.data@.subrange(prev.offset as int, reader.offset as int));
                if ante {
                    let s_j = cw_elems[j as int];
                    lemma_encode_payload_len(m, en);
                    let c_off = prev.offset as int;
                    let dlen = prev.data@.len() as int;
                    let r1 = prev.data@.subrange(c_off + encode_payload(m, en).len(), dlen);
                    let r2 = prev.data@.subrange(c_off + encode_payload(s_j, en).len(), dlen);
                    assert(encode_payload(m, en) + r1 =~= prev.data@.subrange(c_off, dlen));
                    assert(encode_payload(s_j, en) + r2 =~= prev.data@.subrange(c_off, dlen));
                    lemma_encode_payload_unambiguous(m, s_j, en, r1, r2);
                    assert(elems.push(m) =~= cw_elems.take(j as int + 1));
                }
                elems = elems.push(m);
                assert(elems[j as int] == m);
                assert(list@.push(elem)[j as int] == elem);
            }
            list.push(elem);
            j = j + 1;
        }
        proof {
            let m = PayloadModel::List(sub_type, elems);
            lemma_bytes_of_value_of(pre.data@.subrange(pre.offset + 1, pre.offset + 5), en);
            assert(pre.data@.subrange(pre.offset as int, pre.offset + 1) =~= seq![sub_type]);
            assert(pre.data@.subrange(pre.offset as int, reader.offset as int) =~= seq![sub_type]
                + pre.data@.subrange(pre.offset + 1, pre.offset + 5) + pre.data@.subrange(
                pre.offset + 5,
                reader.offset as int,
            ));
            assert(payload_rel(TagPayload::List(list), m));
            assert(wf_payload(m, en));
            assert(pre.data@.subrange(pre.offset as int, reader.offset as int) == encode_payload(
                m,
                en,
            ));
        }
        Ok(TagPayload::List(list))
    }

    /// Decodes a compound payload: child tags until the zero sentinel byte,
    /// which is peeked before each child and consumed at the end.
    #[verifier::loop_isolation(false)]
    #[verifier::rlimit(100)]
    fn parse_compound_payload(reader: &mut BinaryReader) -> (r: Result<TagPayload, DecodeError>)
        ensures
            final(reader).same_buffer_and_modes(old(reader)),
            r matches Ok(_) ==> old(reader).offset <= final(reader).offset,
            (r matches Ok(_) && old(reader).offset <= old(reader).data@.len())
                ==> final(reader).offset <= old(reader).data@.len(),
            old(reader).offset <= old(reader).data@.len() ==> (r matches Ok(p) ==> exists|
                m: PayloadModel,
            |
                #[trigger] payload_rel(p, m) && kind_of(m) == 10 && wf_payload(
                    m,
                    old(reader).endian,
                ) && old(reader).data@.subrange(
                    old(reader).offset as int,
                    final(reader).offset as int,
                ) == encode_payload(m, old(reader).endian)),
            payload_prefix_exists(old(reader), 10) ==> r is Ok,
        decreases remaining(reader), 1int,
    {
        let ghost pre = *reader;
        let ghost en = pre.endian;
        let ghost ante = payload_prefix_exists(&pre, 10);
        let ghost cw: PayloadModel = if ante {
            choose|m: PayloadModel|
                #[trigger] wf_payload(m, en) && kind_of(m) == 10 && prefix_is(
                    &pre,
                    encode_payload(m, en),
                )
        } else {
            PayloadModel::End
        };
        let ghost cw_tags: Seq<TagModel> = match cw {
            PayloadModel::Compound(ts) => ts,
            _ => Seq::empty(),
        };
        proof {
            if ante {
                lemma_payload_prefix_facts(pre, 10, cw);
                lemma_encode_payload_len(cw, en);
            }
        }
        let mut children: Vec<Tag> = Vec::new();
        let ghost mut tms: Seq<TagModel> = Seq::empty();
        proof {
            if pre.offset <= pre.data@.len() {
                assert(pre.data@.subrange(pre.offset as int, pre.offset as int) =~= Seq::<
                    u8,
                >::empty());
            }
            if ante {
                assert(tms =~= cw_tags.take(0));
            }
        }
        let mut b = match reader.peek_u8() {
            Ok(v) => v,
            Err(e) => {
                proof {
                    if ante {
                        assert(false);
                    }
                }
                return Err(DecodeError::from_read(DecodeStage::TagDecode, e));
            },
        };
        while b != 0
            invariant
                reader.data@ == pre.data@,
                reader.endian == pre.endian,
                reader.is_64bit == pre.is_64bit,
                pre.offset <= reader.offset < pre.data@.len(),
                b == reader.data@[reader.offset as int],
                children@.len() == tms.len(),
                forall|q: int| 0 <= q < tms.len() ==> tag_rel(children@[q], #[trigger] tms[q]),
                forall|q: int| 0 <= q < tms.len() ==> wf_tag(#[trigger] tms[q], en),
                forall|q: int| 0 <= q < tms.len() ==> nonzero_lead(#[trigger] tms[q], en),
                pre.data@.subrange(pre.offset as int, reader.offset as int) == encode_tags(
                    tms,
                    en,
                ),
                ante ==> tms == cw_tags.take(tms.len() as int),
                ante ==> tms.len() <= cw_tags.len(),
            decreases pre.data@.len() - reader.offset,
        {
            let ghost prev = *reader;
            let ghost i = tms.len() as int;
            proof {
                if ante {
                    lemma_compound_step(pre, prev, cw, cw_tags, i);
                    if i == cw_tags.len() {
                        // the next byte is the sentinel, yet the loop saw a
                        // nonzero byte
                        assert(false);
                    }
                    assert(tag_prefix_exists(&prev));
                }
            }
            let t = match Tag::parse(reader) {
                Ok(v) => v,
                Err(e) => {
                    proof {
                        if ante {
                            assert(false);
                        }
                    }
                    return Err(e);
                },
            };
            proof {
                let m = choose|m: TagModel|
                    #[trigger] tag_rel(t, m) && wf_tag(m, en) && prev.data@.subrange(
                        prev.offset as int,
                        reader.offset as int,
                    ) == encode_tag(m, en);
                lemma_encode_tags_push(tms, m, en);
                assert(encode_tag(m, en)[0] == prev.data@[prev.offset as int]);
                assert(nonzero_lead(m, en));
                assert(pre.data@.subrange(pre.offset as int, reader.offset as int)
                    =~= pre.data@.subrange(pre.offset as int, prev.offset as int)
                    + prev.data@.subrange(prev.offset as int, reader.offset as int));
                if ante {
                    let s_i = cw_tags[i];
                    let c_off = prev.offset as int;
                    let dlen = prev.data@.len() as int;
                    let r1 = prev.data@.subrange(c_off + encode_tag(m, en).len(), dlen);
                    let r2 = prev.data@.subrange(c_off + encode_tag(s_i, en).len(), dlen);
                    assert(encode_tag(m, en) + r1 =~= prev.data@.subrange(c_off, dlen));
                    assert(encode_tag(s_i, en) + r2 =~= prev.data@.subrange(c_off, dlen));
                    lemma_encode_tag_unambiguous(m, s_i, en, r1, r2);
                    assert(tms.push(m) =~= cw_tags.take(i + 1));
                }
                tms = tms.push(m);
                assert(tms[tms.len() - 1] == m);
                assert(children@.push(t)[children@.len() as int] == t);
            }
            children.push(t);
            b = match reader.peek_u8() {
                Ok(v) => v,
                Err(e) => {
                    proof {
                        if ante {
                            lemma_compound_step(pre, *reader, cw, cw_tags, tms.len() as int);
                            assert(false);
                        }
                    }
                    return Err(DecodeError::from_read(DecodeStage::TagDecode, e));
                },
            };
        }
        proof {
            if ante {
                lemma_compound_step(pre, *reader, cw, cw_tags, tms.len() as int);
                if (tms.len() as int) < cw_tags.len() {
                    // a child's lead byte is never the sentinel
                    assert(false);
                }
            }
        }
        let ghost before_sentinel = *reader;
        match reader.read_u8() {
            Ok(_) => (),
            Err(e) => {
                return Err(DecodeError::from_read(DecodeStage::TagDecode, e));
            },
        };
        proof {
            let m = PayloadModel::Compound(tms);
            assert(pre.data@.subrange(before_sentinel.offset as int, reader.offset as int)
                =~= seq![0u8]);
            assert(pre.data@.subrange(pre.offset as int, reader.offset as int)
                =~= pre.data@.subrange(pre.offset as int, before_sentinel.offset as int) + seq![
                0u8,
            ]);
            assert(payload_rel(TagPayload::Compound(children), m));
            assert(wf_payload(m, en));
            assert(pre.data@.subrange(pre.offset as int, reader.offset as int) == encode_payload(
                m,
                en,
            ));
        }
        Ok(TagPayload::Compound(children))
    }
}

impl Tag {
    /// Decodes one tag at the cursor: a 16-bit length-prefixed name, a kind
    /// byte, then the payload for that kind. Whatever bytes a successful
    /// decode consumed are exactly the serialization of a well-formed model
    /// tag related to the returned value.
    pub fn parse(reader: &mut BinaryReader) -> (r: Result<Tag, DecodeError>)
        ensures
            final(reader).same_buffer_and_modes(old(reader)),
            r matches Ok(_) ==> old(reader).offset + 3 <= final(reader).offset <= old(
                reader,
            ).data@.len(),
            r matches Ok(t) ==> (exists|m: TagModel|
                #[trigger] tag_rel(t, m) && wf_tag(m, old(reader).endian) && old(
                    reader,
                ).data@.subrange(old(reader).offset as int, final(reader).offset as int)
                    == encode_tag(m, old(reader).endian)),
            tag_prefix_exists(old(reader)) ==> r is Ok,
        decreases remaining(reader), 0int,
    {
        let ghost pre = *reader;
        let ghost en = pre.endian;
        let ghost ante = tag_prefix_exists(&pre);
        let ghost cw: TagModel = if ante {
            choose|m: TagModel| #[trigger] wf_tag(m, en) && prefix_is(&pre, encode_tag(m, en))
        } else {
            TagModel { name: Seq::empty(), value: PayloadModel::End }
        };
        proof {
            if ante {
                lemma_tag_prefix_facts(pre, cw);
            }
        }
        let name = match reader.read_u16_string() {
            Ok(s) => s,
            Err(e) => {
                proof {
                    if ante {
                        assert(false);
                    }
                }
                return Err(DecodeError::from_read(DecodeStage::TagDecode, e));
            },
        };
        let ghost l = value_of(pre.window(2), en) as int;
        let ghost name_bytes = pre.data@.subrange(pre.offset + 2, pre.offset + 2 + l);
        let tag_type = match u8_field(reader, DecodeStage::TagDecode) {
            Ok(v) => v,
            Err(e) => {
                proof {
                    if ante {
                        assert(false);
                    }
                }
                return Err(e);
            },
        };
        proof {
            lemma_value_of_bound(pre.window(2), en);
        }
        let ghost mid2 = *reader;
        proof {
            if ante {
                let a = bytes_of(cw.name.len(), 2, en) + cw.name + seq![kind_of(cw.value)];
                let bpart = encode_payload(cw.value, en);
                lemma_bytes_of_len(cw.name.len(), 2, en);
                assert(encode_tag(cw, en) =~= a + bpart);
                assert(l == cw.name.len());
                assert(tag_type == kind_of(cw.value));
                assert(mid2.offset == pre.offset + a.len());
                lemma_prefix_advance(pre, mid2, a, bpart);
                assert(wf_payload(cw.value, en));
                assert(payload_prefix_exists(&mid2, tag_type));
            }
        }
        let value = match TagPayload::parse_payload(reader, tag_type) {
            Ok(v) => v,
            Err(e) => {
                proof {
                    if ante {
                        assert(false);
                    }
                }
                return Err(e);
            },
        };
        proof {
            let pm = choose|m: PayloadModel|
                #[trigger] payload_rel(value, m) && kind_of(m) == tag_type && wf_payload(m, en)
                    && mid2.data@.subrange(mid2.offset as int, reader.offset as int)
                    == encode_payload(m, en);
            let tm = TagModel { name: name_bytes, value: pm };
            lemma_bytes_of_value_of(pre.window(2), en);
            vstd::arithmetic::power2::lemma2_to64();
            assert(tag_rel(Tag { name: name, value: value }, tm));
            assert(wf_tag(tm, en));
            assert(pre.data@.subrange(mid2.offset - 1, mid2.offset as int) =~= seq![tag_type]);
            assert(pre.data@.subrange(pre.offset as int, reader.offset as int) =~= pre.window(2)
                + name_bytes + seq![tag_type] + mid2.data@.subrange(
                mid2.offset as int,
                reader.offset as int,
            ));
            assert(pre.data@.subrange(pre.offset as int, reader.offset as int) == encode_tag(
                tm,
                en,
            ));
        }
        Ok(Tag { name, value })
    }
}

/// Two equal-length prefixes followed by anything: the prefixes and the
/// remainders coincide separately.
proof fn lemma_concat_cancel(a1: Seq<u8>, r1: Seq<u8>, a2: Seq<u8>, r2: Seq<u8>)
    requires
        a1.len() == a2.len(),
        a1 + r1 == a2 + r2,
    ensures
        a1 == a2,
        r1 == r2,
{
    assert forall|i: int| 0 <= i < a1.len() implies a1[i] == a2[i] by {
        assert((a1 + r1)[i] == a1[i]);
        assert((a2 + r2)[i] == a2[i]);
    }
    assert(a1 =~= a2);
    assert((a1 + r1).len() == a1.len() + r1.len());
    assert((a2 + r2).len() == a2.len() + r2.len());
    assert(r1.len() == r2.len());
    assert forall|i: int| 0 <= i < r1.len() implies r1[i] == r2[i] by {
        assert((a1 + r1)[a1.len() + i] == r1[i]);
        assert((a2 + r2)[a2.len() + i] == r2[i]);
    }
    assert(r1 =~= r2);
}

/// A length- or value-prefix of `n` bytes determines the value it encodes:
/// if two such prefixes head the same stream, the values and the tails
/// coincide.
proof fn lemma_prefix_value_cancel(v1: nat, v2: nat, n: nat, en: Endian, t1: Seq<u8>, t2: Seq<u8>)
    requires
        v1 < vstd::arithmetic::power2::pow2(8 * n),
        v2 < vstd::arithmetic::power2::pow2(8 * n),
        bytes_of(v1, n, en) + t1 == bytes_of(v2, n, en) + t2,
    ensures
        v1 == v2,
        t1 == t2,
{
    lemma_bytes_of_len(v1, n, en);
    lemma_bytes_of_len(v2, n, en);
    lemma_concat_cancel(bytes_of(v1, n, en), t1, bytes_of(v2, n, en), t2);
    lemma_value_of_bytes_of(v1, n, en);
    lemma_value_of_bytes_of(v2, n, en);
}

/// Serialization of a well-formed payload is unambiguous: two payloads of
/// the same kind whose serializations head the same byte stream are the
/// same payload, and what follows them is the same. With the decoder's
/// contract — a successful decode consumes exactly the serialization of a
/// related well-formed model — this is the round trip: decoding the
/// serialization of a well-formed tree reproduces that tree, child for
/// child and name for name.
pub proof fn lemma_encode_payload_unambiguous(
    m1: PayloadModel,
    m2: PayloadModel,
    en: Endian,
    r1: Seq<u8>,
    r2: Seq<u8>,
)
    requires
        kind_of(m1) == kind_of(m2),
        wf_payload(m1, en),
        wf_payload(m2, en),
        encode_payload(m1, en) + r1 == encode_payload(m2, en) + r2,
    ensures
        m1 == m2,
        r1 == r2,
    decreases m1, 3int,
{
    vstd::arithmetic::power2::lemma2_to64();
    match (m1, m2) {
        (PayloadModel::End, PayloadModel::End) => {
            assert(Seq::<u8>::empty() + r1 =~= r1);
            assert(Seq::<u8>::empty() + r2 =~= r2);
        },
        (PayloadModel::Byte(v1), PayloadModel::Byte(v2)) => {
            lemma_concat_cancel(seq![v1 as u8], r1, seq![v2 as u8], r2);
            assert(seq![v1 as u8][0] == v1 as u8);
            assert(seq![v2 as u8][0] == v2 as u8);
            assert(v1 as u8 == v2 as u8 ==> v1 == v2) by (bit_vector);
        },
        (PayloadModel::Short(v1), PayloadModel::Short(v2)) => {
            lemma_prefix_value_cancel((v1 as u16) as nat, (v2 as u16) as nat, 2, en, r1, r2);
            assert(v1 as u16 == v2 as u16 ==> v1 == v2) by (bit_vector);
        },
        (PayloadModel::Int(v1), PayloadModel::Int(v2)) => {
            lemma_prefix_value_cancel((v1 as u32) as nat, (v2 as u32) as nat, 4, en, r1, r2);
            assert(v1 as u32 == v2 as u32 ==> v1 == v2) by (bit_vector);
        },
        (PayloadModel::Long(v1), PayloadModel::Long(v2)) => {
            lemma_prefix_value_cancel((v1 as u64) as nat, (v2 as u64) as nat, 8, en, r1, r2);
            assert(v1 as u64 == v2 as u64 ==> v1 == v2) by (bit_vector);
        },
        (PayloadModel::Float(v1), PayloadModel::Float(v2)) => {
            lemma_prefix_value_cancel(v1 as nat, v2 as nat, 4, en, r1, r2);
        },
        (PayloadModel::Double(v1), PayloadModel::Double(v2)) => {
            lemma_prefix_value_cancel(v1 as nat, v2 as nat, 8, en, r1, r2);
        },
        (PayloadModel::ByteArray(b1), PayloadModel::ByteArray(b2)) => {
            assert((bytes_of(b1.len(), 4, en) + b1) + r1 =~= bytes_of(b1.len(), 4, en) + (b1 + r1));
            assert((bytes_of(b2.len(), 4, en) + b2) + r2 =~= bytes_of(b2.len(), 4, en) + (b2 + r2));
            lemma_prefix_value_cancel(b1.len(), b2.len(), 4, en, b1 + r1, b2 + r2);
            lemma_concat_cancel(b1, r1, b2, r2);
        },
        (PayloadModel::Str(b1), PayloadModel::Str(b2)) => {
            assert((bytes_of(b1.len(), 2, en) + b1) + r1 =~= bytes_of(b1.len(), 2, en) + (b1 + r1));
            assert((bytes_of(b2.len(), 2, en) + b2) + r2 =~= bytes_of(b2.len(), 2, en) + (b2 + r2));
            lemma_prefix_value_cancel(b1.len(), b2.len(), 2, en, b1 + r1, b2 + r2);
            lemma_concat_cancel(b1, r1, b2, r2);
        },
        (PayloadModel::List(k1, e1), PayloadModel::List(k2, e2)) => {
            let c1 = bytes_of(e1.len(), 4, en);
            let c2 = bytes_of(e2.len(), 4, en);
            assert((seq![k1] + c1 + encode_elems(e1, en)) + r1 =~= seq![k1] + (c1 + (encode_elems(
                e1,
                en,
            ) + r1)));
            assert((seq![k2] + c2 + encode_elems(e2, en)) + r2 =~= seq![k2] + (c2 + (encode_elems(
                e2,
                en,
            ) + r2)));
            lemma_concat_cancel(
                seq![k1],
                c1 + (encode_elems(e1, en) + r1),
                seq![k2],
                c2 + (encode_elems(e2, en) + r2),
            );
            assert(seq![k1][0] == k1 && seq![k2][0] == k2);
            lemma_prefix_value_cancel(
                e1.len(),
                e2.len(),
                4,
                en,
                encode_elems(e1, en) + r1,
                encode_elems(e2, en) + r2,
            );
            lemma_encode_elems_unambiguous(e1, e2, en, r1, r2);
        },
        (PayloadModel::Compound(t1s), PayloadModel::Compound(t2s)) => {
            assert((encode_tags(t1s, en) + seq![0u8]) + r1 =~= encode_tags(t1s, en) + (seq![0u8]
                + r1));
            assert((encode_tags(t2s, en) + seq![0u8]) + r2 =~= encode_tags(t2s, en) + (seq![0u8]
                + r2));
            lemma_encode_tags_unambiguous(t1s, t2s, en, seq![0u8] + r1, seq![0u8] + r2);
            lemma_concat_cancel(seq![0u8], r1, seq![0u8], r2);
        },
        (PayloadModel::IntArray(v1), PayloadModel::IntArray(v2)) => {
            assert((bytes_of(v1.len(), 4, en) + encode_ints(v1, en)) + r1 =~= bytes_of(
                v1.len(),
                4,
                en,
            ) + (encode_ints(v1, en) + r1));
            assert((bytes_of(v2.len(), 4, en) + encode_ints(v2, en)) + r2 =~= bytes_of(
                v2.len(),
                4,
                en,
            ) + (encode_ints(v2, en) + r2));
            lemma_prefix_value_cancel(
                v1.len(),
                v2.len(),
                4,
                en,
                encode_ints(v1, en) + r1,
                encode_ints(v2, en) + r2,
            );
            lemma_encode_ints_unambiguous(v1, v2, en, r1, r2);
        },
        _ => {},
    }
}

/// Unambiguity of a run of list elements of matching kinds.
proof fn lemma_encode_elems_unambiguous(
    e1: Seq<PayloadModel>,
    e2: Seq<PayloadModel>,
    en: Endian,
    r1: Seq<u8>,
    r2: Seq<u8>,
)
    requires
        e1.len() == e2.len(),
        forall|i: int| 0 <= i < e1.len() ==> kind_of(#[trigger] e1[i]) == kind_of(e2[i]),
        forall|i: int| 0 <= i < e1.len() ==> wf_payload(#[trigger] e1[i], en),
        forall|i: int| 0 <= i < e2.len() ==> wf_payload(#[trigger] e2[i], en),
        encode_elems(e1, en) + r1 == encode_elems(e2, en) + r2,
    ensures
        e1 == e2,
        r1 == r2,
    decreases e1, 2int,
{
    if e1.len() == 0 {
        assert(Seq::<u8>::empty() + r1 =~= r1);
        assert(Seq::<u8>::empty() + r2 =~= r2);
        assert(e1 =~= e2);
    } else {
        assert((encode_payload(e1[0], en) + encode_elems(e1.drop_first(), en)) + r1
            =~= encode_payload(e1[0], en) + (encode_elems(e1.drop_first(), en) + r1));
        assert((encode_payload(e2[0], en) + encode_elems(e2.drop_first(), en)) + r2
            =~= encode_payload(e2[0], en) + (encode_elems(e2.drop_first(), en) + r2));
        lemma_encode_payload_unambiguous(
            e1[0],
            e2[0],
            en,
            encode_elems(e1.drop_first(), en) + r1,
            encode_elems(e2.drop_first(), en) + r2,
        );
        assert(forall|i: int|
            0 <= i < e1.drop_first().len() ==> kind_of(#[trigger] e1.drop_first()[i]) == kind_of(
                e2.drop_first()[i],
            ));
        assert(forall|i: int|
            0 <= i < e1.drop_first().len() ==> wf_payload(#[trigger] e1.drop_first()[i], en));
        assert(forall|i: int|
            0 <= i < e2.drop_first().len() ==> wf_payload(#[trigger] e2.drop_first()[i], en));
        lemma_encode_elems_unambiguous(e1.drop_first(), e2.drop_first(), en, r1, r2);
        assert forall|i: int| 0 <= i < e1.len() implies e1[i] == e2[i] by {
            if i > 0 {
                assert(e1.drop_first()[i - 1] == e1[i]);
                assert(e2.drop_first()[i - 1] == e2[i]);
            }
        }
        assert(e1 =~= e2);
    }
}

/// Unambiguity of a run of 32-bit integers.
proof fn lemma_encode_ints_unambiguous(
    v1: Seq<i32>,
    v2: Seq<i32>,
    en: Endian,
    r1: Seq<u8>,
    r2: Seq<u8>,
)
    requires
        v1.len() == v2.len(),
        encode_ints(v1, en) + r1 == encode_ints(v2, en) + r2,
    ensures
        v1 == v2,
        r1 == r2,
    decreases v1.len(),
{
    vstd::arithmetic::power2::lemma2_to64();
    if v1.len() == 0 {
        assert(Seq::<u8>::empty() + r1 =~= r1);
        assert(Seq::<u8>::empty() + r2 =~= r2);
        assert(v1 =~= v2);
    } else {
        let h1 = bytes_of((v1[0] as u32) as nat, 4, en);
        let h2 = bytes_of((v2[0] as u32) as nat, 4, en);
        assert((h1 + encode_ints(v1.drop_first(), en)) + r1 =~= h1 + (encode_ints(
            v1.drop_first(),
            en,
        ) + r1));
        assert((h2 + encode_ints(v2.drop_first(), en)) + r2 =~= h2 + (encode_ints(
            v2.drop_first(),
            en,
        ) + r2));
        lemma_prefix_value_cancel(
            (v1[0] as u32) as nat,
            (v2[0] as u32) as nat,
            4,
            en,
            encode_ints(v1.drop_first(), en) + r1,
            encode_ints(v2.drop_first(), en) + r2,
        );
        let a = v1[0];
        let b = v2[0];
        assert(a as u32 == b as u32 ==> a == b) by (bit_vector);
        lemma_encode_ints_unambiguous(v1.drop_first(), v2.drop_first(), en, r1, r2);
        assert forall|i: int| 0 <= i < v1.len() implies v1[i] == v2[i] by {
            if i > 0 {
                assert(v1.drop_first()[i - 1] == v1[i]);
                assert(v2.drop_first()[i - 1] == v2[i]);
            }
        }
        assert(v1 =~= v2);
    }
}

/// Serialization of one well-formed tag is unambiguous.
pub proof fn lemma_encode_tag_unambiguous(
    t1: TagModel,
    t2: TagModel,
    en: Endian,
    r1: Seq<u8>,
    r2: Seq<u8>,
)
    requires
        wf_tag(t1, en),
        wf_tag(t2, en),
        encode_tag(t1, en) + r1 == encode_tag(t2, en) + r2,
    ensures
        t1 == t2,
        r1 == r2,
    decreases t1, 0int,
{
    vstd::arithmetic::power2::lemma2_to64();
    let k1 = seq![kind_of(t1.value)];
    let k2 = seq![kind_of(t2.value)];
    assert((bytes_of(t1.name.len(), 2, en) + t1.name + k1 + encode_payload(t1.value, en)) + r1
        =~= bytes_of(t1.name.len(), 2, en) + (t1.name + (k1 + (encode_payload(t1.value, en)
        + r1))));
    assert((bytes_of(t2.name.len(), 2, en) + t2.name + k2 + encode_payload(t2.value, en)) + r2
        =~= bytes_of(t2.name.len(), 2, en) + (t2.name + (k2 + (encode_payload(t2.value, en)
        + r2))));
    lemma_prefix_value_cancel(
        t1.name.len(),
        t2.name.len(),
        2,
        en,
        t1.name + (k1 + (encode_payload(t1.value, en) + r1)),
        t2.name + (k2 + (encode_payload(t2.value, en) + r2)),
    );
    lemma_concat_cancel(
        t1.name,
        k1 + (encode_payload(t1.value, en) + r1),
        t2.name,
        k2 + (encode_payload(t2.value, en) + r2),
    );
    lemma_concat_cancel(
        k1,
        encode_payload(t1.value, en) + r1,
        k2,
        encode_payload(t2.value, en) + r2,
    );
    assert(k1[0] == kind_of(t1.value) && k2[0] == kind_of(t2.value));
    lemma_encode_payload_unambiguous(t1.value, t2.value, en, r1, r2);
}

/// Unambiguity of a run of compound children: the sentinel cannot be
/// mistaken for a child (a well-formed child never begins with it), so two
/// runs that serialize the same stream are the same run.
proof fn lemma_encode_tags_unambiguous(
    t1s: Seq<TagModel>,
    t2s: Seq<TagModel>,
    en: Endian,
    r1: Seq<u8>,
    r2: Seq<u8>,
)
    requires
        forall|i: int| 0 <= i < t1s.len() ==> wf_tag(#[trigger] t1s[i], en),
        forall|i: int| 0 <= i < t2s.len() ==> wf_tag(#[trigger] t2s[i], en),
        forall|i: int| 0 <= i < t1s.len() ==> nonzero_lead(#[trigger] t1s[i], en),
        forall|i: int| 0 <= i < t2s.len() ==> nonzero_lead(#[trigger] t2s[i], en),
        r1.len() > 0 && r1[0] == 0,
        r2.len() > 0 && r2[0] == 0,
        encode_tags(t1s, en) + r1 == encode_tags(t2s, en) + r2,
    ensures
        t1s == t2s,
        r1 == r2,
    decreases t1s, 1int,
{
    if t1s.len() == 0 && t2s.len() == 0 {
        assert(Seq::<u8>::empty() + r1 =~= r1);
        assert(Seq::<u8>::empty() + r2 =~= r2);
        assert(t1s =~= t2s);
    } else if t1s.len() == 0 {
        assert(nonzero_lead(t2s[0], en));
        assert((Seq::<u8>::empty() + r1)[0] == r1[0]);
        assert(((encode_tag(t2s[0], en) + encode_tags(t2s.drop_first(), en)) + r2)[0] == encode_tag(
            t2s[0],
            en,
        )[0]);
        assert(false);
    } else if t2s.len() == 0 {
        assert(nonzero_lead(t1s[0], en));
        assert((Seq::<u8>::empty() + r2)[0] == r2[0]);
        assert(((encode_tag(t1s[0], en) + encode_tags(t1s.drop_first(), en)) + r1)[0] == encode_tag(
            t1s[0],
            en,
        )[0]);
        assert(false);
    } else {
        assert((encode_tag(t1s[0], en) + encode_tags(t1s.drop_first(), en)) + r1 =~= encode_tag(
            t1s[0],
            en,
        ) + (encode_tags(t1s.drop_first(), en) + r1));
        assert((encode_tag(t2s[0], en) + encode_tags(t2s.drop_first(), en)) + r2 =~= encode_tag(
            t2s[0],
            en,
        ) + (encode_tags(t2s.drop_first(), en) + r2));
        lemma_encode_tag_unambiguous(
            t1s[0],
            t2s[0],
            en,
            encode_tags(t1s.drop_first(), en) + r1,
            encode_tags(t2s.drop_first(), en) + r2,
        );
        assert(forall|i: int|
            0 <= i < t1s.drop_first().len() ==> wf_tag(#[trigger] t1s.drop_first()[i], en));
        assert(forall|i: int|
            0 <= i < t2s.drop_first().len() ==> wf_tag(#[trigger] t2s.drop_first()[i], en));
        assert(forall|i: int|
            0 <= i < t1s.drop_first().len() ==> nonzero_lead(#[trigger] t1s.drop_first()[i], en));
        assert(forall|i: int|
            0 <= i < t2s.drop_first().len() ==> nonzero_lead(#[trigger] t2s.drop_first()[i], en));
        lemma_encode_tags_unambiguous(t1s.drop_first(), t2s.drop_first(), en, r1, r2);
        assert forall|i: int| 0 <= i < t1s.len() implies t1s[i] == t2s[i] by {
            if i > 0 {
                assert(t1s.drop_first()[i - 1] == t1s[i]);
                assert(t2s.drop_first()[i - 1] == t2s[i]);
            }
        }
        assert(t1s =~= t2s);
    }
}

/// The bytes at the cursor begin with `s`.
pub open spec fn prefix_is(r: &BinaryReader, s: Seq<u8>) -> bool {
    &&& r.offset + s.len() <= r.data@.len()
    &&& r.data@.subrange(r.offset as int, r.offset + s.len()) == s
}

/// A run of 32-bit integers serializes to four bytes each.
proof fn lemma_encode_ints_len(vs: Seq<i32>, en: Endian)
    ensures
        encode_ints(vs, en).len() == 4 * vs.len(),
    decreases vs.len(),
{
    if vs.len() > 0 {
        lemma_bytes_of_len((vs[0] as u32) as nat, 4, en);
        lemma_encode_ints_len(vs.drop_first(), en);
    }
}

/// The serialized length of each payload shape.
proof fn lemma_encode_payload_len(m: PayloadModel, en: Endian)
    ensures
        encode_payload(m, en).len() == match m {
            PayloadModel::End => 0int,
            PayloadModel::Byte(_) => 1int,
            PayloadModel::Short(_) => 2int,
            PayloadModel::Int(_) => 4int,
            PayloadModel::Long(_) => 8int,
            PayloadModel::Float(_) => 4int,
            PayloadModel::Double(_) => 8int,
            PayloadModel::ByteArray(bs) => 4 + bs.len() as int,
            PayloadModel::Str(bs) => 2 + bs.len() as int,
            PayloadModel::List(_, elems) => 5 + encode_elems(elems, en).len() as int,
            PayloadModel::Compound(tags) => encode_tags(tags, en).len() as int + 1,
            PayloadModel::IntArray(vs) => 4 + 4 * vs.len() as int,
        },
{
    match m {
        PayloadModel::Short(v) => {
            lemma_bytes_of_len((v as u16) as nat, 2, en);
        },
        PayloadModel::Int(v) => {
            lemma_bytes_of_len((v as u32) as nat, 4, en);
        },
        PayloadModel::Long(v) => {
            lemma_bytes_of_len((v as u64) as nat, 8, en);
        },
        PayloadModel::Float(bits) => {
            lemma_bytes_of_len(bits as nat, 4, en);
        },
        PayloadModel::Double(bits) => {
            lemma_bytes_of_len(bits as nat, 8, en);
        },
        PayloadModel::ByteArray(bs) => {
            lemma_bytes_of_len(bs.len(), 4, en);
        },
        PayloadModel::Str(bs) => {
            lemma_bytes_of_len(bs.len(), 2, en);
        },
        PayloadModel::List(_, elems) => {
            lemma_bytes_of_len(elems.len(), 4, en);
        },
        PayloadModel::IntArray(vs) => {
            lemma_bytes_of_len(vs.len(), 4, en);
            lemma_encode_ints_len(vs, en);
        },
        _ => {},
    }
}

/// A run of elements serializes as its first `j` elements followed by the
/// rest.
proof fn lemma_encode_elems_split(s: Seq<PayloadModel>, j: int, en: Endian)
    requires
        0 <= j <= s.len(),
    ensures
        encode_elems(s, en) == encode_elems(s.take(j), en) + encode_elems(s.skip(j), en),
    decreases j,
{
    if j == 0 {
        assert(s.take(0) =~= Seq::<PayloadModel>::empty());
        assert(s.skip(0) =~= s);
        assert(encode_elems(Seq::<PayloadModel>::empty(), en) == Seq::<u8>::empty());
        assert(encode_elems(s, en) =~= encode_elems(s.take(0), en) + encode_elems(s.skip(0), en));
    } else {
        assert(s.take(j)[0] == s[0]);
        assert(s.take(j).drop_first() =~= s.drop_first().take(j - 1));
        assert(s.skip(j) =~= s.drop_first().skip(j - 1));
        lemma_encode_elems_split(s.drop_first(), j - 1, en);
        assert(encode_elems(s, en) =~= encode_elems(s.take(j), en) + encode_elems(s.skip(j), en));
    }
}

/// A run of compound children serializes as its first `j` children
/// followed by the rest.
proof fn lemma_encode_tags_split(s: Seq<TagModel>, j: int, en: Endian)
    requires
        0 <= j <= s.len(),
    ensures
        encode_tags(s, en) == encode_tags(s.take(j), en) + encode_tags(s.skip(j), en),
    decreases j,
{
    if j == 0 {
        assert(s.take(0) =~= Seq::<TagModel>::empty());
        assert(s.skip(0) =~= s);
        assert(encode_tags(Seq::<TagModel>::empty(), en) == Seq::<u8>::empty());
        assert(encode_tags(s, en) =~= encode_tags(s.take(0), en) + encode_tags(s.skip(0), en));
    } else {
        assert(s.take(j)[0] == s[0]);
        assert(s.take(j).drop_first() =~= s.drop_first().take(j - 1));
        assert(s.skip(j) =~= s.drop_first().skip(j - 1));
        lemma_encode_tags_split(s.drop_first(), j - 1, en);
        assert(encode_tags(s, en) =~= encode_tags(s.take(j), en) + encode_tags(s.skip(j), en));
    }
}

} // verus!
