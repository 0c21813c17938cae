//! The output byte format: a nine-word little-endian header of cumulative
//! section offsets, followed by the three string-table character buffers,
//! the three offset-pair tables, the attribute-edge list and the
//! element-edge list, every word serialized as four little-endian bytes.

use crate::encoder::EncoderModel;
use vstd::bytes::lemma_auto_spec_u32_to_from_le_bytes;
use vstd::bytes::spec_u32_to_le_bytes;
use vstd::bytes::u32_to_le_bytes;
use vstd::prelude::*;

verus! {

/// Little-endian serialization of a sequence of 32-bit words.
pub open spec fn le_words(ws: Seq<u32>) -> Seq<u8>
    decreases ws.len(),
{
    if ws.len() == 0 {
        Seq::empty()
    } else {
        le_words(ws.drop_last()) + spec_u32_to_le_bytes(ws.last())
    }
}

pub proof fn lemma_le_words_len(ws: Seq<u32>)
    ensures
        le_words(ws).len() == 4 * ws.len(),
    decreases ws.len(),
{
    lemma_auto_spec_u32_to_from_le_bytes();
    if ws.len() > 0 {
        lemma_le_words_len(ws.drop_last());
    }
}

pub proof fn lemma_le_words_take_succ(ws: Seq<u32>, i: int)
    requires
        0 <= i < ws.len(),
    ensures
        le_words(ws.take(i + 1)) == le_words(ws.take(i)) + spec_u32_to_le_bytes(ws[i]),
{
    assert(ws.take(i + 1).drop_last() =~= ws.take(i));
    assert(ws.take(i + 1).last() == ws[i]);
}

/// Byte length of section `k` (1-based) of the output buffer, in the order
/// the sections are laid out: the three character buffers, the three
/// offset-pair tables, the attribute-edge list, the element-edge list.
pub open spec fn section_len(m: EncoderModel, k: int) -> int {
    if k == 1 {
        m.keys.buf.len() as int
    } else if k == 2 {
        m.attribute.buf.len() as int
    } else if k == 3 {
        m.text.buf.len() as int
    } else if k == 4 {
        4 * m.keys.offs.len() as int
    } else if k == 5 {
        4 * m.attribute.offs.len() as int
    } else if k == 6 {
        4 * m.text.offs.len() as int
    } else if k == 7 {
        4 * m.attribute_edges.len() as int
    } else if k == 8 {
        4 * m.element_edges.len() as int
    } else {
        0
    }
}

/// Header word `k`: the cumulative byte size of the 36-byte header and the
/// first `k` sections.
pub open spec fn header_word(m: EncoderModel, k: int) -> int
    decreases k,
{
    if k <= 0 {
        36
    } else {
        header_word(m, k - 1) + section_len(m, k)
    }
}

/// Total byte size of the serialized document.
pub open spec fn size_bytes(m: EncoderModel) -> int {
    header_word(m, 8)
}

/// The nine header words.
pub open spec fn header_words(m: EncoderModel) -> Seq<u32> {
    Seq::new(9, |k: int| header_word(m, k) as u32)
}

/// The whole output buffer for encoder state `m`.
pub open spec fn serialize(m: EncoderModel) -> Seq<u8> {
    le_words(header_words(m)) + m.keys.buf + m.attribute.buf + m.text.buf + le_words(m.keys.offs)
        + le_words(m.attribute.offs) + le_words(m.text.offs) + le_words(m.attribute_edges)
        + le_words(m.element_edges)
}

pub proof fn lemma_size_components(m: EncoderModel)
    ensures
        size_bytes(m) == 36 + m.keys.buf.len() + m.attribute.buf.len() + m.text.buf.len() + 4
            * m.keys.offs.len() + 4 * m.attribute.offs.len() + 4 * m.text.offs.len() + 4
            * m.attribute_edges.len() + 4 * m.element_edges.len(),
{
    assert(header_word(m, 0) == 36);
    assert(header_word(m, 1) == header_word(m, 0) + section_len(m, 1));
    assert(header_word(m, 2) == header_word(m, 1) + section_len(m, 2));
    assert(header_word(m, 3) == header_word(m, 2) + section_len(m, 3));
    assert(header_word(m, 4) == header_word(m, 3) + section_len(m, 4));
    assert(header_word(m, 5) == header_word(m, 4) + section_len(m, 5));
    assert(header_word(m, 6) == header_word(m, 5) + section_len(m, 6));
    assert(header_word(m, 7) == header_word(m, 6) + section_len(m, 7));
    assert(header_word(m, 8) == header_word(m, 7) + section_len(m, 8));
}

/// Every header word lies between the fixed header size and the total size.
pub proof fn lemma_header_bounds(m: EncoderModel)
    ensures
        header_word(m, 0) == 36,
        forall|k: int| 1 <= k <= 8 ==> #[trigger] header_word(m, k) == header_word(m, k - 1)
            + section_len(m, k),
        forall|k: int| 0 <= k <= 8 ==> 36 <= #[trigger] header_word(m, k) <= size_bytes(m),
{
    assert forall|k: int| 1 <= k <= 8 implies #[trigger] header_word(m, k) == header_word(m, k - 1)
        + section_len(m, k) by {
        assert(header_word(m, k) == header_word(m, k - 1) + section_len(m, k));
    }
    assert forall|k: int| 0 <= k <= 8 implies 36 <= #[trigger] header_word(m, k) <= size_bytes(
        m,
    ) by {
        lemma_size_components(m);
        assert(header_word(m, 0) == 36);
        assert(header_word(m, 1) == header_word(m, 0) + section_len(m, 1));
        assert(header_word(m, 2) == header_word(m, 1) + section_len(m, 2));
        assert(header_word(m, 3) == header_word(m, 2) + section_len(m, 3));
        assert(header_word(m, 4) == header_word(m, 3) + section_len(m, 4));
        assert(header_word(m, 5) == header_word(m, 4) + section_len(m, 5));
        assert(header_word(m, 6) == header_word(m, 5) + section_len(m, 6));
        assert(header_word(m, 7) == header_word(m, 6) + section_len(m, 7));
        assert(header_word(m, 8) == header_word(m, 7) + section_len(m, 8));
    }
}

/// Header law: the first word is the fixed header size 36, each following
/// word exceeds the one before it by exactly the byte length of its
/// section, and so the nine words are non-decreasing.
pub proof fn lemma_header_monotonic(m: EncoderModel)
    requires
        size_bytes(m) <= u32::MAX,
    ensures
        header_words(m).len() == 9,
        header_words(m)[0] == 36,
        forall|k: int| 1 <= k < 9 ==> #[trigger] header_words(m)[k] == header_words(m)[k - 1]
            + section_len(m, k),
        forall|k: int| 1 <= k < 9 ==> header_words(m)[k - 1] <= #[trigger] header_words(m)[k],
{
    lemma_header_bounds(m);
}

/// The total length of the output buffer equals the last header word.
pub proof fn lemma_serialize_len(m: EncoderModel)
    ensures
        serialize(m).len() == size_bytes(m),
{
    lemma_le_words_len(header_words(m));
    lemma_le_words_len(m.keys.offs);
    lemma_le_words_len(m.attribute.offs);
    lemma_le_words_len(m.text.offs);
    lemma_le_words_len(m.attribute_edges);
    lemma_le_words_len(m.element_edges);
    lemma_size_components(m);
}

/// Empty-document law: an encoder that saw no event serializes to exactly
/// the 36-byte header, all nine words equal to 36 (no sections present).
pub proof fn lemma_empty_document()
    ensures
        serialize(EncoderModel::init()).len() == 36,
        serialize(EncoderModel::init()) == le_words(Seq::new(9, |k: int| 36u32)),
        forall|k: int| 0 <= k < 9 ==> #[trigger] header_words(EncoderModel::init())[k] == 36,
{
    let m = EncoderModel::init();
    lemma_header_bounds(m);
    lemma_size_components(m);
    assert forall|k: int| 0 <= k < 9 implies #[trigger] header_words(m)[k] == 36 by {
        assert(section_len(m, k) == 0);
        assert(36 <= header_word(m, k) <= size_bytes(m));
    }
    assert(header_words(m) =~= Seq::new(9, |k: int| 36u32));
    assert(serialize(m) =~= le_words(header_words(m)));
    lemma_serialize_len(m);
}

/// Appends the four little-endian bytes of one word.
pub fn push_le_word(out: &mut Vec<u8>, w: u32)
    ensures
        final(out)@ == old(out)@ + spec_u32_to_le_bytes(w),
{
    let bs = u32_to_le_bytes(w);
    out.push(bs[0]);
    out.push(bs[1]);
    out.push(bs[2]);
    out.push(bs[3]);
    proof {
        assert(out@ =~= old(out)@ + spec_u32_to_le_bytes(w));
    }
}

/// Appends the little-endian bytes of every word of `ws`, in order.
pub fn extend_words(out: &mut Vec<u8>, ws: &Vec<u32>)
    ensures
        final(out)@ == old(out)@ + le_words(ws@),
{
    proof {
        assert(old(out)@ + le_words(ws@.take(0)) =~= old(out)@);
    }
    let mut i: usize = 0;
    while i < ws.len()
        invariant
            i <= ws.len(),
            out@ == old(out)@ + le_words(ws@.take(i as int)),
        decreases ws@.len() - i,
    {
        push_le_word(out, ws[i]);
        proof {
            lemma_le_words_take_succ(ws@, i as int);
            assert(out@ =~= old(out)@ + le_words(ws@.take(i as int + 1)));
        }
        i = i + 1;
    }
    proof {
        assert(ws@.take(ws@.len() as int) =~= ws@);
    }
}

} // verus!
