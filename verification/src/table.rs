//! Packed string tables: a single concatenated byte buffer plus a flat list
//! of (start, end) byte-offset words, one pair per stored string, in
//! insertion order.

use vstd::prelude::*;

verus! {

/// Mathematical model of a packed string table: the concatenated byte buffer
/// and the flat sequence of offset words (two words, start then end, per
/// stored string).
#[verifier::ext_equal]
pub struct TableModel {
    pub buf: Seq<u8>,
    pub offs: Seq<u32>,
}

impl TableModel {
    pub open spec fn empty() -> TableModel {
        TableModel { buf: Seq::empty(), offs: Seq::empty() }
    }

    /// Number of stored strings, i.e. of (start, end) pairs.
    pub open spec fn pair_count(self) -> int {
        self.offs.len() as int / 2
    }

    /// Start offset of the i-th stored string.
    pub open spec fn start(self, i: int) -> int {
        self.offs[2 * i] as int
    }

    /// End offset of the i-th stored string.
    pub open spec fn end(self, i: int) -> int {
        self.offs[2 * i + 1] as int
    }

    /// The i-th stored string, reconstructed from the buffer and its pair.
    pub open spec fn entry(self, i: int) -> Seq<u8> {
        self.buf.subrange(self.start(i), self.end(i))
    }

    /// All stored strings in insertion order, as reconstructed from the
    /// buffer and the offset pairs.
    pub open spec fn entries(self) -> Seq<Seq<u8>> {
        Seq::new(self.pair_count() as nat, |i: int| self.entry(i))
    }

    /// Well-formedness: the pairs tile the buffer contiguously from offset 0,
    /// each pair is ordered and in bounds, and every offset fits in a 32-bit
    /// word.
    pub open spec fn wf(self) -> bool {
        &&& self.offs.len() % 2 == 0
        &&& self.buf.len() <= u32::MAX
        &&& forall|i: int|
            0 <= i < self.pair_count() ==> #[trigger] self.start(i) == if i == 0 {
                0int
            } else {
                self.end(i - 1)
            }
        &&& forall|i: int| 0 <= i < self.pair_count() ==> self.start(i) <= #[trigger] self.end(i)
        &&& forall|i: int| 0 <= i < self.pair_count() ==> #[trigger] self.end(i) <= self.buf.len()
        &&& if self.pair_count() == 0 {
            self.buf.len() == 0
        } else {
            self.end(self.pair_count() - 1) == self.buf.len()
        }
    }

    /// The effect of appending one string: its bytes go at the end of the
    /// buffer and one (start, end) pair is recorded. Identical strings are
    /// stored verbatim each time; nothing is ever deduplicated, removed or
    /// reordered.
    pub open spec fn push(self, item: Seq<u8>) -> TableModel {
        TableModel {
            buf: self.buf + item,
            offs: self.offs.push(self.buf.len() as u32).push(
                (self.buf.len() + item.len()) as u32,
            ),
        }
    }
}

/// Total byte length of a sequence of strings.
pub open spec fn total_len(ss: Seq<Seq<u8>>) -> int
    decreases ss.len(),
{
    if ss.len() == 0 {
        0
    } else {
        total_len(ss.drop_last()) + ss.last().len()
    }
}

pub proof fn lemma_total_len_nonneg(ss: Seq<Seq<u8>>)
    ensures
        total_len(ss) >= 0,
    decreases ss.len(),
{
    if ss.len() > 0 {
        lemma_total_len_nonneg(ss.drop_last());
    }
}

pub proof fn lemma_total_len_take_succ(ss: Seq<Seq<u8>>, i: int)
    requires
        0 <= i < ss.len(),
    ensures
        total_len(ss.take(i + 1)) == total_len(ss.take(i)) + ss[i].len(),
{
    assert(ss.take(i + 1).drop_last() =~= ss.take(i));
    assert(ss.take(i + 1).last() == ss[i]);
}

pub proof fn lemma_total_len_take_le(ss: Seq<Seq<u8>>, i: int)
    requires
        0 <= i <= ss.len(),
    ensures
        total_len(ss.take(i)) <= total_len(ss),
    decreases ss.len() - i,
{
    if i == ss.len() {
        assert(ss.take(i) =~= ss);
    } else {
        lemma_total_len_take_succ(ss, i);
        lemma_total_len_take_le(ss, i + 1);
    }
}

/// Round-trip law for one append: the new pair points exactly at the
/// appended bytes, every earlier entry still reconstructs to the string it
/// was appended for, and so the reconstructed sequence equals the append
/// sequence.
pub proof fn lemma_push_entries(t: TableModel, item: Seq<u8>)
    requires
        t.wf(),
        t.buf.len() + item.len() <= u32::MAX,
    ensures
        t.push(item).wf(),
        t.push(item).pair_count() == t.pair_count() + 1,
        t.push(item).buf.len() == t.buf.len() + item.len(),
        t.push(item).offs.len() == t.offs.len() + 2,
        t.push(item).start(t.pair_count()) == t.buf.len(),
        t.push(item).end(t.pair_count()) == t.buf.len() + item.len(),
        t.push(item).entry(t.pair_count()) == item,
        t.push(item).entries() == t.entries().push(item),
{
    let u = t.push(item);
    let n = t.pair_count();
    assert(t.offs.len() == 2 * n);
    assert(u.offs.len() == 2 * n + 2);
    assert(u.pair_count() == n + 1);
    assert(u.offs[2 * n] == t.buf.len() as u32);
    assert(u.offs[2 * n + 1] == (t.buf.len() + item.len()) as u32);
    assert(u.start(n) == t.buf.len());
    assert(u.end(n) == t.buf.len() + item.len());
    assert forall|i: int| 0 <= i < n implies #[trigger] u.start(i) == t.start(i) && u.end(i)
        == t.end(i) by {
        assert(u.offs[2 * i] == t.offs[2 * i]);
        assert(u.offs[2 * i + 1] == t.offs[2 * i + 1]);
    }
    assert forall|i: int| 0 <= i < n implies #[trigger] u.entry(i) == t.entry(i) by {
        assert(t.end(i) <= t.buf.len());
        assert(u.buf.subrange(t.start(i), t.end(i)) =~= t.buf.subrange(t.start(i), t.end(i)));
    }
    assert(u.entry(n) =~= item);
    assert(u.entries() =~= t.entries().push(item));
    assert forall|i: int| 0 <= i < u.pair_count() implies #[trigger] u.start(i) == if i == 0 {
        0int
    } else {
        u.end(i - 1)
    } by {
        if i < n {
            assert(t.start(i) == if i == 0 { 0int } else { t.end(i - 1) });
        }
    }
    assert forall|i: int| 0 <= i < u.pair_count() implies u.start(i) <= #[trigger] u.end(i) by {
        if i < n {
            assert(t.start(i) <= t.end(i));
        }
    }
    assert forall|i: int| 0 <= i < u.pair_count() implies #[trigger] u.end(i) <= u.buf.len() by {
        if i < n {
            assert(t.end(i) <= t.buf.len());
        }
    }
    assert(u.end(u.pair_count() - 1) == u.buf.len());
}

/// No-deduplication law: appending the same string twice records two
/// offset pairs, both of which reconstruct that string, and whose regions
/// of the buffer do not overlap (the second begins where the first ends).
pub proof fn lemma_push_twice_no_dedup(t: TableModel, s: Seq<u8>)
    requires
        t.wf(),
        t.buf.len() + s.len() + s.len() <= u32::MAX,
    ensures
        ({
            let u = t.push(s).push(s);
            let n = t.pair_count();
            &&& u.wf()
            &&& u.pair_count() == n + 2
            &&& u.entries() == t.entries().push(s).push(s)
            &&& u.start(n) == t.buf.len()
            &&& u.end(n) == t.buf.len() + s.len()
            &&& u.start(n + 1) == t.buf.len() + s.len()
            &&& u.end(n + 1) == t.buf.len() + 2 * s.len()
            &&& u.end(n) <= u.start(n + 1)
        }),
{
    lemma_push_entries(t, s);
    lemma_push_entries(t.push(s), s);
    let t1 = t.push(s);
    let u = t1.push(s);
    let n = t.pair_count();
    assert(u.start(n) == t1.start(n) && u.end(n) == t1.end(n)) by {
        assert(u.offs[2 * n] == t1.offs[2 * n]);
        assert(u.offs[2 * n + 1] == t1.offs[2 * n + 1]);
    }
    assert(u.entries() =~= t.entries().push(s).push(s));
}

/// Append-only packed string table: one concatenated byte buffer and the
/// flat list of (start, end) offset words for each stored string.
#[derive(Debug)]
pub struct PackedString {
    pub string: Vec<u8>,
    pub substrings: Vec<u32>,
}

impl View for PackedString {
    type V = TableModel;

    open spec fn view(&self) -> TableModel {
        TableModel { buf: self.string@, offs: self.substrings@ }
    }
}

/// Appends all of `src` to `dst`, in order.
pub fn extend_bytes(dst: &mut Vec<u8>, src: &Vec<u8>)
    ensures
        final(dst)@ == old(dst)@ + src@,
{
    proof {
        assert(old(dst)@ + src@.take(0) =~= old(dst)@);
    }
    let mut i: usize = 0;
    while i < src.len()
        invariant
            i <= src.len(),
            dst@ == old(dst)@ + src@.take(i as int),
        decreases src@.len() - i,
    {
        dst.push(src[i]);
        proof {
            assert(old(dst)@ + src@.take(i as int + 1) =~= (old(dst)@ + src@.take(i as int)).push(
                src@[i as int],
            ));
        }
        i = i + 1;
    }
    proof {
        assert(src@.take(src@.len() as int) =~= src@);
    }
}

impl Default for PackedString {
    /// An empty table: no bytes, no offset pairs.
    fn default() -> (t: PackedString)
        ensures
            t@ == TableModel::empty(),
            t@.wf(),
    {
        let t = PackedString { string: Vec::new(), substrings: Vec::new() };
        proof {
            assert(t@ =~= TableModel::empty());
        }
        t
    }
}

impl PackedString {
    pub open spec fn wf(self) -> bool {
        self@.wf()
    }

    /// Appends `item`'s bytes to the character buffer and records its
    /// (start, end) byte-offset pair. Identical strings are stored verbatim
    /// each time they occur; the table never deletes or reorders entries.
    pub fn push_sub_str(&mut self, item: &Vec<u8>)
        requires
            old(self).wf(),
            old(self)@.buf.len() + item@.len() <= u32::MAX,
        ensures
            final(self)@ == old(self)@.push(item@),
            final(self).wf(),
            final(self)@.entries() == old(self)@.entries().push(item@),
    {
        let a = self.string.len();
        let b = a + item.len();
        extend_bytes(&mut self.string, item);
        self.substrings.push(a as u32);
        self.substrings.push(b as u32);
        proof {
            lemma_push_entries(old(self)@, item@);
            assert(self@ =~= old(self)@.push(item@));
        }
    }
}

} // verus!
