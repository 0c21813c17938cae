//! The graph encoder: a single stateful visitor that consumes parse events
//! one at a time, mutating three packed string tables, two edge lists and
//! three monotonic counters, and serializes everything into one flat byte
//! buffer on end-of-stream.

use crate::format::extend_words;
use crate::format::lemma_header_bounds;
use crate::format::lemma_size_components;
use crate::format::serialize;
use crate::format::size_bytes;
use crate::table::extend_bytes;
use crate::table::lemma_push_entries;
use crate::table::lemma_total_len_nonneg;
use crate::table::lemma_total_len_take_le;
use crate::table::lemma_total_len_take_succ;
use crate::table::total_len;
use crate::table::PackedString;
use crate::table::TableModel;
use crate::token::attr_key;
use crate::token::attr_key_vec;
use crate::token::attrs_view;
use crate::token::doctype_marker;
use crate::token::doctype_marker_vec;
use crate::token::is_eof;
use crate::token::opt_bytes;
use crate::token::Attribute;
use crate::token::AttributeModel;
use crate::token::Token;
use crate::token::TokenModel;
use vstd::prelude::*;

verus! {

/// Mathematical model of the encoder state: the three string tables, the
/// two edge lists, and the three monotonic counters.
#[verifier::ext_equal]
pub struct EncoderModel {
    pub keys: TableModel,
    pub attribute: TableModel,
    pub text: TableModel,
    pub attribute_edges: Seq<u32>,
    pub element_edges: Seq<u32>,
    pub current_node: u32,
    pub current_attribute: u32,
    pub current_text_node: u32,
}

impl EncoderModel {
    /// The start state: everything empty, all counters zero.
    pub open spec fn init() -> EncoderModel {
        EncoderModel {
            keys: TableModel::empty(),
            attribute: TableModel::empty(),
            text: TableModel::empty(),
            attribute_edges: Seq::empty(),
            element_edges: Seq::empty(),
            current_node: 0,
            current_attribute: 0,
            current_text_node: 0,
        }
    }

    /// Well-formedness: the three tables are well formed and the whole
    /// serialized document fits 32-bit offset arithmetic.
    pub open spec fn wf(self) -> bool {
        &&& self.keys.wf()
        &&& self.attribute.wf()
        &&& self.text.wf()
        &&& size_bytes(self) <= u32::MAX
    }
}

/// Byte length of an optional string; absent fields contribute nothing.
pub open spec fn opt_len(o: Option<Seq<u8>>) -> int {
    match o {
        Option::Some(s) => s.len() as int,
        Option::None => 0,
    }
}

/// The display keys recorded for a sequence of attributes, in order.
pub open spec fn attr_keys(attrs: Seq<AttributeModel>) -> Seq<Seq<u8>> {
    attrs.map_values(|a: AttributeModel| attr_key(a.ns, a.local))
}

/// The effect of recording the attributes of one start tag, in their
/// original order: for attribute `i`, its display key is appended to the
/// attribute table `t` and the pair `(node, base + i)` to the edge list.
pub open spec fn attrs_steps(
    t: TableModel,
    edges: Seq<u32>,
    node: u32,
    base: u32,
    attrs: Seq<AttributeModel>,
) -> (TableModel, Seq<u32>)
    decreases attrs.len(),
{
    if attrs.len() == 0 {
        (t, edges)
    } else {
        let prev = attrs_steps(t, edges, node, base, attrs.drop_last());
        let a = attrs.last();
        (
            prev.0.push(attr_key(a.ns, a.local)),
            prev.1 + seq![node, (base + attrs.len() - 1) as u32],
        )
    }
}

pub proof fn lemma_attrs_steps_lens(
    t: TableModel,
    edges: Seq<u32>,
    node: u32,
    base: u32,
    attrs: Seq<AttributeModel>,
)
    ensures
        attrs_steps(t, edges, node, base, attrs).0.buf.len() == t.buf.len() + total_len(
            attr_keys(attrs),
        ),
        attrs_steps(t, edges, node, base, attrs).0.offs.len() == t.offs.len() + 2 * attrs.len(),
        attrs_steps(t, edges, node, base, attrs).1.len() == edges.len() + 2 * attrs.len(),
    decreases attrs.len(),
{
    if attrs.len() == 0 {
        assert(attr_keys(attrs) =~= Seq::<Seq<u8>>::empty());
    } else {
        lemma_attrs_steps_lens(t, edges, node, base, attrs.drop_last());
        assert(attr_keys(attrs).drop_last() =~= attr_keys(attrs.drop_last()));
        assert(attr_keys(attrs).last() == attr_key(attrs.last().ns, attrs.last().local));
    }
}

/// Records one optional doctype field: present, its string goes to the
/// attribute table and the pair `(node, slot)` to the attribute-edge list;
/// absent, nothing is recorded and its slot is left as a gap.
pub open spec fn doctype_field_step(
    m: EncoderModel,
    node: u32,
    slot: u32,
    field: Option<Seq<u8>>,
) -> EncoderModel {
    match field {
        Option::Some(s) => EncoderModel {
            attribute: m.attribute.push(s),
            attribute_edges: m.attribute_edges + seq![node, slot],
            ..m
        },
        Option::None => m,
    }
}

/// The doctype transition: the marker string goes to the keys table, one
/// structural edge is recorded, the node counter advances once, each
/// present field goes to the attribute table with its fixed slot (0 for the
/// name, 1 for the public id, 2 for the system id), and the attribute
/// counter always advances by exactly 3, present or not.
pub open spec fn doctype_step(
    m: EncoderModel,
    name: Option<Seq<u8>>,
    public_id: Option<Seq<u8>>,
    system_id: Option<Seq<u8>>,
) -> EncoderModel {
    let node = (m.current_node + 1) as u32;
    let m1 = EncoderModel {
        keys: m.keys.push(doctype_marker()),
        element_edges: m.element_edges + seq![0u32, m.current_node, node],
        current_node: node,
        ..m
    };
    let m2 = doctype_field_step(m1, node, m.current_attribute, name);
    let m3 = doctype_field_step(m2, node, (m.current_attribute + 1) as u32, public_id);
    let m4 = doctype_field_step(m3, node, (m.current_attribute + 2) as u32, system_id);
    EncoderModel { current_attribute: (m.current_attribute + 3) as u32, ..m4 }
}

/// The start-tag transition: the tag name goes to the keys table, one
/// structural edge `(0, parent, parent + 1)` is recorded, the node counter
/// advances once, and the attributes are recorded in order against the new
/// node; the attribute counter advances by the attribute count.
pub open spec fn start_tag_step(
    m: EncoderModel,
    name: Seq<u8>,
    attrs: Seq<AttributeModel>,
) -> EncoderModel {
    let node = (m.current_node + 1) as u32;
    let ae = attrs_steps(m.attribute, m.attribute_edges, node, m.current_attribute, attrs);
    EncoderModel {
        keys: m.keys.push(name),
        attribute: ae.0,
        text: m.text,
        attribute_edges: ae.1,
        element_edges: m.element_edges + seq![0u32, m.current_node, node],
        current_node: node,
        current_attribute: (m.current_attribute + attrs.len()) as u32,
        current_text_node: m.current_text_node,
    }
}

/// The transition of the encoder on one parse event. Comments, null
/// characters, parse errors and end-of-stream leave the state unchanged;
/// an end tag advances the node counter only.
pub open spec fn step(m: EncoderModel, t: TokenModel) -> EncoderModel {
    match t {
        TokenModel::Doctype { name, public_id, system_id } => doctype_step(
            m,
            name,
            public_id,
            system_id,
        ),
        TokenModel::Characters { text } => EncoderModel {
            text: m.text.push(text),
            element_edges: m.element_edges + seq![
                1u32,
                m.current_node,
                m.current_text_node,
            ],
            current_text_node: (m.current_text_node + 1) as u32,
            ..m
        },
        TokenModel::StartTag { name, attrs } => start_tag_step(m, name, attrs),
        TokenModel::EndTag => EncoderModel { current_node: (m.current_node + 1) as u32, ..m },
        TokenModel::Comment { .. } => m,
        TokenModel::NullChar => m,
        TokenModel::ParseError { .. } => m,
        TokenModel::Eof => m,
    }
}

/// Headroom needed to process one event: the counters it advances do not
/// wrap, and the document stays within 32-bit offset arithmetic.
pub open spec fn step_ok(m: EncoderModel, t: TokenModel) -> bool {
    &&& size_bytes(step(m, t)) <= u32::MAX
    &&& match t {
        TokenModel::Doctype { .. } => m.current_node < u32::MAX && m.current_attribute + 3
            <= u32::MAX,
        TokenModel::Characters { .. } => m.current_text_node < u32::MAX,
        TokenModel::StartTag { name, attrs } => m.current_node < u32::MAX && m.current_attribute
            + attrs.len() <= u32::MAX,
        TokenModel::EndTag => m.current_node < u32::MAX,
        _ => true,
    }
}

/// The encoder state after a whole sequence of events.
pub open spec fn steps(m: EncoderModel, ts: Seq<TokenModel>) -> EncoderModel
    decreases ts.len(),
{
    if ts.len() == 0 {
        m
    } else {
        step(steps(m, ts.drop_last()), ts.last())
    }
}

pub open spec fn is_plain_start_tag(t: TokenModel) -> bool {
    match t {
        TokenModel::StartTag { name, attrs } => attrs.len() == 0,
        _ => false,
    }
}

pub open spec fn start_tag_name(t: TokenModel) -> Seq<u8> {
    match t {
        TokenModel::StartTag { name, attrs } => name,
        _ => Seq::empty(),
    }
}

pub open spec fn start_tag_names(ts: Seq<TokenModel>) -> Seq<Seq<u8>> {
    Seq::new(ts.len(), |i: int| start_tag_name(ts[i]))
}

/// Numbering law: from a fresh encoder, a stream of N attribute-less
/// start-tags with no intervening text yields exactly N structural element
/// edges, the i-th being `(0, i, i + 1)` with strictly increasing child
/// values 1..N, and stores exactly the N tag names in tag order; the
/// attribute and text tables and the attribute-edge list stay empty.
pub proof fn lemma_plain_start_tags(ts: Seq<TokenModel>)
    requires
        forall|i: int| 0 <= i < ts.len() ==> is_plain_start_tag(#[trigger] ts[i]),
        ts.len() <= u32::MAX,
        total_len(start_tag_names(ts)) <= u32::MAX,
    ensures
        ({
            let m = steps(EncoderModel::init(), ts);
            &&& m.element_edges.len() == 3 * ts.len()
            &&& forall|i: int|
                #![trigger m.element_edges[3 * i]]
                #![trigger m.element_edges[3 * i + 1]]
                #![trigger m.element_edges[3 * i + 2]]
                0 <= i < ts.len() ==> m.element_edges[3 * i] == 0 && m.element_edges[3 * i + 1]
                    == i && m.element_edges[3 * i + 2] == i + 1
            &&& m.keys.wf()
            &&& m.keys.entries() == start_tag_names(ts)
            &&& m.keys.pair_count() == ts.len()
            &&& m.keys.buf.len() == total_len(start_tag_names(ts))
            &&& m.current_node == ts.len()
            &&& m.attribute == TableModel::empty()
            &&& m.text == TableModel::empty()
            &&& m.attribute_edges.len() == 0
            &&& m.current_attribute == 0
            &&& m.current_text_node == 0
        }),
    decreases ts.len(),
{
    let names = start_tag_names(ts);
    let m = steps(EncoderModel::init(), ts);
    if ts.len() == 0 {
        assert(m.keys.entries() =~= names);
    } else {
        let ts0 = ts.drop_last();
        let names0 = start_tag_names(ts0);
        let t = ts.last();
        let name = start_tag_name(t);
        assert(names0 =~= names.drop_last());
        assert(names.last() == name);
        assert(total_len(names) == total_len(names0) + name.len());
        lemma_total_len_nonneg(names0);
        lemma_plain_start_tags(ts0);
        let m0 = steps(EncoderModel::init(), ts0);
        assert(is_plain_start_tag(t));
        assert(m == start_tag_step(m0, name, Seq::<AttributeModel>::empty()));
        lemma_push_entries(m0.keys, name);
        assert(m.keys.entries() =~= names);
        assert(m.element_edges =~= m0.element_edges + seq![
            0u32,
            m0.current_node,
            (m0.current_node + 1) as u32,
        ]);
        assert forall|i: int|
            #![trigger m.element_edges[3 * i]]
            #![trigger m.element_edges[3 * i + 1]]
            #![trigger m.element_edges[3 * i + 2]]
            0 <= i < ts.len() implies m.element_edges[3 * i] == 0 && m.element_edges[3 * i + 1]
            == i && m.element_edges[3 * i + 2] == i + 1 by {
            if i < ts.len() - 1 {
                assert(m0.element_edges[3 * i + 1] == i);
                assert(m0.element_edges[3 * i] == 0);
                assert(m0.element_edges[3 * i + 2] == i + 1);
            }
        }
    }
}

/// The graph encoder. Fed events through `process_token`, it grows the
/// three packed string tables, the two edge lists and the three counters;
/// on the end-of-stream event it returns the serialized document.
#[derive(Debug)]
pub struct BinaryHtmlEncoder {
    pub keys: PackedString,
    pub text: PackedString,
    pub attribute: PackedString,
    pub attribute_edges: Vec<u32>,
    pub element_edges: Vec<u32>,
    pub current_node: u32,
    pub current_attribute: u32,
    pub current_text_node: u32,
}

impl View for BinaryHtmlEncoder {
    type V = EncoderModel;

    open spec fn view(&self) -> EncoderModel {
        EncoderModel {
            keys: self.keys@,
            attribute: self.attribute@,
            text: self.text@,
            attribute_edges: self.attribute_edges@,
            element_edges: self.element_edges@,
            current_node: self.current_node,
            current_attribute: self.current_attribute,
            current_text_node: self.current_text_node,
        }
    }
}

impl Default for BinaryHtmlEncoder {
    /// A fresh encoder: empty tables, empty edge lists, all counters zero.
    fn default() -> (e: BinaryHtmlEncoder)
        ensures
            e@ == EncoderModel::init(),
            e.wf(),
    {
        let e = BinaryHtmlEncoder {
            keys: PackedString::default(),
            text: PackedString::default(),
            attribute: PackedString::default(),
            attribute_edges: Vec::new(),
            element_edges: Vec::new(),
            current_node: 0,
            current_attribute: 0,
            current_text_node: 0,
        };
        proof {
            assert(e@ =~~= EncoderModel::init());
            lemma_size_components(e@);
        }
        e
    }
}

impl BinaryHtmlEncoder {
    pub open spec fn wf(self) -> bool {
        self@.wf()
    }

    /// Serializes the current state into one flat byte buffer: the nine
    /// cumulative header words, then each section in layout order.
    fn output_buffer(&self) -> (out: Vec<u8>)
        requires
            self.wf(),
        ensures
            out@ == serialize(self@),
    {
        proof {
            lemma_header_bounds(self@);
            lemma_size_components(self@);
        }
        let mut header: Vec<u32> = Vec::new();
        header.push(36);
        header.push(header[0] + self.keys.string.len() as u32);
        header.push(header[1] + self.attribute.string.len() as u32);
        header.push(header[2] + self.text.string.len() as u32);
        header.push(header[3] + (self.keys.substrings.len() as u32) * 4);
        header.push(header[4] + (self.attribute.substrings.len() as u32) * 4);
        header.push(header[5] + (self.text.substrings.len() as u32) * 4);
        header.push(header[6] + (self.attribute_edges.len() as u32) * 4);
        header.push(header[7] + (self.element_edges.len() as u32) * 4);
        proof {
            assert(header@ =~= crate::format::header_words(self@));
        }
        let mut out: Vec<u8> = Vec::new();
        extend_words(&mut out, &header);
        extend_bytes(&mut out, &self.keys.string);
        extend_bytes(&mut out, &self.attribute.string);
        extend_bytes(&mut out, &self.text.string);
        extend_words(&mut out, &self.keys.substrings);
        extend_words(&mut out, &self.attribute.substrings);
        extend_words(&mut out, &self.text.substrings);
        extend_words(&mut out, &self.attribute_edges);
        extend_words(&mut out, &self.element_edges);
        proof {
            assert(out@ =~= serialize(self@));
        }
        out
    }

    /// Records one optional doctype field under its fixed slot.
    fn do_doctype_field(&mut self, slot: u32, field: Option<Vec<u8>>)
        requires
            old(self).attribute@.wf(),
            old(self).attribute@.buf.len() + opt_len(opt_bytes(field)) <= u32::MAX,
        ensures
            final(self)@ == doctype_field_step(
                old(self)@,
                old(self).current_node,
                slot,
                opt_bytes(field),
            ),
            final(self).attribute@.wf(),
    {
        match field {
            Option::Some(f) => {
                self.attribute.push_sub_str(&f);
                self.attribute_edges.push(self.current_node);
                self.attribute_edges.push(slot);
                proof {
                    assert(self@ =~~= doctype_field_step(
                        old(self)@,
                        old(self).current_node,
                        slot,
                        Option::Some(f@),
                    ));
                }
            },
            Option::None => {
                proof {
                    assert(self@ =~~= doctype_field_step(
                        old(self)@,
                        old(self).current_node,
                        slot,
                        Option::None,
                    ));
                }
            },
        }
    }

    /// Records a doctype event.
    fn do_doctype(
        &mut self,
        name: Option<Vec<u8>>,
        public_id: Option<Vec<u8>>,
        system_id: Option<Vec<u8>>,
    )
        requires
            old(self).wf(),
            old(self).current_node < u32::MAX,
            old(self).current_attribute + 3 <= u32::MAX,
            size_bytes(
                doctype_step(
                    old(self)@,
                    opt_bytes(name),
                    opt_bytes(public_id),
                    opt_bytes(system_id),
                ),
            ) <= u32::MAX,
        ensures
            final(self)@ == doctype_step(
                old(self)@,
                opt_bytes(name),
                opt_bytes(public_id),
                opt_bytes(system_id),
            ),
            final(self).wf(),
    {
        let ghost m = old(self)@;
        let ghost gn = opt_bytes(name);
        let ghost gp = opt_bytes(public_id);
        let ghost gs = opt_bytes(system_id);
        let ghost r = doctype_step(m, gn, gp, gs);
        let ghost node = (m.current_node + 1) as u32;
        let ghost m1 = EncoderModel {
            keys: m.keys.push(doctype_marker()),
            element_edges: m.element_edges + seq![0u32, m.current_node, node],
            current_node: node,
            ..m
        };
        let ghost m2 = doctype_field_step(m1, node, m.current_attribute, gn);
        let ghost m3 = doctype_field_step(m2, node, (m.current_attribute + 1) as u32, gp);
        let ghost m4 = doctype_field_step(m3, node, (m.current_attribute + 2) as u32, gs);
        proof {
            lemma_size_components(r);
            lemma_size_components(m);
            assert(r == (EncoderModel { current_attribute: (m.current_attribute + 3) as u32, ..m4 }));
            assert(r.keys.buf.len() == m.keys.buf.len() + 8);
            assert(m1.attribute == m.attribute);
            assert(m2.attribute.buf.len() == m.attribute.buf.len() + opt_len(gn));
            assert(m3.attribute.buf.len() == m2.attribute.buf.len() + opt_len(gp));
            assert(m4.attribute.buf.len() == m3.attribute.buf.len() + opt_len(gs));
            assert(r.attribute.buf.len() <= u32::MAX - 36);
        }
        let marker = doctype_marker_vec();
        self.keys.push_sub_str(&marker);
        let parent = self.current_node;
        self.current_node = parent + 1;
        self.element_edges.push(0);
        self.element_edges.push(parent);
        self.element_edges.push(self.current_node);
        proof {
            assert(self@ =~~= m1);
        }
        let slot0 = self.current_attribute;
        self.do_doctype_field(slot0, name);
        proof {
            assert(self@ == m2);
        }
        self.do_doctype_field(slot0 + 1, public_id);
        proof {
            assert(self@ == m3);
        }
        self.do_doctype_field(slot0 + 2, system_id);
        proof {
            assert(self@ == m4);
        }
        self.current_attribute = self.current_attribute + 3;
        proof {
            assert(self@ =~~= r);
        }
    }

    /// Records a character-run event.
    fn do_characters(&mut self, text: Vec<u8>)
        requires
            old(self).wf(),
            old(self).current_text_node < u32::MAX,
            size_bytes(step(old(self)@, TokenModel::Characters { text: text@ })) <= u32::MAX,
        ensures
            final(self)@ == step(old(self)@, TokenModel::Characters { text: text@ }),
            final(self).wf(),
    {
        let ghost m = old(self)@;
        let ghost tok = TokenModel::Characters { text: text@ };
        proof {
            lemma_size_components(step(m, tok));
            lemma_size_components(m);
            assert(step(m, tok).text.buf.len() == m.text.buf.len() + text@.len());
        }
        self.text.push_sub_str(&text);
        self.element_edges.push(1);
        self.element_edges.push(self.current_node);
        self.element_edges.push(self.current_text_node);
        self.current_text_node = self.current_text_node + 1;
        proof {
            assert(self@ =~~= step(m, tok));
        }
    }

    /// Records a start-tag event: the name, the structural edge, and every
    /// attribute in its original order.
    fn do_start_tag(&mut self, name: Vec<u8>, attrs: Vec<Attribute>)
        requires
            old(self).wf(),
            old(self).current_node < u32::MAX,
            old(self).current_attribute + attrs@.len() <= u32::MAX,
            size_bytes(start_tag_step(old(self)@, name@, attrs_view(attrs@))) <= u32::MAX,
        ensures
            final(self)@ == start_tag_step(old(self)@, name@, attrs_view(attrs@)),
            final(self).wf(),
    {
        let ghost m = old(self)@;
        let ghost avs = attrs_view(attrs@);
        let ghost keys_total = total_len(attr_keys(avs));
        proof {
            let r = start_tag_step(m, name@, avs);
            lemma_size_components(r);
            lemma_size_components(m);
            lemma_attrs_steps_lens(
                m.attribute,
                m.attribute_edges,
                (m.current_node + 1) as u32,
                m.current_attribute,
                avs,
            );
            lemma_total_len_nonneg(attr_keys(avs));
            assert(r.keys.buf.len() == m.keys.buf.len() + name@.len());
            assert(r.attribute.buf.len() == m.attribute.buf.len() + keys_total);
        }
        self.keys.push_sub_str(&name);
                let parent = self.current_node;
                self.current_node = parent + 1;
                self.element_edges.push(0);
                self.element_edges.push(parent);
                self.element_edges.push(self.current_node);
                let ghost node = self.current_node;
                let ghost base = m.current_attribute;
                let mut i: usize = 0;
                proof {
                    assert(avs.take(0) =~= Seq::<AttributeModel>::empty());
                }
                while i < attrs.len()
                    invariant
                        i <= attrs.len(),
                        avs == attrs_view(attrs@),
                        avs.len() == attrs@.len(),
                        self.keys@ == m.keys.push(name@),
                        self.keys@.wf(),
                        self.text@ == m.text,
                        m.text.wf(),
                        self.element_edges@ == m.element_edges + seq![0u32, m.current_node, node],
                        self.current_node == node,
                        node == (m.current_node + 1) as u32,
                        self.current_attribute == base,
                        base == m.current_attribute,
                        self.current_text_node == m.current_text_node,
                        self.attribute@ == attrs_steps(
                            m.attribute,
                            m.attribute_edges,
                            node,
                            base,
                            avs.take(i as int),
                        ).0,
                        self.attribute_edges@ == attrs_steps(
                            m.attribute,
                            m.attribute_edges,
                            node,
                            base,
                            avs.take(i as int),
                        ).1,
                        self.attribute@.wf(),
                        m.attribute.buf.len() + total_len(attr_keys(avs)) <= u32::MAX,
                        base + avs.len() <= u32::MAX,
                    decreases attrs@.len() - i,
                {
                    let a = &attrs[i];
                    let key = attr_key_vec(&a.ns, &a.local);
                    proof {
                        lemma_attrs_steps_lens(
                            m.attribute,
                            m.attribute_edges,
                            node,
                            base,
                            avs.take(i as int),
                        );
                        assert(attr_keys(avs.take(i as int)) =~= attr_keys(avs).take(i as int));
                        assert(attr_keys(avs)[i as int] == attr_key(
                            avs[i as int].ns,
                            avs[i as int].local,
                        ));
                        lemma_total_len_take_succ(attr_keys(avs), i as int);
                        lemma_total_len_take_le(attr_keys(avs), i as int + 1);
                        lemma_total_len_nonneg(attr_keys(avs).take(i as int));
                        assert(key@ == attr_keys(avs)[i as int]);
                        assert(self.attribute@.buf.len() + key@.len() <= u32::MAX);
                    }
                    self.attribute.push_sub_str(&key);
                    self.attribute_edges.push(self.current_node);
                    self.attribute_edges.push(self.current_attribute + (i as u32));
                    proof {
                        assert(avs.take(i as int + 1).drop_last() =~= avs.take(i as int));
                        assert(avs.take(i as int + 1).last() == avs[i as int]);
                        assert(self.attribute@ =~~= attrs_steps(
                            m.attribute,
                            m.attribute_edges,
                            node,
                            base,
                            avs.take(i as int + 1),
                        ).0);
                        assert(self.attribute_edges@ =~= attrs_steps(
                            m.attribute,
                            m.attribute_edges,
                            node,
                            base,
                            avs.take(i as int + 1),
                        ).1);
                    }
                    i = i + 1;
                }
        proof {
            assert(avs.take(avs.len() as int) =~= avs);
        }
        self.current_attribute = self.current_attribute + attrs.len() as u32;
        proof {
            assert(self@ =~~= start_tag_step(m, name@, avs));
        }
    }

    /// Consumes one parse event. The state advances exactly by `step`;
    /// on the end-of-stream event the state is left unchanged and the
    /// serialized document is returned, on every other event nothing is
    /// returned.
    pub fn process_token(&mut self, token: Token) -> (r: Option<Vec<u8>>)
        requires
            old(self).wf(),
            step_ok(old(self)@, token@),
        ensures
            final(self).wf(),
            final(self)@ == step(old(self)@, token@),
            (match r {
                Option::Some(out) => is_eof(token@) && out@ == serialize(old(self)@),
                Option::None => !is_eof(token@),
            }),
    {
        let ghost m = old(self)@;
        let ghost tok = token@;
        match token {
            Token::Doctype { name, public_id, system_id } => {
                self.do_doctype(name, public_id, system_id);
                None
            },
            Token::Characters { text } => {
                self.do_characters(text);
                None
            },
            Token::StartTag { name, attrs } => {
                self.do_start_tag(name, attrs);
                None
            },
            Token::EndTag => {
                self.current_node = self.current_node + 1;
                proof {
                    assert(self@ =~~= step(m, tok));
                }
                None
            },
            Token::Comment { .. } => {
                proof {
                    assert(self@ =~~= step(m, tok));
                }
                None
            },
            Token::NullChar => {
                proof {
                    assert(self@ =~~= step(m, tok));
                }
                None
            },
            Token::ParseError { .. } => {
                proof {
                    assert(self@ =~~= step(m, tok));
                }
                None
            },
            Token::Eof => {
                let out = self.output_buffer();
                proof {
                    assert(self@ =~~= step(m, tok));
                }
                Some(out)
            },
        }
    }
}

} // verus!
