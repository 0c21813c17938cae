use canopy::encoder::BinaryHtmlEncoder;
use canopy::table::PackedString;
use canopy::token::Attribute;
use canopy::token::Token;

fn le_word(buf: &[u8], k: usize) -> u32 {
    u32::from_le_bytes([buf[4 * k], buf[4 * k + 1], buf[4 * k + 2], buf[4 * k + 3]])
}

#[test]
fn empty_document_is_bare_header() {
    let mut enc = BinaryHtmlEncoder::default();
    let out = enc.process_token(Token::Eof).expect("end of stream returns the buffer");
    assert_eq!(out.len(), 36);
    for k in 0..9 {
        assert_eq!(le_word(&out, k), 36);
    }
}

#[test]
fn single_paragraph_scenario() {
    let mut enc = BinaryHtmlEncoder::default();
    assert!(enc
        .process_token(Token::StartTag { name: b"p".to_vec(), attrs: vec![] })
        .is_none());
    assert!(enc.process_token(Token::Characters { text: b"hi".to_vec() }).is_none());
    assert!(enc.process_token(Token::EndTag).is_none());
    assert_eq!(enc.keys.string, b"p".to_vec());
    assert_eq!(enc.keys.substrings, vec![0, 1]);
    assert_eq!(enc.text.string, b"hi".to_vec());
    assert_eq!(enc.text.substrings, vec![0, 2]);
    assert_eq!(enc.element_edges, vec![0, 0, 1, 1, 1, 0]);
    assert_eq!(enc.attribute_edges, Vec::<u32>::new());
    assert_eq!(enc.current_node, 2);
    assert_eq!(enc.current_text_node, 1);
    assert_eq!(enc.current_attribute, 0);
}

#[test]
fn doctype_name_only_uses_fixed_slots() {
    let mut enc = BinaryHtmlEncoder::default();
    let r = enc.process_token(Token::Doctype {
        name: Some(b"html".to_vec()),
        public_id: None,
        system_id: None,
    });
    assert!(r.is_none());
    assert_eq!(enc.keys.string, b"!DOCTYPE".to_vec());
    assert_eq!(enc.keys.substrings, vec![0, 8]);
    assert_eq!(enc.attribute.string, b"html".to_vec());
    assert_eq!(enc.attribute.substrings, vec![0, 4]);
    assert_eq!(enc.element_edges, vec![0, 0, 1]);
    // exactly one attribute edge, in slot 0, on the doctype node
    assert_eq!(enc.attribute_edges, vec![1, 0]);
    // the attribute counter advances by 3 even though only the name was present
    assert_eq!(enc.current_attribute, 3);
    assert_eq!(enc.current_node, 1);
}

#[test]
fn doctype_all_fields() {
    let mut enc = BinaryHtmlEncoder::default();
    enc.process_token(Token::Doctype {
        name: Some(b"a".to_vec()),
        public_id: Some(b"bb".to_vec()),
        system_id: Some(b"ccc".to_vec()),
    });
    assert_eq!(enc.attribute.string, b"abbccc".to_vec());
    assert_eq!(enc.attribute.substrings, vec![0, 1, 1, 3, 3, 6]);
    assert_eq!(enc.attribute_edges, vec![1, 0, 1, 1, 1, 2]);
    assert_eq!(enc.current_attribute, 3);
}

#[test]
fn doctype_system_id_only_leaves_gap() {
    let mut enc = BinaryHtmlEncoder::default();
    enc.process_token(Token::Doctype {
        name: None,
        public_id: None,
        system_id: Some(b"sys".to_vec()),
    });
    assert_eq!(enc.attribute.string, b"sys".to_vec());
    // slots 0 and 1 are skipped, not compacted
    assert_eq!(enc.attribute_edges, vec![1, 2]);
    assert_eq!(enc.current_attribute, 3);
}

#[test]
fn start_tag_attribute_keys() {
    let mut enc = BinaryHtmlEncoder::default();
    enc.process_token(Token::StartTag {
        name: b"use".to_vec(),
        attrs: vec![
            Attribute { ns: b"".to_vec(), local: b"class".to_vec(), value: b"x".to_vec() },
            Attribute { ns: b"svg".to_vec(), local: b"href".to_vec(), value: b"y".to_vec() },
        ],
    });
    assert_eq!(enc.attribute.string, b"classsvg:href".to_vec());
    assert_eq!(enc.attribute.substrings, vec![0, 5, 5, 13]);
    assert_eq!(enc.attribute_edges, vec![1, 0, 1, 1]);
    assert_eq!(enc.current_attribute, 2);
    assert_eq!(enc.keys.string, b"use".to_vec());
}

#[test]
fn end_tag_advances_node_counter_only() {
    let mut enc = BinaryHtmlEncoder::default();
    enc.process_token(Token::StartTag { name: b"p".to_vec(), attrs: vec![] });
    enc.process_token(Token::EndTag);
    enc.process_token(Token::StartTag { name: b"q".to_vec(), attrs: vec![] });
    assert_eq!(enc.keys.string, b"pq".to_vec());
    assert_eq!(enc.element_edges, vec![0, 0, 1, 0, 2, 3]);
    assert_eq!(enc.current_node, 3);
}

#[test]
fn text_attaches_to_current_node() {
    let mut enc = BinaryHtmlEncoder::default();
    enc.process_token(Token::Characters { text: b"early".to_vec() });
    assert_eq!(enc.element_edges, vec![1, 0, 0]);
    assert_eq!(enc.current_text_node, 1);
    assert_eq!(enc.current_node, 0);
}

#[test]
fn comment_null_and_parse_error_are_ignored() {
    let mut enc = BinaryHtmlEncoder::default();
    enc.process_token(Token::Comment { text: b"note".to_vec() });
    enc.process_token(Token::NullChar);
    enc.process_token(Token::ParseError { message: b"oops".to_vec() });
    assert_eq!(enc.keys.string, Vec::<u8>::new());
    assert_eq!(enc.attribute.string, Vec::<u8>::new());
    assert_eq!(enc.text.string, Vec::<u8>::new());
    assert_eq!(enc.element_edges, Vec::<u32>::new());
    assert_eq!(enc.attribute_edges, Vec::<u32>::new());
    assert_eq!(enc.current_node, 0);
    assert_eq!(enc.current_attribute, 0);
    assert_eq!(enc.current_text_node, 0);
    let out = enc.process_token(Token::Eof).unwrap();
    assert_eq!(out.len(), 36);
}

#[test]
fn header_words_are_cumulative_section_sizes() {
    let mut enc = BinaryHtmlEncoder::default();
    enc.process_token(Token::StartTag { name: b"p".to_vec(), attrs: vec![] });
    enc.process_token(Token::Characters { text: b"hi".to_vec() });
    enc.process_token(Token::EndTag);
    let out = enc.process_token(Token::Eof).unwrap();
    // sections: keys "p" (1), attr "" (0), text "hi" (2), keys offsets (8),
    // attr offsets (0), text offsets (8), attr edges (0), elem edges (24)
    let expect = [36u32, 37, 37, 39, 47, 47, 55, 55, 79];
    for k in 0..9 {
        assert_eq!(le_word(&out, k), expect[k]);
    }
    for k in 1..9 {
        assert!(le_word(&out, k - 1) <= le_word(&out, k));
    }
    assert_eq!(out.len(), 79);
    // the sections themselves
    assert_eq!(&out[36..37], b"p");
    assert_eq!(&out[37..39], b"hi");
    let keys_offs: Vec<u32> = (0..2).map(|j| le_word(&out[39..], j)).collect();
    assert_eq!(keys_offs, vec![0, 1]);
    let text_offs: Vec<u32> = (0..2).map(|j| le_word(&out[47..], j)).collect();
    assert_eq!(text_offs, vec![0, 2]);
    let elem_edges: Vec<u32> = (0..6).map(|j| le_word(&out[55..], j)).collect();
    assert_eq!(elem_edges, vec![0, 0, 1, 1, 1, 0]);
}

#[test]
fn eof_leaves_state_unchanged() {
    let mut enc = BinaryHtmlEncoder::default();
    enc.process_token(Token::StartTag { name: b"p".to_vec(), attrs: vec![] });
    let out1 = enc.process_token(Token::Eof).unwrap();
    let out2 = enc.process_token(Token::Eof).unwrap();
    assert_eq!(out1, out2);
    assert_eq!(enc.current_node, 1);
}

#[test]
fn packed_string_round_trip() {
    let mut t = PackedString::default();
    let words: [&[u8]; 4] = [b"alpha", b"", b"beta", b"alpha"];
    for w in words {
        t.push_sub_str(&w.to_vec());
    }
    assert_eq!(t.substrings.len(), 8);
    for (i, w) in words.iter().enumerate() {
        let a = t.substrings[2 * i] as usize;
        let b = t.substrings[2 * i + 1] as usize;
        assert_eq!(&t.string[a..b], *w);
    }
}

#[test]
fn packed_string_never_deduplicates() {
    let mut t = PackedString::default();
    t.push_sub_str(&b"dup".to_vec());
    t.push_sub_str(&b"dup".to_vec());
    assert_eq!(t.string, b"dupdup".to_vec());
    assert_eq!(t.substrings, vec![0, 3, 3, 6]);
    assert_eq!(&t.string[0..3], b"dup");
    assert_eq!(&t.string[3..6], b"dup");
}
