//! The closed set of parse events the encoder consumes, with the
//! mathematical model each event is specified against.

use vstd::prelude::*;

verus! {

/// Model of one tag attribute: namespace, local name and value, as byte
/// strings. The value is carried through but not recorded by the encoder.
pub struct AttributeModel {
    pub ns: Seq<u8>,
    pub local: Seq<u8>,
    pub value: Seq<u8>,
}

/// One attribute of a start tag.
#[derive(Debug)]
pub struct Attribute {
    pub ns: Vec<u8>,
    pub local: Vec<u8>,
    pub value: Vec<u8>,
}

impl View for Attribute {
    type V = AttributeModel;

    open spec fn view(&self) -> AttributeModel {
        AttributeModel { ns: self.ns@, local: self.local@, value: self.value@ }
    }
}

/// Model of one parse event.
pub enum TokenModel {
    Doctype { name: Option<Seq<u8>>, public_id: Option<Seq<u8>>, system_id: Option<Seq<u8>> },
    Characters { text: Seq<u8> },
    StartTag { name: Seq<u8>, attrs: Seq<AttributeModel> },
    EndTag,
    Comment { text: Seq<u8> },
    NullChar,
    ParseError { message: Seq<u8> },
    Eof,
}

/// One parse event, as handed to the encoder by the event source. Exactly
/// one `Eof` event is expected, last.
#[derive(Debug)]
pub enum Token {
    Doctype { name: Option<Vec<u8>>, public_id: Option<Vec<u8>>, system_id: Option<Vec<u8>> },
    Characters { text: Vec<u8> },
    StartTag { name: Vec<u8>, attrs: Vec<Attribute> },
    EndTag,
    Comment { text: Vec<u8> },
    NullChar,
    ParseError { message: Vec<u8> },
    Eof,
}

pub open spec fn opt_bytes(o: Option<Vec<u8>>) -> Option<Seq<u8>> {
    match o {
        Option::Some(v) => Option::Some(v@),
        Option::None => Option::None,
    }
}

pub open spec fn attrs_view(attrs: Seq<Attribute>) -> Seq<AttributeModel> {
    attrs.map_values(|a: Attribute| a@)
}

impl View for Token {
    type V = TokenModel;

    open spec fn view(&self) -> TokenModel {
        match self {
            Token::Doctype { name, public_id, system_id } => TokenModel::Doctype {
                name: opt_bytes(*name),
                public_id: opt_bytes(*public_id),
                system_id: opt_bytes(*system_id),
            },
            Token::Characters { text } => TokenModel::Characters { text: text@ },
            Token::StartTag { name, attrs } => TokenModel::StartTag {
                name: name@,
                attrs: attrs_view(attrs@),
            },
            Token::EndTag => TokenModel::EndTag,
            Token::Comment { text } => TokenModel::Comment { text: text@ },
            Token::NullChar => TokenModel::NullChar,
            Token::ParseError { message } => TokenModel::ParseError { message: message@ },
            Token::Eof => TokenModel::Eof,
        }
    }
}

pub open spec fn is_eof(t: TokenModel) -> bool {
    match t {
        TokenModel::Eof => true,
        _ => false,
    }
}

/// The display key recorded for an attribute: `namespace:local` when the
/// namespace is non-empty, else just the local name.
pub open spec fn attr_key(ns: Seq<u8>, local: Seq<u8>) -> Seq<u8> {
    if ns.len() > 0 {
        ns + seq![58u8] + local
    } else {
        local
    }
}

/// The literal marker string recorded in the keys table for a doctype node.
pub open spec fn doctype_marker() -> Seq<u8> {
    seq![33u8, 68u8, 79u8, 67u8, 84u8, 89u8, 80u8, 69u8]
}

/// Builds the `!DOCTYPE` marker bytes.
pub fn doctype_marker_vec() -> (v: Vec<u8>)
    ensures
        v@ == doctype_marker(),
{
    let mut v: Vec<u8> = Vec::new();
    v.push(33);
    v.push(68);
    v.push(79);
    v.push(67);
    v.push(84);
    v.push(89);
    v.push(80);
    v.push(69);
    proof {
        assert(v@ =~= doctype_marker());
    }
    v
}

/// Builds the display key for one attribute.
pub fn attr_key_vec(ns: &Vec<u8>, local: &Vec<u8>) -> (r: Vec<u8>)
    ensures
        r@ == attr_key(ns@, local@),
{
    let mut r: Vec<u8> = Vec::new();
    if ns.len() > 0 {
        crate::table::extend_bytes(&mut r, ns);
        r.push(58);
    }
    crate::table::extend_bytes(&mut r, local);
    proof {
        assert(r@ =~= attr_key(ns@, local@));
    }
    r
}

} // verus!
