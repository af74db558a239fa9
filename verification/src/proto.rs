//! The messages that peers exchange.

use crate::json::{
    json_opt_bytes, json_string, json_variant, lemma_decimal_tells, lemma_opt_bytes_tell,
    lemma_string_tells, lemma_utf8_tells, lemma_variant_tells,
};
use crate::json_reader::{
    lemma_read_document, lemma_read_number, lemma_read_opt_bytes, lemma_read_string,
    lemma_read_variant, read_document, Json,
};
use crate::text::{bytes_debug, debug_bytes, decimal, push_decimal, quoted, str_debug};
use serde::ser::Serializer;
use vstd::prelude::*;
use vstd::utf8::encode_utf8;

verus! {

/// The number of bytes in which a message has to arrive.
pub const READER_BUF_CAPACITY: usize = 512;

/// A message between peers.
#[derive(Debug)]
pub enum Proto {
    /// Asks for the file with this infohash.
    Init(Vec<u8>),
    /// Asks for the chunk with this index.
    Request(usize),
    /// Answers a request.
    Data(Option<Vec<u8>>),
    /// Tells what went wrong.
    Error(String),
    /// Ends the session.
    Fin,
}

/// A [`Proto`] as mathematical values.
pub enum ProtoView {
    Init(Seq<u8>),
    Request(usize),
    Data(Option<Seq<u8>>),
    Error(Seq<char>),
    Fin,
}

/// An optional byte string as a mathematical value.
pub open spec fn opt_bytes(data: Option<Vec<u8>>) -> Option<Seq<u8>> {
    match data {
        Some(bytes) => Some(bytes@),
        None => None,
    }
}

impl View for Proto {
    type V = ProtoView;

    open spec fn view(&self) -> ProtoView {
        match self {
            Proto::Init(infohash) => ProtoView::Init(infohash@),
            Proto::Request(index) => ProtoView::Request(*index),
            Proto::Data(data) => ProtoView::Data(opt_bytes(*data)),
            Proto::Error(text) => ProtoView::Error(text@),
            Proto::Fin => ProtoView::Fin,
        }
    }
}

/// The text of the JSON document that is sent for a message.
pub open spec fn proto_text(message: ProtoView) -> Seq<char> {
    match message {
        ProtoView::Init(infohash) => json_variant("Init"@, json_opt_bytes(Some(infohash))),
        ProtoView::Request(index) => json_variant("Request"@, decimal(index as nat)),
        ProtoView::Data(data) => json_variant("Data"@, json_opt_bytes(data)),
        ProtoView::Error(text) => json_variant("Error"@, json_string(text)),
        ProtoView::Fin => json_string("Fin"@),
    }
}

/// The JSON document that is sent for a message, in bytes.
pub open spec fn proto_json(message: ProtoView) -> Seq<u8> {
    encode_utf8(proto_text(message))
}

/// Why no message could be read.
#[derive(Clone, Copy, Debug, PartialEq, Eq, Structural)]
pub enum ReadError {
    /// The peer could not be read from.
    Receive,
    /// What it sent is no message.
    Deserialize,
}

/// A message as it is shown to a reader.
pub open spec fn proto_debug(message: Proto) -> Seq<char> {
    match message {
        Proto::Init(infohash) => "Init("@ + bytes_debug(infohash@) + ")"@,
        Proto::Request(index) => "Request("@ + decimal(index as nat) + ")"@,
        Proto::Data(Some(data)) => "Data(Some("@ + bytes_debug(data@) + "))"@,
        Proto::Data(None) => "Data(None)"@,
        Proto::Error(text) => "Error("@ + str_debug(text@) + ")"@,
        Proto::Fin => "Fin"@,
    }
}

/// What a failed read is called.
pub open spec fn read_error_text(error: ReadError) -> Seq<char> {
    match error {
        ReadError::Receive => "failed to read a proto message"@,
        ReadError::Deserialize => "serde failed to deserialized a proto message"@,
    }
}

/// Calls `serialize_newtype_variant` of a fresh `serde_json::Serializer` on an
/// optional byte string. It writes an object with the variant's name and the
/// value: the bytes as a list of numbers, or `null`. Writing to a `Vec` does not
/// fail, so neither does the call.
#[verifier::external_body]
fn serialize_bytes_variant(index: u32, variant: &'static str, data: &Option<Vec<u8>>) -> (res: Vec<
    u8,
>)
    ensures
        res@ == encode_utf8(json_variant(variant@, json_opt_bytes(opt_bytes(*data)))),
{
    let mut json = serde_json::Serializer::new(Vec::new());
    json.serialize_newtype_variant("Proto", index, variant, data).unwrap();
    json.into_inner()
}

/// Calls `serialize_newtype_variant` of a fresh `serde_json::Serializer` on a
/// number. It writes an object with the variant's name and the number in decimal.
/// Writing to a `Vec` does not fail, so neither does the call.
#[verifier::external_body]
fn serialize_number_variant(index: u32, variant: &'static str, number: usize) -> (res: Vec<u8>)
    ensures
        res@ == encode_utf8(json_variant(variant@, decimal(number as nat))),
{
    let mut json = serde_json::Serializer::new(Vec::new());
    json.serialize_newtype_variant("Proto", index, variant, &number).unwrap();
    json.into_inner()
}

/// Calls `serialize_newtype_variant` of a fresh `serde_json::Serializer` on a
/// string. It writes an object with the variant's name and the string, escaped.
/// Writing to a `Vec` does not fail, so neither does the call.
#[verifier::external_body]
fn serialize_text_variant(index: u32, variant: &'static str, text: &str) -> (res: Vec<u8>)
    ensures
        res@ == encode_utf8(json_variant(variant@, json_string(text@))),
{
    let mut json = serde_json::Serializer::new(Vec::new());
    json.serialize_newtype_variant("Proto", index, variant, text).unwrap();
    json.into_inner()
}

/// Calls `serialize_unit_variant` of a fresh `serde_json::Serializer`. It writes
/// the variant's name as a string. Writing to a `Vec` does not fail, so neither
/// does the call.
#[verifier::external_body]
fn serialize_unit_variant(index: u32, variant: &'static str) -> (res: Vec<u8>)
    ensures
        res@ == encode_utf8(json_string(variant@)),
{
    let mut json = serde_json::Serializer::new(Vec::new());
    json.serialize_unit_variant("Proto", index, variant).unwrap();
    json.into_inner()
}

impl Proto {
    /// The JSON document that is sent for the message: the name of its kind, and
    /// what it carries.
    pub fn into_json(self) -> (res: Vec<u8>)
        ensures
            res@ == proto_json(self@),
            read_document(res@) == Some(
                match self {
                    Proto::Init(infohash) => Json::Object(
                        seq![
                            (
                                "Init"@,
                                Json::List(infohash@.map_values(|b: u8| Json::Number(b as nat))),
                            ),
                        ],
                    ),
                    Proto::Request(index) => Json::Object(
                        seq![("Request"@, Json::Number(index as nat))],
                    ),
                    Proto::Data(Some(data)) => Json::Object(
                        seq![
                            (
                                "Data"@,
                                Json::List(data@.map_values(|b: u8| Json::Number(b as nat))),
                            ),
                        ],
                    ),
                    Proto::Data(None) => Json::Object(seq![("Data"@, Json::Null)]),
                    Proto::Error(text) => Json::Object(seq![("Error"@, Json::Text(text@))]),
                    Proto::Fin => Json::Text("Fin"@),
                },
            ),
    {
        proof {
            law_document_says_the_message(self@);
        }
        match self {
            Proto::Init(infohash) => serialize_bytes_variant(0, "Init", &Some(infohash)),
            Proto::Request(index) => serialize_number_variant(1, "Request", index),
            Proto::Data(data) => serialize_bytes_variant(2, "Data", &data),
            Proto::Error(text) => serialize_text_variant(3, "Error", text.as_str()),
            Proto::Fin => serialize_unit_variant(4, "Fin"),
        }
    }

    /// The message as it is shown to a reader.
    pub fn debug(&self) -> (res: String)
        ensures
            res@ == proto_debug(*self),
            match *self {
                Proto::Init(infohash) => res@ == "Init("@ + bytes_debug(infohash@) + ")"@,
                Proto::Request(index) => res@ == "Request("@ + decimal(index as nat) + ")"@,
                Proto::Data(Some(data)) => res@ == "Data(Some("@ + bytes_debug(data@) + "))"@,
                Proto::Data(None) => res@ == "Data(None)"@,
                Proto::Error(text) => res@ == "Error("@ + str_debug(text@) + ")"@,
                Proto::Fin => res@ == "Fin"@,
            },
    {
        match self {
            Proto::Init(infohash) => {
                let mut text = String::from_str("Init(");
                text.append(debug_bytes(infohash.as_slice()).as_str());
                text.append(")");
                text
            },
            Proto::Request(index) => {
                let mut text = String::from_str("Request(");
                push_decimal(&mut text, *index);
                text.append(")");
                text
            },
            Proto::Data(Some(data)) => {
                let mut text = String::from_str("Data(Some(");
                text.append(debug_bytes(data.as_slice()).as_str());
                text.append("))");
                text
            },
            Proto::Data(None) => String::from_str("Data(None)"),
            Proto::Error(error) => {
                let mut text = String::from_str("Error(");
                text.append(quoted(error.as_str()).as_str());
                text.append(")");
                text
            },
            Proto::Fin => String::from_str("Fin"),
        }
    }
}

impl ReadError {
    /// What the failed read is called.
    pub fn text(self) -> (res: String)
        ensures
            res@ == read_error_text(self),
            self is Receive ==> res@ == "failed to read a proto message"@,
            self is Deserialize ==> res@ == "serde failed to deserialized a proto message"@,
    {
        match self {
            ReadError::Receive => String::from_str("failed to read a proto message"),
            ReadError::Deserialize => String::from_str(
                "serde failed to deserialized a proto message",
            ),
        }
    }
}

/// Whoever reads the document of a message finds the name of its kind and what the
/// message carries.
pub proof fn law_document_says_the_message(message: ProtoView)
    ensures
        read_document(proto_json(message)) == Some(
            match message {
                ProtoView::Init(infohash) => Json::Object(
                    seq![
                        (
                            "Init"@,
                            Json::List(infohash.map_values(|b: u8| Json::Number(b as nat))),
                        ),
                    ],
                ),
                ProtoView::Request(index) => Json::Object(
                    seq![("Request"@, Json::Number(index as nat))],
                ),
                ProtoView::Data(Some(data)) => Json::Object(
                    seq![("Data"@, Json::List(data.map_values(|b: u8| Json::Number(b as nat))))],
                ),
                ProtoView::Data(None) => Json::Object(seq![("Data"@, Json::Null)]),
                ProtoView::Error(text) => Json::Object(seq![("Error"@, Json::Text(text))]),
                ProtoView::Fin => Json::Text("Fin"@),
            },
        ),
{
    lemma_read_document(proto_text(message));
    let end = seq!['}'];
    match message {
        ProtoView::Init(infohash) => {
            let written = json_opt_bytes(Some(infohash));
            let value = Json::List(infohash.map_values(|b: u8| Json::Number(b as nat)));
            lemma_read_opt_bytes(Some(infohash), end);
            lemma_read_variant("Init"@, written, value);
        },
        ProtoView::Request(index) => {
            lemma_read_number(index as nat, end);
            lemma_read_variant("Request"@, decimal(index as nat), Json::Number(index as nat));
        },
        ProtoView::Data(Some(data)) => {
            let written = json_opt_bytes(Some(data));
            let value = Json::List(data.map_values(|b: u8| Json::Number(b as nat)));
            lemma_read_opt_bytes(Some(data), end);
            lemma_read_variant("Data"@, written, value);
        },
        ProtoView::Data(None) => {
            lemma_read_opt_bytes(None, end);
            lemma_read_variant("Data"@, json_opt_bytes(None), Json::Null);
        },
        ProtoView::Error(text) => {
            lemma_read_string(text, end);
            lemma_read_variant("Error"@, json_string(text), Json::Text(text));
        },
        ProtoView::Fin => {
            let none = Seq::<char>::empty();
            lemma_read_string("Fin"@, none);
            assert(json_string("Fin"@) + none =~= json_string("Fin"@));
        },
    }
}

/// A message is shown by the name of its kind with what it carries in brackets.
pub proof fn law_message_is_shown_with_what_it_carries(message: Proto)
    ensures
        proto_debug(message) == (match message {
            Proto::Init(infohash) => "Init("@ + bytes_debug(infohash@) + ")"@,
            Proto::Request(index) => "Request("@ + decimal(index as nat) + ")"@,
            Proto::Data(Some(data)) => "Data(Some("@ + bytes_debug(data@) + "))"@,
            Proto::Data(None) => "Data(None)"@,
            Proto::Error(text) => "Error("@ + str_debug(text@) + ")"@,
            Proto::Fin => "Fin"@,
        }),
{
}

/// A message is read from a buffer of half a kibibyte.
pub proof fn law_reader_takes_half_a_kibibyte()
    ensures
        READER_BUF_CAPACITY == 512,
{
}

/// The name under which a message other than the last is sent, and its value.
spec fn variant_of(message: ProtoView) -> (Seq<char>, Seq<char>) {
    match message {
        ProtoView::Init(infohash) => ("Init"@, json_opt_bytes(Some(infohash))),
        ProtoView::Request(index) => ("Request"@, decimal(index as nat)),
        ProtoView::Data(data) => ("Data"@, json_opt_bytes(data)),
        ProtoView::Error(text) => ("Error"@, json_string(text)),
        ProtoView::Fin => ("Fin"@, Seq::empty()),
    }
}

/// Different messages are sent as different documents.
pub proof fn law_documents_tell_messages_apart(a: ProtoView, b: ProtoView)
    requires
        a != b,
    ensures
        proto_json(a) != proto_json(b),
{
    if proto_json(a) == proto_json(b) {
        lemma_utf8_tells(proto_text(a), proto_text(b));
        assert(a is Fin <==> proto_text(a)[0] == '"');
        assert(b is Fin <==> proto_text(b)[0] == '"');
        lemma_variant_tells(variant_of(a).0, variant_of(a).1, variant_of(b).0, variant_of(b).1);
        reveal_strlit("Init");
        reveal_strlit("Request");
        reveal_strlit("Data");
        reveal_strlit("Error");
        assert("Init"@[0] == 'I' && "Request"@[0] == 'R' && "Data"@[0] == 'D' && "Error"@[0] == 'E');
        match (a, b) {
            (ProtoView::Init(x), ProtoView::Init(y)) => lemma_opt_bytes_tell(Some(x), Some(y)),
            (ProtoView::Request(x), ProtoView::Request(y)) => lemma_decimal_tells(
                x as nat,
                y as nat,
            ),
            (ProtoView::Data(x), ProtoView::Data(y)) => lemma_opt_bytes_tell(x, y),
            (ProtoView::Error(x), ProtoView::Error(y)) => lemma_string_tells(
                x,
                Seq::empty(),
                y,
                Seq::empty(),
            ),
            _ => {},
        }
    }
}

} // verus!
