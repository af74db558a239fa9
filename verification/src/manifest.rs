//! Manifests: what a node has to know of a file to download or to share it.

use crate::digest::{same_bytes, sha1, sha1_digest, DIGEST_LEN};
use crate::frame::{encode, first_payload, framed, law_frame_round_trip, FrameError, MAX_PAYLOAD_LEN};
use crate::json::{
    json_byte_strings, json_field, json_string, lemma_byte_strings_tell, lemma_number_tells, lemma_same_rest,
    lemma_simple_chars, lemma_string_tells, lemma_utf8_tells, stops,
};
use crate::json_reader::{
    byte_list, lemma_read_byte_strings, lemma_read_document, lemma_read_four_fields,
    lemma_read_number, lemma_read_string, read_document, written_as, Json,
};
use crate::path::{
    file_name_of, is_part_of, is_plain_path, path_debug, path_file_name, shown_as,
};
use crate::text::decimal;
use serde::ser::{SerializeStruct, Serializer};
use std::sync::Arc;
use vstd::prelude::*;
use vstd::std_specs::cmp::PartialEqSpec;
use vstd::utf8::encode_utf8;

verus! {

/// A manifest that several owners share.
pub type ManifestsT = Arc<Manifest>;

/// The length of the pieces that a file is cut into.
pub const PIECE_LENGTH: usize = 262_144;

/// What describes a file.
#[derive(Clone, Debug, Hash)]
pub struct ManifestInner {
    pub filename: String,
    pub file_size: usize,
    pub piece_size: usize,
    /// The digest of each piece of the file, in order.
    pub sharps: Vec<Vec<u8>>,
}

/// A [`ManifestInner`] as mathematical values.
#[verifier::ext_equal]
pub struct ManifestView {
    pub filename: Seq<char>,
    pub file_size: usize,
    pub piece_size: usize,
    pub sharps: Seq<Seq<u8>>,
}

/// Byte strings as mathematical values.
pub open spec fn byte_strings(strings: Seq<Vec<u8>>) -> Seq<Seq<u8>> {
    strings.map_values(|s: Vec<u8>| s@)
}

impl View for ManifestInner {
    type V = ManifestView;

    open spec fn view(&self) -> ManifestView {
        ManifestView {
            filename: self.filename@,
            file_size: self.file_size,
            piece_size: self.piece_size,
            sharps: byte_strings(self.sharps@),
        }
    }
}

/// The pieces of `data`, each `length` bytes long but for the last, which may
/// be shorter.
pub open spec fn pieces(data: Seq<u8>, length: nat) -> Seq<Seq<u8>>
    decreases data.len(),
{
    if length == 0 || data.len() == 0 {
        Seq::empty()
    } else if data.len() <= length {
        seq![data]
    } else {
        seq![data.take(length as int)] + pieces(data.skip(length as int), length)
    }
}

/// The digest of each piece of `data`.
pub open spec fn piece_digests(data: Seq<u8>, length: nat) -> Seq<Seq<u8>> {
    pieces(data, length).map_values(|piece: Seq<u8>| sha1_digest(piece))
}

/// What describes a file with this name and these contents.
pub open spec fn description(filename: Seq<char>, data: Seq<u8>) -> ManifestView {
    ManifestView {
        filename,
        file_size: data.len() as usize,
        piece_size: PIECE_LENGTH,
        sharps: piece_digests(data, PIECE_LENGTH as nat),
    }
}

/// The text of the JSON document of a description: an object with its four
/// fields, in this order.
pub open spec fn manifest_text(
    filename: Seq<char>,
    file_size: usize,
    piece_size: usize,
    sharps: Seq<Seq<u8>>,
) -> Seq<char> {
    "{\"filename\":"@ + json_string(filename) + ",\"file_size\":"@ + decimal(file_size as nat)
        + ",\"piece_size\":"@ + decimal(piece_size as nat) + ",\"sharps\":"@ + json_byte_strings(
        sharps,
    ) + "}"@
}

/// The JSON document of a description, in bytes.
pub open spec fn manifest_json(
    filename: Seq<char>,
    file_size: usize,
    piece_size: usize,
    sharps: Seq<Seq<u8>>,
) -> Seq<u8> {
    encode_utf8(manifest_text(filename, file_size, piece_size, sharps))
}

/// The document of a description.
pub open spec fn json_of(inner: ManifestView) -> Seq<u8> {
    manifest_json(inner.filename, inner.file_size, inner.piece_size, inner.sharps)
}

/// The infohash of a description: the digest of its JSON document.
pub open spec fn infohash_of(inner: ManifestView) -> Seq<u8> {
    sha1_digest(json_of(inner))
}

/// Drives a `serde_json::Serializer` through a struct with four fields of these
/// names and values, in the calls that `serde` documents for one:
/// `serialize_struct`, a `serialize_field` for each field, and `end`. It writes an
/// object without spaces: names and strings with their quotes, backslashes and
/// control characters escaped, integers in decimal, and lists as their items with
/// commas between them. Writing to a `Vec` does not fail, so neither does a call.
#[verifier::external_body]
fn serialize_four_fields(
    first: (&'static str, &str),
    second: (&'static str, usize),
    third: (&'static str, usize),
    fourth: (&'static str, &Vec<Vec<u8>>),
) -> (res: Vec<u8>)
    ensures
        res@ == encode_utf8(
            seq!['{'] + json_field(first.0@, json_string(first.1@)) + seq![','] + json_field(
                second.0@,
                decimal(second.1 as nat),
            ) + seq![','] + json_field(third.0@, decimal(third.1 as nat)) + seq![',']
                + json_field(fourth.0@, json_byte_strings(byte_strings(fourth.1@))) + seq!['}'],
        ),
{
    let mut json = serde_json::Serializer::new(Vec::new());
    let mut fields = json.serialize_struct("ManifestInner", 4).unwrap();
    fields.serialize_field(first.0, first.1).unwrap();
    fields.serialize_field(second.0, &second.1).unwrap();
    fields.serialize_field(third.0, &third.1).unwrap();
    fields.serialize_field(fourth.0, fourth.1).unwrap();
    fields.end().unwrap();
    json.into_inner()
}

proof fn lemma_field_names()
    ensures
        seq!['{'] + json_string("filename"@) + seq![':'] == "{\"filename\":"@,
        seq![','] + json_string("file_size"@) + seq![':'] == ",\"file_size\":"@,
        seq![','] + json_string("piece_size"@) + seq![':'] == ",\"piece_size\":"@,
        seq![','] + json_string("sharps"@) + seq![':'] == ",\"sharps\":"@,
{
    reveal_strlit("filename");
    reveal_strlit("file_size");
    reveal_strlit("piece_size");
    reveal_strlit("sharps");
    reveal_strlit("{\"filename\":");
    reveal_strlit(",\"file_size\":");
    reveal_strlit(",\"piece_size\":");
    reveal_strlit(",\"sharps\":");
    lemma_simple_chars("filename"@);
    lemma_simple_chars("file_size"@);
    lemma_simple_chars("piece_size"@);
    lemma_simple_chars("sharps"@);
    assert(seq!['{'] + json_string("filename"@) + seq![':'] =~= "{\"filename\":"@);
    assert(seq![','] + json_string("file_size"@) + seq![':'] =~= ",\"file_size\":"@);
    assert(seq![','] + json_string("piece_size"@) + seq![':'] =~= ",\"piece_size\":"@);
    assert(seq![','] + json_string("sharps"@) + seq![':'] =~= ",\"sharps\":"@);
}

/// The text of a description is that of an object with its four fields.
proof fn lemma_fields_make_text(inner: ManifestView)
    ensures
        seq!['{'] + json_field("filename"@, json_string(inner.filename)) + seq![','] + json_field(
            "file_size"@,
            decimal(inner.file_size as nat),
        ) + seq![','] + json_field("piece_size"@, decimal(inner.piece_size as nat)) + seq![',']
            + json_field("sharps"@, json_byte_strings(inner.sharps)) + seq!['}'] == manifest_text(
            inner.filename,
            inner.file_size,
            inner.piece_size,
            inner.sharps,
        ),
{
    lemma_field_names();
    let name = json_string(inner.filename);
    let size = decimal(inner.file_size as nat);
    let piece = decimal(inner.piece_size as nat);
    let lists = json_byte_strings(inner.sharps);
    let to_name = "{\"filename\":"@ + name;
    let to_size = to_name + ",\"file_size\":"@ + size;
    let to_piece = to_size + ",\"piece_size\":"@ + piece;
    assert(seq!['{'] + json_field("filename"@, name) =~= to_name);
    assert(to_name + seq![','] + json_field("file_size"@, size) =~= to_name + (seq![',']
        + json_string("file_size"@) + seq![':']) + size);
    assert(to_size + seq![','] + json_field("piece_size"@, piece) =~= to_size + (seq![',']
        + json_string("piece_size"@) + seq![':']) + piece);
    assert(to_piece + seq![','] + json_field("sharps"@, lists) =~= to_piece + (seq![',']
        + json_string("sharps"@) + seq![':']) + lists);
    reveal_strlit("}");
    assert("}"@ =~= seq!['}']);
}

/// Whoever reads the document of a description finds an object with four fields,
/// and under the name of each what the description says of it.
pub proof fn law_document_says_what_is_described(inner: ManifestView)
    ensures
        read_document(json_of(inner)) == Some(
            Json::Object(
                seq![
                    ("filename"@, Json::Text(inner.filename)),
                    ("file_size"@, Json::Number(inner.file_size as nat)),
                    ("piece_size"@, Json::Number(inner.piece_size as nat)),
                    (
                        "sharps"@,
                        Json::List(
                            inner.sharps.map_values(
                                |sharp: Seq<u8>|
                                    Json::List(sharp.map_values(|b: u8| Json::Number(b as nat))),
                            ),
                        ),
                    ),
                ],
            ),
        ),
{
    let lists = Json::List(inner.sharps.map_values(|s: Seq<u8>| byte_list(s)));
    assert forall|rest: Seq<char>| stops(rest) implies written_as(
        json_string(inner.filename),
        Json::Text(inner.filename),
        rest,
    ) by {
        lemma_read_string(inner.filename, rest);
    }
    assert forall|rest: Seq<char>| stops(rest) implies written_as(
        decimal(inner.file_size as nat),
        Json::Number(inner.file_size as nat),
        rest,
    ) by {
        lemma_read_number(inner.file_size as nat, rest);
    }
    assert forall|rest: Seq<char>| stops(rest) implies written_as(
        decimal(inner.piece_size as nat),
        Json::Number(inner.piece_size as nat),
        rest,
    ) by {
        lemma_read_number(inner.piece_size as nat, rest);
    }
    assert forall|rest: Seq<char>| stops(rest) implies written_as(
        json_byte_strings(inner.sharps),
        lists,
        rest,
    ) by {
        lemma_read_byte_strings(inner.sharps, rest);
    }
    lemma_read_four_fields(
        ("filename"@, json_string(inner.filename), Json::Text(inner.filename)),
        (
            "file_size"@,
            decimal(inner.file_size as nat),
            Json::Number(inner.file_size as nat),
        ),
        (
            "piece_size"@,
            decimal(inner.piece_size as nat),
            Json::Number(inner.piece_size as nat),
        ),
        ("sharps"@, json_byte_strings(inner.sharps), lists),
    );
    lemma_fields_make_text(inner);
    lemma_read_document(
        manifest_text(inner.filename, inner.file_size, inner.piece_size, inner.sharps),
    );
    assert(inner.sharps.map_values(|s: Seq<u8>| byte_list(s)) =~= inner.sharps.map_values(
        |sharp: Seq<u8>| Json::List(sharp.map_values(|b: u8| Json::Number(b as nat))),
    ));
}

impl ManifestInner {
    /// The JSON document of the description: an object that holds, under the name
    /// of each field, what the description says of it.
    pub fn json(&self) -> (res: Vec<u8>)
        ensures
            res@ == json_of(self@),
            read_document(res@) == Some(
                Json::Object(
                    seq![
                        ("filename"@, Json::Text(self.filename@)),
                        ("file_size"@, Json::Number(self.file_size as nat)),
                        ("piece_size"@, Json::Number(self.piece_size as nat)),
                        (
                            "sharps"@,
                            Json::List(
                                self.sharps@.map_values(
                                    |sharp: Vec<u8>|
                                        Json::List(
                                            sharp@.map_values(|b: u8| Json::Number(b as nat)),
                                        ),
                                ),
                            ),
                        ),
                    ],
                ),
            ),
    {
        proof {
            lemma_fields_make_text(self@);
            law_document_says_what_is_described(self@);
            assert(self@.sharps.map_values(
                |sharp: Seq<u8>| Json::List(sharp.map_values(|b: u8| Json::Number(b as nat))),
            ) =~= self.sharps@.map_values(
                |sharp: Vec<u8>| Json::List(sharp@.map_values(|b: u8| Json::Number(b as nat))),
            ));
        }
        serialize_four_fields(
            ("filename", self.filename.as_str()),
            ("file_size", self.file_size),
            ("piece_size", self.piece_size),
            ("sharps", &self.sharps),
        )
    }

    /// The digest of the JSON document, by which peers name the file.
    pub fn infohash(&self) -> (res: Vec<u8>)
        ensures
            res@ == infohash_of(self@),
            res@ == sha1_digest(json_of(self@)),
            res@.len() == DIGEST_LEN,
    {
        let json_view = self.json();
        sha1(json_view.as_slice())
    }
}

impl PartialEq for ManifestInner {
    fn eq(&self, other: &Self) -> (res: bool) {
        if self.file_size != other.file_size || self.piece_size != other.piece_size {
            return false;
        }
        if !(self.filename == other.filename) {
            return false;
        }
        same_byte_strings(&self.sharps, &other.sharps)
    }
}

impl vstd::std_specs::cmp::PartialEqSpecImpl for ManifestInner {
    open spec fn obeys_eq_spec() -> bool {
        true
    }

    open spec fn eq_spec(&self, other: &Self) -> bool {
        self@ == other@
    }
}

impl Eq for ManifestInner {

}

/// Whether the two lists of byte strings are equal.
fn same_byte_strings(a: &Vec<Vec<u8>>, b: &Vec<Vec<u8>>) -> (res: bool)
    ensures
        res == (byte_strings(a@) == byte_strings(b@)),
{
    if a.len() != b.len() {
        assert(byte_strings(a@).len() != byte_strings(b@).len());
        return false;
    }
    let mut i: usize = 0;
    while i < a.len()
        invariant
            i <= a@.len(),
            a@.len() == b@.len(),
            forall|j: int| 0 <= j < i ==> a@[j]@ == b@[j]@,
        decreases a@.len() - i,
    {
        if !same_bytes(a[i].as_slice(), b[i].as_slice()) {
            assert(byte_strings(a@)[i as int] != byte_strings(b@)[i as int]);
            return false;
        }
        i += 1;
    }
    assert(byte_strings(a@) =~= byte_strings(b@));
    true
}

/// What is said of a path that does not end in the name of a file.
pub open spec fn nameless_text(shown: Seq<char>) -> Seq<char> {
    "failed to get "@ + shown + " file filename"@
}

/// What describes a file, with its infohash.
#[derive(Debug)]
pub struct Manifest {
    pub inner: ManifestInner,
    pub infohash: Vec<u8>,
}

impl Manifest {
    /// Whether the infohash is that of the description.
    pub open spec fn wf(&self) -> bool {
        self.infohash@ == infohash_of(self.inner@)
    }

    /// The manifest with this description.
    pub fn from_inner(inner: ManifestInner) -> (res: Self)
        ensures
            res.wf(),
            res.inner == inner,
            res.infohash@ == sha1_digest(json_of(inner@)),
            res.infohash@.len() == DIGEST_LEN,
    {
        let infohash = inner.infohash();
        Manifest { inner, infohash }
    }

    /// Takes the name that was found in a path, or tells that there is none.
    pub fn filename_verdict(shown: &str, name: Option<String>) -> (res: Result<String, String>)
        ensures
            match name {
                Some(name) => res == Ok::<String, String>(name),
                None => {
                    &&& res matches Err(text)
                    &&& text@ == nameless_text(shown@)
                    &&& text@ == "failed to get "@ + shown@ + " file filename"@
                },
            },
    {
        match name {
            Some(name) => Ok(name),
            None => {
                let mut text = String::from_str("failed to get ");
                text.append(shown);
                text.append(" file filename");
                Err(text)
            },
        }
    }

    /// The name of the file at `path`, under which it is described.
    pub fn filename_at(path: &str) -> (res: Result<String, String>)
        ensures
            is_plain_path(path@) ==> match file_name_of(path@) {
                Some(name) => res matches Ok(found) && found@ == name,
                None => res is Err,
            },
            match res {
                Ok(name) => name@.len() > 0 && is_part_of(name@, path@),
                Err(text) => exists|shown: Seq<char>|
                    {
                        &&& #[trigger] shown_as(shown, path@)
                        &&& text@ == nameless_text(shown)
                        &&& text@ == "failed to get "@ + shown + " file filename"@
                    },
            },
    {
        let shown = path_debug(path);
        let name = path_file_name(path);
        Self::filename_verdict(shown.as_str(), name)
    }

    /// The manifest of a file with this name and these contents.
    pub fn from_data(filename: String, data: &[u8]) -> (res: Self)
        ensures
            res.wf(),
            res.inner@ == description(filename@, data@),
            res.inner.filename@ == filename@,
            res.inner.file_size == data@.len(),
            res.inner.piece_size == 262_144,
            res.inner.sharps@.len() == (data@.len() + 262_143) / 262_144,
            forall|i: int|
                0 <= i < res.inner.sharps@.len() ==> (#[trigger] res.inner.sharps@[i])@
                    == sha1_digest(
                    data@.subrange(
                        262_144 * i,
                        if 262_144 * i + 262_144 <= data@.len() {
                            262_144 * i + 262_144
                        } else {
                            data@.len() as int
                        },
                    ),
                ),
            res.infohash@ == sha1_digest(json_of(res.inner@)),
            forall|i: int| 0 <= i < res.inner.sharps@.len() ==> res.inner.sharps@[i]@.len() == DIGEST_LEN,
            res.infohash@.len() == DIGEST_LEN,
    {
        let pieces_length = Self::calc_pieces_length(data.len());
        let file_size = data.len();
        let sharps = Self::data_to_sharps(data, pieces_length);
        let inner = ManifestInner { filename, file_size, piece_size: pieces_length, sharps };
        Self::from_inner(inner)
    }

    fn calc_pieces_length(_file_size: usize) -> (res: usize)
        ensures
            res == PIECE_LENGTH,
    {
        PIECE_LENGTH
    }

    /// The digest of each piece of `data`, in order.
    pub fn data_to_sharps(data: &[u8], pieces_length: usize) -> (res: Vec<Vec<u8>>)
        requires
            pieces_length > 0,
        ensures
            byte_strings(res@) == piece_digests(data@, pieces_length as nat),
            res@.len() == (data@.len() + pieces_length - 1) / pieces_length as int,
            forall|i: int|
                0 <= i < res@.len() ==> (#[trigger] res@[i])@ == sha1_digest(
                    data@.subrange(
                        i * pieces_length,
                        if i * pieces_length + pieces_length <= data@.len() {
                            i * pieces_length + pieces_length
                        } else {
                            data@.len() as int
                        },
                    ),
                ),
            forall|i: int| 0 <= i < res@.len() ==> res@[i]@.len() == DIGEST_LEN,
    {
        let mut sharps: Vec<Vec<u8>> = Vec::new();
        let mut start: usize = 0;
        let ghost length = pieces_length as nat;
        assert(data@.skip(0) =~= data@);
        assert(byte_strings(sharps@) + piece_digests(data@, length) =~= piece_digests(
            data@,
            length,
        ));
        while start < data.len()
            invariant
                length == pieces_length,
                pieces_length > 0,
                start <= data@.len(),
                forall|i: int| 0 <= i < sharps@.len() ==> sharps@[i]@.len() == DIGEST_LEN,
                piece_digests(data@, length) == byte_strings(sharps@) + piece_digests(
                    data@.skip(start as int),
                    length,
                ),
            decreases data@.len() - start,
        {
            let end = if data.len() - start > pieces_length {
                start + pieces_length
            } else {
                data.len()
            };
            let ghost rest = data@.skip(start as int);
            let ghost before = sharps@;
            let chunk = &data[start..end];
            let chunk_hash = sha1(chunk);
            sharps.push(chunk_hash);
            proof {
                assert(chunk@ =~= rest.take(end - start));
                assert(byte_strings(sharps@) =~= byte_strings(before).push(sha1_digest(chunk@)));
                assert(data@.skip(end as int) =~= rest.skip(end - start));
                if rest.len() <= length {
                    assert(chunk@ =~= rest);
                    assert(piece_digests(rest, length) =~= seq![sha1_digest(chunk@)]);
                    assert(piece_digests(data@.skip(end as int), length) =~= Seq::empty());
                } else {
                    assert(piece_digests(rest, length) =~= seq![sha1_digest(chunk@)]
                        + piece_digests(rest.skip(length as int), length));
                }
                assert(byte_strings(before) + piece_digests(rest, length) =~= byte_strings(sharps@)
                    + piece_digests(data@.skip(end as int), length));
            }
            start = end;
        }
        assert(byte_strings(sharps@) + piece_digests(data@.skip(start as int), length)
            =~= byte_strings(sharps@));
        proof {
            law_piece_count(data@, length);
            assert forall|i: int| 0 <= i < sharps@.len() implies (#[trigger] sharps@[i])@
                == sha1_digest(
                data@.subrange(
                    i * pieces_length,
                    if i * pieces_length + pieces_length <= data@.len() {
                        i * pieces_length + pieces_length
                    } else {
                        data@.len() as int
                    },
                ),
            ) by {
                assert(byte_strings(sharps@)[i] == sha1_digest(pieces(data@, length)[i]));
                law_piece_position(data@, length, i);
            }
        }
        sharps
    }

    /// What a manifest file holds: the JSON document of the description, in
    /// one frame. A document that is too long for a frame cannot be written.
    pub fn to_frame(&self) -> (res: Result<Vec<u8>, FrameError>)
        ensures
            match res {
                Ok(frame) => {
                    &&& json_of(self.inner@).len() <= MAX_PAYLOAD_LEN
                    &&& frame@ == framed(json_of(self.inner@))
                    &&& frame@.len() == 4 + json_of(self.inner@).len()
                    &&& frame@.skip(4) == json_of(self.inner@)
                },
                Err(error) => {
                    &&& json_of(self.inner@).len() > MAX_PAYLOAD_LEN
                    &&& error == FrameError::TooBig
                },
            },
    {
        let json = self.inner.json();
        encode(json.as_slice())
    }

    /// The infohash of the file.
    pub fn infohash(&self) -> (res: &[u8])
        ensures
            res@ == self.infohash@,
    {
        self.infohash.as_slice()
    }

    /// The digest of each piece of the file, in order.
    pub fn sharps(&self) -> (res: &[Vec<u8>])
        ensures
            res@ == self.inner.sharps@,
    {
        self.inner.sharps.as_slice()
    }

    /// The name of the file.
    pub fn filename(&self) -> (res: &str)
        ensures
            res@ == self.inner.filename@,
    {
        self.inner.filename.as_str()
    }

    /// The length of the pieces of the file.
    pub fn piece_size(&self) -> (res: usize)
        ensures
            res == self.inner.piece_size,
    {
        self.inner.piece_size
    }

    /// The length of the file.
    pub fn file_size(&self) -> (res: usize)
        ensures
            res == self.inner.file_size,
    {
        self.inner.file_size
    }

    /// The number of pieces of the file.
    pub fn pieces_count(&self) -> (res: usize)
        ensures
            res == self.inner.sharps@.len(),
    {
        self.inner.sharps.len()
    }
}

impl PartialEq for Manifest {
    fn eq(&self, other: &Self) -> (res: bool) {
        self.inner == other.inner
    }
}

impl vstd::std_specs::cmp::PartialEqSpecImpl for Manifest {
    open spec fn obeys_eq_spec() -> bool {
        true
    }

    open spec fn eq_spec(&self, other: &Self) -> bool {
        self.inner@ == other.inner@
    }
}

/// The pieces of a file, put together in order, are the file.
pub proof fn law_pieces_join(data: Seq<u8>, length: nat)
    requires
        length > 0,
    ensures
        pieces(data, length).flatten() == data,
    decreases data.len(),
{
    if data.len() == 0 {
        assert(pieces(data, length).flatten() =~= data);
    } else if data.len() <= length {
        pieces(data, length).lemma_flatten_one_element();
    } else {
        let rest = data.skip(length as int);
        law_pieces_join(rest, length);
        assert(pieces(data, length).drop_first() =~= pieces(rest, length));
        assert(data.take(length as int) + rest =~= data);
    }
}

/// There is a piece for each full piece length in the file, and one more where
/// something is left over.
pub proof fn law_piece_count(data: Seq<u8>, length: nat)
    requires
        length > 0,
    ensures
        pieces(data, length).len() == (data.len() + length - 1) / length as int,
    decreases data.len(),
{
    let n = length as int;
    let size = data.len() as int;
    if size == 0 {
        assert((n - 1) / n == 0) by (nonlinear_arith)
            requires
                n > 0,
        ;
    } else if size <= n {
        assert((size + n - 1) / n == 1) by (nonlinear_arith)
            requires
                0 < size <= n,
        ;
    } else {
        law_piece_count(data.skip(n), length);
        assert(1 + (size - n + n - 1) / n == (size + n - 1) / n) by (nonlinear_arith)
            requires
                n > 0,
        ;
    }
}

/// The piece with index `i` starts `i` piece lengths into the file and ends a
/// piece length later, or where the file ends.
pub proof fn law_piece_position(data: Seq<u8>, length: nat, i: int)
    requires
        length > 0,
        0 <= i < pieces(data, length).len(),
    ensures
        i * length < data.len(),
        pieces(data, length)[i] == data.subrange(
            i * length,
            if i * length + length <= data.len() {
                i * length + length
            } else {
                data.len() as int
            },
        ),
    decreases data.len(),
{
    if i == 0 {
        assert(i * length == 0) by (nonlinear_arith)
            requires
                i == 0,
        ;
    }
    if data.len() <= length {
        assert(i == 0);
        assert(data.subrange(0, data.len() as int) =~= data);
    } else if i == 0 {
        assert(data.take(length as int) =~= data.subrange(0, length as int));
    } else {
        let rest = data.skip(length as int);
        law_piece_position(rest, length, i - 1);
        assert((i - 1) * length + length == i * length) by (nonlinear_arith);
        assert(pieces(data, length)[i] == pieces(rest, length)[i - 1]);
        let start = (i - 1) * length;
        let end = if start + length <= rest.len() {
            start + length
        } else {
            rest.len() as int
        };
        assert(start >= 0) by (nonlinear_arith)
            requires
                start == (i - 1) * length,
                i >= 1,
                length >= 0,
        ;
        assert(rest.subrange(start, end) =~= data.subrange(start + length, end + length));
    }
}

/// A manifest lists, for each piece of the file, the digest of that piece, and
/// this does not depend on the file's name.
pub proof fn law_sharps_are_piece_digests(filename: Seq<char>, data: Seq<u8>, i: int)
    requires
        0 <= i < pieces(data, PIECE_LENGTH as nat).len(),
    ensures
        description(filename, data).sharps.len() == pieces(data, PIECE_LENGTH as nat).len(),
        description(filename, data).sharps[i] == sha1_digest(pieces(data, PIECE_LENGTH as nat)[i]),
{
}

/// A manifest gives the name and the length of its file as they are, and lists one
/// digest for each stretch of the file from a multiple of the piece length to the
/// next, or to the end.
pub proof fn law_description_is_of_the_file(filename: Seq<char>, data: Seq<u8>, i: int)
    requires
        data.len() <= usize::MAX,
    ensures
        description(filename, data).filename == filename,
        description(filename, data).file_size == data.len(),
        description(filename, data).piece_size == 262_144,
        description(filename, data).sharps.len() == (data.len() + 262_143) / 262_144,
        0 <= i && 262_144 * i < data.len() ==> description(filename, data).sharps[i]
            == sha1_digest(
            data.subrange(
                262_144 * i,
                if 262_144 * i + 262_144 <= data.len() {
                    262_144 * i + 262_144
                } else {
                    data.len() as int
                },
            ),
        ),
{
    let length = PIECE_LENGTH as nat;
    law_piece_count(data, length);
    if 0 <= i && 262_144 * i < data.len() {
        assert(i < pieces(data, length).len());
        law_piece_position(data, length, i);
    }
}

/// The view of a description keeps every field: two descriptions with one view
/// agree in each of them.
pub proof fn law_view_keeps_every_field(a: ManifestInner, b: ManifestInner)
    ensures
        a@ == b@ <==> {
            &&& a.filename@ == b.filename@
            &&& a.file_size == b.file_size
            &&& a.piece_size == b.piece_size
            &&& a.sharps@.len() == b.sharps@.len()
            &&& forall|i: int|
                0 <= i < a.sharps@.len() ==> (#[trigger] a.sharps@[i])@ == b.sharps@[i]@
        },
{
    if a@ == b@ {
        assert(a@.sharps.len() == b@.sharps.len());
        assert forall|i: int| 0 <= i < a.sharps@.len() implies (#[trigger] a.sharps@[i])@
            == b.sharps@[i]@ by {
            assert(a@.sharps[i] == b@.sharps[i]);
        }
    }
    if a.sharps@.len() == b.sharps@.len() && (forall|i: int|
        0 <= i < a.sharps@.len() ==> (#[trigger] a.sharps@[i])@ == b.sharps@[i]@) {
        assert(a@.sharps =~= b@.sharps);
    }
}

/// Descriptions are equal where all their fields are, and manifests where their
/// descriptions are, whatever their infohashes.
pub proof fn law_equality_compares_every_field(a: Manifest, b: Manifest)
    ensures
        a.inner.eq_spec(&b.inner) <==> {
            &&& a.inner.filename@ == b.inner.filename@
            &&& a.inner.file_size == b.inner.file_size
            &&& a.inner.piece_size == b.inner.piece_size
            &&& a.inner.sharps@.len() == b.inner.sharps@.len()
            &&& forall|i: int|
                0 <= i < a.inner.sharps@.len() ==> (#[trigger] a.inner.sharps@[i])@
                    == b.inner.sharps@[i]@
        },
        a.eq_spec(&b) <==> a.inner.eq_spec(&b.inner),
{
    law_view_keeps_every_field(a.inner, b.inner);
}

/// Manifests that are equal have the same infohash.
pub proof fn law_equal_manifests_share_infohash(a: Manifest, b: Manifest)
    requires
        a.wf(),
        b.wf(),
        a.inner@ == b.inner@,
    ensures
        a.infohash@ == b.infohash@,
{
}

/// The text from behind the piece size, from behind the file size, and from
/// behind the name.
spec fn text_tails(inner: ManifestView) -> (Seq<char>, Seq<char>, Seq<char>) {
    let piece = ",\"sharps\":"@ + (json_byte_strings(inner.sharps) + "}"@);
    let size = ",\"piece_size\":"@ + (decimal(inner.piece_size as nat) + piece);
    let name = ",\"file_size\":"@ + (decimal(inner.file_size as nat) + size);
    (piece, size, name)
}

proof fn lemma_text_tails(inner: ManifestView)
    ensures
        manifest_text(inner.filename, inner.file_size, inner.piece_size, inner.sharps)
            == "{\"filename\":"@ + (json_string(inner.filename) + text_tails(inner).2),
        stops(text_tails(inner).0),
        stops(text_tails(inner).1),
{
    let (piece, size, name) = text_tails(inner);
    let start = "{\"filename\":"@ + json_string(inner.filename);
    let to_size = start + ",\"file_size\":"@ + decimal(inner.file_size as nat);
    let to_piece = to_size + ",\"piece_size\":"@ + decimal(inner.piece_size as nat);
    assert(to_piece + ",\"sharps\":"@ + json_byte_strings(inner.sharps) + "}"@ =~= to_piece + piece);
    assert(to_piece + piece =~= to_size + size);
    assert(to_size + size =~= start + name);
    assert(start + name =~= "{\"filename\":"@ + (json_string(inner.filename) + name));
    reveal_strlit(",\"piece_size\":");
    reveal_strlit(",\"sharps\":");
    assert(piece[0] == ',');
    assert(size[0] == ',');
}

/// Different descriptions have different documents.
pub proof fn law_documents_tell_descriptions_apart(a: ManifestView, b: ManifestView)
    requires
        a != b,
    ensures
        json_of(a) != json_of(b),
{
    if json_of(a) == json_of(b) {
        let text_a = manifest_text(a.filename, a.file_size, a.piece_size, a.sharps);
        let text_b = manifest_text(b.filename, b.file_size, b.piece_size, b.sharps);
        lemma_utf8_tells(text_a, text_b);
        lemma_text_tails(a);
        lemma_text_tails(b);
        let (piece_a, size_a, name_a) = text_tails(a);
        let (piece_b, size_b, name_b) = text_tails(b);
        lemma_same_rest(
            "{\"filename\":"@,
            json_string(a.filename) + name_a,
            json_string(b.filename) + name_b,
        );
        lemma_string_tells(a.filename, name_a, b.filename, name_b);
        lemma_same_rest(
            ",\"file_size\":"@,
            decimal(a.file_size as nat) + size_a,
            decimal(b.file_size as nat) + size_b,
        );
        lemma_number_tells(a.file_size as nat, size_a, b.file_size as nat, size_b);
        lemma_same_rest(
            ",\"piece_size\":"@,
            decimal(a.piece_size as nat) + piece_a,
            decimal(b.piece_size as nat) + piece_b,
        );
        lemma_number_tells(a.piece_size as nat, piece_a, b.piece_size as nat, piece_b);
        lemma_same_rest(
            ",\"sharps\":"@,
            json_byte_strings(a.sharps) + "}"@,
            json_byte_strings(b.sharps) + "}"@,
        );
        lemma_byte_strings_tell(a.sharps, "}"@, b.sharps, "}"@);
    }
}

/// The infohash of a manifest is the digest of a document that says what the
/// manifest describes.
pub proof fn law_infohash_is_the_digest_of_the_document(manifest: Manifest)
    requires
        manifest.wf(),
    ensures
        manifest.infohash@ == sha1_digest(json_of(manifest.inner@)),
        infohash_of(manifest.inner@) == sha1_digest(json_of(manifest.inner@)),
{
}

/// Different descriptions have different infohashes, unless their documents are
/// different texts with one digest.
pub proof fn law_infohash_tells_manifests_apart(a: ManifestView, b: ManifestView)
    requires
        a != b,
        sha1_digest(json_of(a)) == sha1_digest(json_of(b)) ==> json_of(a) == json_of(b),
    ensures
        infohash_of(a) != infohash_of(b),
{
    law_documents_tell_descriptions_apart(a, b);
}

/// Two manifests are equal exactly where their infohashes are, unless their
/// documents are different texts with one digest.
pub proof fn law_infohash_identifies_a_manifest(a: Manifest, b: Manifest)
    requires
        a.wf(),
        b.wf(),
        sha1_digest(json_of(a.inner@)) == sha1_digest(json_of(b.inner@)) ==> json_of(a.inner@)
            == json_of(b.inner@),
    ensures
        a.infohash@ == b.infohash@ <==> a.inner@ == b.inner@,
{
    if a.inner@ != b.inner@ {
        law_infohash_tells_manifests_apart(a.inner@, b.inner@);
    }
}

/// A file under another name is described by another name and has another
/// infohash, unless the two documents have one digest; all else stays.
pub proof fn law_renaming_changes_name_and_infohash(
    first: Seq<char>,
    second: Seq<char>,
    data: Seq<u8>,
)
    requires
        first != second,
    ensures
        description(first, data).file_size == description(second, data).file_size,
        description(first, data).piece_size == description(second, data).piece_size,
        description(first, data).sharps == description(second, data).sharps,
        description(first, data) != description(second, data),
        ({
            let a = json_of(description(first, data));
            let b = json_of(description(second, data));
            (sha1_digest(a) == sha1_digest(b) ==> a == b) ==> infohash_of(description(first, data))
                != infohash_of(description(second, data))
        }),
{
    let a = description(first, data);
    let b = description(second, data);
    assert(a.filename != b.filename);
    law_documents_tell_descriptions_apart(a, b);
}

/// Where the first part of a file is made of whole pieces, the pieces of the file
/// are those of its two parts.
pub proof fn law_pieces_of_aligned_parts(a: Seq<u8>, b: Seq<u8>, length: nat)
    requires
        length > 0,
        a.len() % length == 0,
    ensures
        pieces(a + b, length) == pieces(a, length) + pieces(b, length),
        piece_digests(a + b, length) == piece_digests(a, length) + piece_digests(b, length),
    decreases a.len(),
{
    let n = length as int;
    let whole = a + b;
    if a.len() == 0 {
        assert(whole =~= b);
        assert(pieces(whole, length) =~= pieces(a, length) + pieces(b, length));
    } else {
        let rest = a.skip(n);
        assert(a.len() >= n && (a.len() - n) % n == 0) by (nonlinear_arith)
            requires
                n > 0,
                a.len() > 0,
                a.len() % length == 0,
                length == n,
        ;
        law_pieces_of_aligned_parts(rest, b, length);
        assert(whole.skip(n) =~= rest + b);
        assert(whole.take(n) =~= a.take(n));
        if a.len() == n {
            assert(rest =~= Seq::empty());
            assert(a.take(n) =~= a);
            if whole.len() == n {
                assert(b =~= Seq::empty());
                assert(whole =~= a);
            }
        }
        assert(pieces(whole, length) =~= pieces(a, length) + pieces(b, length));
    }
    assert(piece_digests(whole, length) =~= piece_digests(a, length) + piece_digests(b, length));
}

/// The document of a manifest comes back out of the file it was written to.
pub proof fn law_manifest_file_round_trip(inner: ManifestView)
    requires
        json_of(inner).len() <= MAX_PAYLOAD_LEN,
    ensures
        first_payload(framed(json_of(inner))) == Ok::<_, FrameError>(Some(json_of(inner))),
{
    law_frame_round_trip(json_of(inner), Seq::empty());
    assert(framed(json_of(inner)) + Seq::<u8>::empty() =~= framed(json_of(inner)));
}

/// What comes back out of a manifest file is the document of the description that
/// was written, and of no other.
pub proof fn law_manifest_file_holds_one_description(written: ManifestView, read: ManifestView)
    requires
        json_of(written).len() <= MAX_PAYLOAD_LEN,
        first_payload(framed(json_of(written))) == Ok::<_, FrameError>(Some(json_of(read))),
    ensures
        read == written,
        infohash_of(read) == infohash_of(written),
{
    law_manifest_file_round_trip(written);
    if read != written {
        law_documents_tell_descriptions_apart(read, written);
    }
}

} // verus!
