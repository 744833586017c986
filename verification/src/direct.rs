use vstd::prelude::*;

use crate::cbor::{
    cbor_decoded, cbor_encoded, cbor_from_bytes, cbor_to_bytes, get_str, lemma_entries_tree,
    max_nesting, path_texts, tree_get, tree_get_str, tree_lookup, tree_walk, within_depth, CborTree,
    CborValue,
};
use crate::digest::append_bytes;
use crate::peer::{peer_id_parse, peer_id_text, PeerId};

verus! {

/// Why a direct-protocol message could not be read or written.
#[derive(Debug, PartialEq, Eq)]
pub enum DirectError {
    /// A lookup was asked for with no key at all.
    EmptyPath,
    /// The map holds no entry under this key.
    MissingField(String),
    /// The item looked into under this key is not a map.
    ExpectedMap(String),
    /// The entry under this key is not a text.
    NotText(String),
    /// A request names a type the protocol does not know.
    UnknownRequestType(String),
    /// A response names a type the protocol does not know.
    UnknownResponseType(String),
    /// A peer identity did not parse; libp2p's message.
    InvalidPeerId(String),
    /// The bytes are not a CBOR item; ciborium's message.
    InvalidCbor(String),
    /// A payload is longer than a frame's length field can count.
    PayloadTooBig,
}

/// A `DirectError` with its texts as sequences of characters.
pub enum DirectErrorView {
    EmptyPath,
    MissingField(Seq<char>),
    ExpectedMap(Seq<char>),
    NotText(Seq<char>),
    UnknownRequestType(Seq<char>),
    UnknownResponseType(Seq<char>),
    InvalidPeerId(Seq<char>),
    InvalidCbor(Seq<char>),
    PayloadTooBig,
}

impl View for DirectError {
    type V = DirectErrorView;

    open spec fn view(&self) -> DirectErrorView {
        match self {
            DirectError::EmptyPath => DirectErrorView::EmptyPath,
            DirectError::MissingField(k) => DirectErrorView::MissingField(k@),
            DirectError::ExpectedMap(k) => DirectErrorView::ExpectedMap(k@),
            DirectError::NotText(k) => DirectErrorView::NotText(k@),
            DirectError::UnknownRequestType(t) => DirectErrorView::UnknownRequestType(t@),
            DirectError::UnknownResponseType(t) => DirectErrorView::UnknownResponseType(t@),
            DirectError::InvalidPeerId(m) => DirectErrorView::InvalidPeerId(m@),
            DirectError::InvalidCbor(m) => DirectErrorView::InvalidCbor(m@),
            DirectError::PayloadTooBig => DirectErrorView::PayloadTooBig,
        }
    }
}

/// The codec of the direct protocol: CBOR messages in length-prefixed frames.
#[derive(Debug, Clone, Default)]
pub struct QalamDirect;

/// The name under which peers speak the direct protocol.
#[derive(Clone)]
pub struct QalamDirectProtocol;

impl QalamDirectProtocol {
    /// The protocol name.
    pub fn as_ref(&self) -> (name: &'static str)
        ensures
            name@ == "/hat/direct/0.1.0"@,
    {
        "/hat/direct/0.1.0"
    }
}

/// A request one peer sends another.
#[derive(Debug, Clone, Copy, PartialEq, Eq, Structural)]
pub enum QalamDirectRequest {
    /// Asks for the peer's identity and persona.
    Persona,
    /// Asks for a pong.
    Ping,
}

/// The answer to a request.
#[derive(Debug, Clone)]
pub enum QalamDirectResponse {
    /// The answering peer and the persona it goes by.
    Persona { peer: PeerId, ident: String },
    /// The answer to a ping.
    Pong,
}

/// A response with the peer as its bytes and the persona as its characters.
pub enum DirectResponseView {
    Persona { peer: Seq<u8>, ident: Seq<char> },
    Pong,
}

impl View for QalamDirectResponse {
    type V = DirectResponseView;

    open spec fn view(&self) -> DirectResponseView {
        match self {
            QalamDirectResponse::Persona { peer, ident } => DirectResponseView::Persona {
                peer: peer@,
                ident: ident@,
            },
            QalamDirectResponse::Pong => DirectResponseView::Pong,
        }
    }
}

/// A text item.
pub open spec fn text(s: Seq<char>) -> CborTree {
    CborTree::Text(s)
}

/// The type tag a request is sent under.
pub open spec fn request_tag(r: QalamDirectRequest) -> Seq<char> {
    match r {
        QalamDirectRequest::Ping => "ping"@,
        QalamDirectRequest::Persona => "persona"@,
    }
}

/// The CBOR item a request is sent as: a map from `type` to its tag.
pub open spec fn request_tree(r: QalamDirectRequest) -> CborTree {
    CborTree::Object(seq![(text("type"@), text(request_tag(r)))])
}

/// The base-58 text of a peer, or nothing where the bytes encode no peer.
pub open spec fn peer_text(peer: Seq<u8>) -> Seq<char> {
    match peer_id_text(peer) {
        Some(t) => t,
        None => Seq::empty(),
    }
}

/// The CBOR item a response is sent as: `{type: pong}`, or
/// `{type: persona, data: {peer: <base-58 text>, ident: <persona>}}`.
pub open spec fn response_tree(r: DirectResponseView) -> CborTree {
    match r {
        DirectResponseView::Pong => CborTree::Object(seq![(text("type"@), text("pong"@))]),
        DirectResponseView::Persona { peer, ident } => CborTree::Object(
            seq![
                (text("type"@), text("persona"@)),
                (
                    text("data"@),
                    CborTree::Object(
                        seq![(text("peer"@), text(peer_text(peer))), (text("ident"@), text(ident))],
                    ),
                ),
            ],
        ),
    }
}

/// The request a CBOR item stands for.
pub open spec fn request_from_tree(t: CborTree) -> Result<QalamDirectRequest, DirectErrorView> {
    match tree_get_str(t, seq!["type"@]) {
        Err(e) => Err(e),
        Ok(tag) => if tag == "ping"@ {
            Ok(QalamDirectRequest::Ping)
        } else if tag == "persona"@ {
            Ok(QalamDirectRequest::Persona)
        } else {
            Err(DirectErrorView::UnknownRequestType(tag))
        },
    }
}

/// The request that a message's bytes stand for.
pub open spec fn request_from_bytes(bytes: Seq<u8>) -> Result<QalamDirectRequest, DirectErrorView> {
    match cbor_decoded(bytes) {
        Err(m) => Err(DirectErrorView::InvalidCbor(m)),
        Ok(t) => request_from_tree(t),
    }
}

/// The response a CBOR item stands for. The peer and the persona are both read
/// before the peer's text is parsed.
pub open spec fn response_from_tree(t: CborTree) -> Result<DirectResponseView, DirectErrorView> {
    match tree_get_str(t, seq!["type"@]) {
        Err(e) => Err(e),
        Ok(tag) => if tag == "pong"@ {
            Ok(DirectResponseView::Pong)
        } else if tag == "persona"@ {
            match tree_get_str(t, seq!["data"@, "peer"@]) {
                Err(e) => Err(e),
                Ok(peer) => match tree_get_str(t, seq!["data"@, "ident"@]) {
                    Err(e) => Err(e),
                    Ok(ident) => match peer_id_parse(peer) {
                        Ok(bytes) => Ok(DirectResponseView::Persona { peer: bytes, ident }),
                        Err(m) => Err(DirectErrorView::InvalidPeerId(m)),
                    },
                },
            }
        } else {
            Err(DirectErrorView::UnknownResponseType(tag))
        },
    }
}

/// The response that a message's bytes stand for.
pub open spec fn response_from_bytes(bytes: Seq<u8>) -> Result<DirectResponseView, DirectErrorView> {
    match cbor_decoded(bytes) {
        Err(m) => Err(DirectErrorView::InvalidCbor(m)),
        Ok(t) => response_from_tree(t),
    }
}

fn text_value(s: &str) -> (v: CborValue)
    ensures
        v@ == text(s@),
{
    CborValue::Text(s.to_owned())
}

fn pair_map(entries: Vec<(CborValue, CborValue)>) -> (v: CborValue)
    ensures
        v@ == CborTree::Object(Seq::new(entries@.len(), |i: int| (entries@[i].0@, entries@[i].1@))),
{
    proof {
        lemma_entries_tree(entries@);
    }
    let v = CborValue::Object(entries);
    proof {
        assert(crate::cbor::entries_tree(entries@) =~= Seq::new(
            entries@.len(),
            |i: int| (entries@[i].0@, entries@[i].1@),
        ));
    }
    v
}

fn tag_is(tag: &String, expected: &str) -> (res: bool)
    ensures
        res == (tag@ == expected@),
{
    let expected = expected.to_owned();
    tag.eq(&expected)
}

impl QalamDirect {
    /// Reads a request from the bytes of a message.
    pub fn decode_request(&self, bytes: &[u8]) -> (res: Result<QalamDirectRequest, DirectError>)
        ensures
            match res {
                Ok(r) => request_from_bytes(bytes@) == Ok::<QalamDirectRequest, DirectErrorView>(r),
                Err(e) => request_from_bytes(bytes@) == Err::<QalamDirectRequest, DirectErrorView>(e@),
            },
    {
        match cbor_from_bytes(bytes) {
            Ok(value) => QalamDirectRequest::from_value(&value),
            Err(m) => Err(DirectError::InvalidCbor(m)),
        }
    }

    /// Reads a response from the bytes of a message.
    pub fn decode_response(&self, bytes: &[u8]) -> (res: Result<QalamDirectResponse, DirectError>)
        ensures
            match res {
                Ok(r) => response_from_bytes(bytes@) == Ok::<DirectResponseView, DirectErrorView>(r@),
                Err(e) => response_from_bytes(bytes@) == Err::<DirectResponseView, DirectErrorView>(e@),
            },
    {
        match cbor_from_bytes(bytes) {
            Ok(value) => QalamDirectResponse::from_value(&value),
            Err(m) => Err(DirectError::InvalidCbor(m)),
        }
    }

    /// The bytes a request is sent as; reading them gives the request back.
    pub fn encode_request(&self, request: &QalamDirectRequest) -> (bytes: Vec<u8>)
        ensures
            bytes@ == cbor_encoded(request_tree(*request)),
            request_from_bytes(bytes@) == Ok::<QalamDirectRequest, DirectErrorView>(*request),
    {
        let value = request.to_value();
        proof {
            lemma_request_tree_reads_back(*request);
            lemma_request_tree_shallow(*request);
        }
        match cbor_to_bytes(&value) {
            Some(b) => b,
            None => {
                proof {
                    assert(false);
                }
                Vec::new()
            },
        }
    }

    /// The bytes a response is sent as; reading them gives the response back.
    pub fn encode_response(&self, response: &QalamDirectResponse) -> (bytes: Vec<u8>)
        ensures
            bytes@ == cbor_encoded(response_tree(response@)),
            response_from_bytes(bytes@) == Ok::<DirectResponseView, DirectErrorView>(response@),
    {
        let value = response.to_value();
        match cbor_to_bytes(&value) {
            Some(b) => b,
            None => {
                proof {
                    assert(false);
                }
                Vec::new()
            },
        }
    }
}

impl QalamDirectRequest {
    /// The request a CBOR item stands for: the text under `type` names it.
    pub fn from_value(value: &CborValue) -> (res: Result<QalamDirectRequest, DirectError>)
        ensures
            match res {
                Ok(r) => request_from_tree(value@) == Ok::<QalamDirectRequest, DirectErrorView>(r),
                Err(e) => request_from_tree(value@) == Err::<QalamDirectRequest, DirectErrorView>(e@),
            },
    {
        let path = ["type"];
        proof {
            assert(path_texts(path@) =~= seq!["type"@]);
        }
        let tag = match get_str(value, path.as_slice()) {
            Ok(t) => t,
            Err(e) => {
                return Err(e);
            },
        };
        if tag_is(tag, "ping") {
            Ok(QalamDirectRequest::Ping)
        } else if tag_is(tag, "persona") {
            Ok(QalamDirectRequest::Persona)
        } else {
            Err(DirectError::UnknownRequestType(tag.clone()))
        }
    }

    /// The CBOR item this request is sent as: a map from `type` to its tag.
    pub fn to_value(&self) -> (value: CborValue)
        ensures
            value@ == request_tree(*self),
            request_from_tree(value@) == Ok::<QalamDirectRequest, DirectErrorView>(*self),
    {
        let tag = match self {
            QalamDirectRequest::Ping => text_value("ping"),
            QalamDirectRequest::Persona => text_value("persona"),
        };
        let mut entries = Vec::new();
        entries.push((text_value("type"), tag));
        let value = pair_map(entries);
        proof {
            assert(Seq::new(entries@.len(), |i: int| (entries@[i].0@, entries@[i].1@))
                =~= seq![(text("type"@), text(request_tag(*self)))]);
            lemma_request_tree_reads_back(*self);
        }
        value
    }
}

impl QalamDirectResponse {
    /// The response a CBOR item stands for: the text under `type` names it, and a
    /// persona carries the peer's base-58 text and the persona under `data`.
    pub fn from_value(value: &CborValue) -> (res: Result<QalamDirectResponse, DirectError>)
        ensures
            match res {
                Ok(r) => response_from_tree(value@) == Ok::<DirectResponseView, DirectErrorView>(r@),
                Err(e) => response_from_tree(value@) == Err::<DirectResponseView, DirectErrorView>(e@),
            },
    {
        let type_path = ["type"];
        let peer_path = ["data", "peer"];
        let ident_path = ["data", "ident"];
        proof {
            assert(path_texts(type_path@) =~= seq!["type"@]);
            assert(path_texts(peer_path@) =~= seq!["data"@, "peer"@]);
            assert(path_texts(ident_path@) =~= seq!["data"@, "ident"@]);
        }
        let tag = match get_str(value, type_path.as_slice()) {
            Ok(t) => t,
            Err(e) => {
                return Err(e);
            },
        };
        if tag_is(tag, "pong") {
            Ok(QalamDirectResponse::Pong)
        } else if tag_is(tag, "persona") {
            let peer = match get_str(value, peer_path.as_slice()) {
                Ok(p) => p,
                Err(e) => {
                    return Err(e);
                },
            };
            let ident = match get_str(value, ident_path.as_slice()) {
                Ok(i) => i,
                Err(e) => {
                    return Err(e);
                },
            };
            match PeerId::from_base58(peer.as_str()) {
                Ok(p) => Ok(QalamDirectResponse::Persona { peer: p, ident: ident.clone() }),
                Err(m) => Err(DirectError::InvalidPeerId(m)),
            }
        } else {
            Err(DirectError::UnknownResponseType(tag.clone()))
        }
    }

    /// The CBOR item this response is sent as; reading it gives the response back.
    pub fn to_value(&self) -> (value: CborValue)
        ensures
            value@ == response_tree(self@),
            within_depth(value@, max_nesting()),
            response_from_tree(value@) == Ok::<DirectResponseView, DirectErrorView>(self@),
    {
        match self {
            QalamDirectResponse::Pong => {
                let mut entries = Vec::new();
                entries.push((text_value("type"), text_value("pong")));
                let value = pair_map(entries);
                proof {
                    assert(Seq::new(entries@.len(), |i: int| (entries@[i].0@, entries@[i].1@))
                        =~= seq![(text("type"@), text("pong"@))]);
                    assert(value@ == response_tree(self@));
                    lemma_response_tree_reads_back(self@);
                    lemma_response_tree_shallow(self@);
                }
                value
            },
            QalamDirectResponse::Persona { peer, ident } => {
                let peer_text_value = peer.to_base58();
                let mut inner = Vec::new();
                inner.push((text_value("peer"), CborValue::Text(peer_text_value)));
                inner.push((text_value("ident"), text_value(ident.as_str())));
                let data = pair_map(inner);
                let mut outer = Vec::new();
                outer.push((text_value("type"), text_value("persona")));
                outer.push((text_value("data"), data));
                let value = pair_map(outer);
                proof {
                    assert(Seq::new(inner@.len(), |i: int| (inner@[i].0@, inner@[i].1@))
                        =~= seq![(text("peer"@), text(peer_text(peer@))), (text("ident"@), text(ident@))]);
                    assert(Seq::new(outer@.len(), |i: int| (outer@[i].0@, outer@[i].1@))
                        =~= seq![(text("type"@), text("persona"@)), (text("data"@), data@)]);
                    assert(value@ == response_tree(self@));
                    lemma_response_tree_reads_back(self@);
                    lemma_response_tree_shallow(self@);
                }
                value
            },
        }
    }
}

/// The number a four-byte big-endian length field holds.
pub open spec fn be_u32(header: Seq<u8>) -> int {
    header[0] as int * 16777216 + header[1] as int * 65536 + header[2] as int * 256 + header[3] as int
}

/// The four-byte big-endian field that holds `n`.
pub open spec fn be_bytes(n: u32) -> Seq<u8> {
    seq![(n >> 24) as u8, (n >> 16) as u8, (n >> 8) as u8, n as u8]
}

/// A frame: the payload's length as a four-byte big-endian field, then the payload.
pub open spec fn frame_of(payload: Seq<u8>) -> Seq<u8> {
    be_bytes(payload.len() as u32) + payload
}

proof fn lemma_be_roundtrip(n: u32)
    ensures
        be_u32(be_bytes(n)) == n,
{
    assert(((n >> 24) as u8) as u32 * 16777216 + ((n >> 16) as u8) as u32 * 65536
        + ((n >> 8) as u8) as u32 * 256 + (n as u8) as u32 == n) by (bit_vector);
}

/// Reading the length field of a frame gives the payload's length, and the
/// payload follows it.
pub proof fn lemma_frame_roundtrip(payload: Seq<u8>)
    requires
        payload.len() <= u32::MAX,
    ensures
        be_u32(frame_of(payload).take(4)) == payload.len(),
        frame_of(payload).skip(4) == payload,
{
    lemma_be_roundtrip(payload.len() as u32);
    assert(frame_of(payload).take(4) =~= be_bytes(payload.len() as u32));
    assert(frame_of(payload).skip(4) =~= payload);
}

/// Puts a payload in a frame; fails when its length does not fit in the length field.
pub fn frame_payload(payload: &[u8]) -> (res: Result<Vec<u8>, DirectError>)
    ensures
        payload.len() > u32::MAX ==> res matches Err(DirectError::PayloadTooBig),
        payload.len() <= u32::MAX ==> (res matches Ok(f) && f@ == frame_of(payload@)),
{
    if payload.len() > u32::MAX as usize {
        return Err(DirectError::PayloadTooBig);
    }
    let n = payload.len() as u32;
    let mut frame = Vec::new();
    frame.push((n >> 24) as u8);
    frame.push((n >> 16) as u8);
    frame.push((n >> 8) as u8);
    frame.push(n as u8);
    append_bytes(&mut frame, payload);
    proof {
        assert(frame@ =~= frame_of(payload@));
    }
    Ok(frame)
}

/// The payload length that a frame's four-byte length field holds.
pub fn frame_length(header: [u8; 4]) -> (len: u32)
    ensures
        len == be_u32(header@),
{
    header[0] as u32 * 16777216 + header[1] as u32 * 65536 + header[2] as u32 * 256 + header[3] as u32
}

proof fn lemma_request_tree_shallow(r: QalamDirectRequest)
    ensures
        within_depth(request_tree(r), max_nesting()),
{
    let entries = seq![(text("type"@), text(request_tag(r)))];
    assert(within_depth(entries[0].0, 63));
    assert(within_depth(entries[0].1, 63));
}

proof fn lemma_response_tree_shallow(r: DirectResponseView)
    ensures
        within_depth(response_tree(r), max_nesting()),
{
    match r {
        DirectResponseView::Pong => {
            let entries = seq![(text("type"@), text("pong"@))];
            assert(within_depth(entries[0].0, 63));
            assert(within_depth(entries[0].1, 63));
        },
        DirectResponseView::Persona { peer, ident } => {
            let inner_entries = seq![(text("peer"@), text(peer_text(peer))), (text("ident"@), text(ident))];
            let inner = CborTree::Object(inner_entries);
            assert(within_depth(inner_entries[0].0, 62));
            assert(within_depth(inner_entries[0].1, 62));
            assert(within_depth(inner_entries[1].0, 62));
            assert(within_depth(inner_entries[1].1, 62));
            assert(within_depth(inner, 63));
            let entries = seq![(text("type"@), text("persona"@)), (text("data"@), inner)];
            assert(within_depth(entries[0].0, 63));
            assert(within_depth(entries[0].1, 63));
            assert(within_depth(entries[1].0, 63));
        },
    }
}

/// A persona response is read from the texts under its keys: whatever else the map
/// holds, when `type` is `persona`, `data.peer` is text that parses as a peer and
/// `data.ident` is text, the response is that peer with exactly that persona.
pub proof fn lemma_persona_read_from_its_fields(
    t: CborTree,
    peer_text: Seq<char>,
    ident: Seq<char>,
    peer: Seq<u8>,
)
    requires
        tree_get_str(t, seq!["type"@]) == Ok::<Seq<char>, DirectErrorView>("persona"@),
        tree_get_str(t, seq!["data"@, "peer"@]) == Ok::<Seq<char>, DirectErrorView>(peer_text),
        tree_get_str(t, seq!["data"@, "ident"@]) == Ok::<Seq<char>, DirectErrorView>(ident),
        peer_id_parse(peer_text) == Ok::<Seq<u8>, Seq<char>>(peer),
    ensures
        response_from_tree(t) == Ok::<DirectResponseView, DirectErrorView>(
            DirectResponseView::Persona { peer, ident },
        ),
{
    reveal_strlit("pong");
    reveal_strlit("persona");
    assert("persona"@ != "pong"@) by {
        assert("persona"@.len() != "pong"@.len());
    }
}

/// A persona response is written with its texts under their keys: `type` is
/// `persona`, `data.peer` the peer's base-58 text and `data.ident` exactly the persona.
pub proof fn lemma_persona_written_with_its_fields(peer: Seq<u8>, ident: Seq<char>)
    ensures
        tree_get_str(response_tree(DirectResponseView::Persona { peer, ident }), seq!["type"@])
            == Ok::<Seq<char>, DirectErrorView>("persona"@),
        tree_get_str(response_tree(DirectResponseView::Persona { peer, ident }), seq!["data"@, "peer"@])
            == Ok::<Seq<char>, DirectErrorView>(peer_text(peer)),
        tree_get_str(response_tree(DirectResponseView::Persona { peer, ident }), seq!["data"@, "ident"@])
            == Ok::<Seq<char>, DirectErrorView>(ident),
{
    lemma_persona_tree_fields(peer, ident);
}

/// A pong is written as a map whose `type` is `pong`, and any item whose `type` is
/// `pong` reads as a pong.
pub proof fn lemma_pong_by_its_type(t: CborTree)
    ensures
        tree_get_str(response_tree(DirectResponseView::Pong), seq!["type"@])
            == Ok::<Seq<char>, DirectErrorView>("pong"@),
        tree_get_str(t, seq!["type"@]) == Ok::<Seq<char>, DirectErrorView>("pong"@) ==> response_from_tree(t)
            == Ok::<DirectResponseView, DirectErrorView>(DirectResponseView::Pong),
{
    reveal_strlit("type");
    let key = seq!["type"@];
    assert(key.drop_last() =~= Seq::<Seq<char>>::empty());
    let entries = seq![(text("type"@), text("pong"@))];
    assert(tree_lookup(entries, "type"@) == Some(text("pong"@)));
}

/// A request is written as a map whose `type` is its tag (`ping` or `persona`), and
/// any item whose `type` is one of those tags reads as that request.
pub proof fn lemma_request_by_its_type(r: QalamDirectRequest, t: CborTree)
    ensures
        request_tag(r) == (if r == QalamDirectRequest::Ping { "ping"@ } else { "persona"@ }),
        tree_get_str(request_tree(r), seq!["type"@]) == Ok::<Seq<char>, DirectErrorView>(request_tag(r)),
        tree_get_str(t, seq!["type"@]) == Ok::<Seq<char>, DirectErrorView>(request_tag(r)) ==> request_from_tree(t)
            == Ok::<QalamDirectRequest, DirectErrorView>(r),
{
    reveal_strlit("ping");
    reveal_strlit("persona");
    assert("persona"@ != "ping"@) by {
        assert("persona"@.len() != "ping"@.len());
    }
    let key = seq!["type"@];
    assert(key.drop_last() =~= Seq::<Seq<char>>::empty());
    let entries = seq![(text("type"@), text(request_tag(r)))];
    assert(tree_lookup(entries, "type"@) == Some(text(request_tag(r))));
}

proof fn lemma_persona_tree_fields(peer: Seq<u8>, ident: Seq<char>)
    ensures
        tree_get_str(response_tree(DirectResponseView::Persona { peer, ident }), seq!["type"@])
            == Ok::<Seq<char>, DirectErrorView>("persona"@),
        tree_get_str(response_tree(DirectResponseView::Persona { peer, ident }), seq!["data"@, "peer"@])
            == Ok::<Seq<char>, DirectErrorView>(peer_text(peer)),
        tree_get_str(response_tree(DirectResponseView::Persona { peer, ident }), seq!["data"@, "ident"@])
            == Ok::<Seq<char>, DirectErrorView>(ident),
{
    reveal_strlit("type");
    reveal_strlit("data");
    reveal_strlit("peer");
    reveal_strlit("ident");
    assert("type"@ != "data"@) by {
        assert("type"@[0] != "data"@[0]);
    }
    assert("peer"@ != "ident"@) by {
        assert("peer"@.len() != "ident"@.len());
    }
    let t = response_tree(DirectResponseView::Persona { peer, ident });
    let key = seq!["type"@];
    assert(key.drop_last() =~= Seq::<Seq<char>>::empty());
    assert(tree_walk(t, key.drop_last()) == Ok::<CborTree, DirectErrorView>(t));
    let inner_entries = seq![(text("peer"@), text(peer_text(peer))), (text("ident"@), text(ident))];
    let inner = CborTree::Object(inner_entries);
    let entries = seq![(text("type"@), text("persona"@)), (text("data"@), inner)];
    assert(tree_lookup(entries, "type"@) == Some(text("persona"@)));
    assert(entries.drop_first() =~= seq![(text("data"@), inner)]);
    assert(tree_lookup(entries.drop_first(), "data"@) == Some(inner));
    assert(tree_lookup(entries, "data"@) == Some(inner));
    let dk = seq!["data"@];
    assert(dk.drop_first() =~= Seq::<Seq<char>>::empty());
    assert(tree_walk(inner, dk.drop_first()) == Ok::<CborTree, DirectErrorView>(inner));
    assert(tree_walk(t, dk) == Ok::<CborTree, DirectErrorView>(inner));
    let pk = seq!["data"@, "peer"@];
    let ik = seq!["data"@, "ident"@];
    assert(pk.drop_last() =~= dk);
    assert(ik.drop_last() =~= dk);
    assert(tree_lookup(inner_entries, "peer"@) == Some(text(peer_text(peer))));
    assert(inner_entries.drop_first() =~= seq![(text("ident"@), text(ident))]);
    assert(tree_lookup(inner_entries.drop_first(), "ident"@) == Some(text(ident)));
    assert(tree_lookup(inner_entries, "ident"@) == Some(text(ident)));
}

proof fn lemma_request_tree_reads_back(r: QalamDirectRequest)
    ensures
        request_from_tree(request_tree(r)) == Ok::<QalamDirectRequest, DirectErrorView>(r),
{
    reveal_strlit("ping");
    reveal_strlit("persona");
    let t = request_tree(r);
    let key = seq!["type"@];
    assert(key.drop_last() =~= Seq::<Seq<char>>::empty());
    assert(key.last() == "type"@);
    assert(tree_walk(t, key.drop_last()) == Ok::<CborTree, DirectErrorView>(t));
    let entries = seq![(text("type"@), text(request_tag(r)))];
    assert(tree_lookup(entries, "type"@) == Some(text(request_tag(r))));
    assert(tree_get(t, "type"@) == Ok::<CborTree, DirectErrorView>(text(request_tag(r))));
    assert(tree_get_str(t, key) == Ok::<Seq<char>, DirectErrorView>(request_tag(r)));
    assert("persona"@ != "ping"@) by {
        assert("persona"@.len() != "ping"@.len());
    }
}

proof fn lemma_response_tree_reads_back(r: DirectResponseView)
    requires
        r matches DirectResponseView::Persona { peer, ident } ==> peer_id_parse(peer_text(peer))
            == Ok::<Seq<u8>, Seq<char>>(peer),
    ensures
        response_from_tree(response_tree(r)) == Ok::<DirectResponseView, DirectErrorView>(r),
{
    reveal_strlit("pong");
    reveal_strlit("persona");
    reveal_strlit("type");
    reveal_strlit("data");
    reveal_strlit("peer");
    reveal_strlit("ident");
    assert("persona"@ != "pong"@) by {
        assert("persona"@.len() != "pong"@.len());
    }
    assert("type"@ != "data"@) by {
        assert("type"@[0] != "data"@[0]);
    }
    assert("peer"@ != "ident"@) by {
        assert("peer"@.len() != "ident"@.len());
    }
    let t = response_tree(r);
    let key = seq!["type"@];
    assert(key.drop_last() =~= Seq::<Seq<char>>::empty());
    assert(key.last() == "type"@);
    assert(tree_walk(t, key.drop_last()) == Ok::<CborTree, DirectErrorView>(t));
    match r {
        DirectResponseView::Pong => {
            let entries = seq![(text("type"@), text("pong"@))];
            assert(tree_lookup(entries, "type"@) == Some(text("pong"@)));
            assert(tree_get_str(t, key) == Ok::<Seq<char>, DirectErrorView>("pong"@));
        },
        DirectResponseView::Persona { peer, ident } => {
            let inner_entries = seq![(text("peer"@), text(peer_text(peer))), (text("ident"@), text(ident))];
            let inner = CborTree::Object(inner_entries);
            let entries = seq![(text("type"@), text("persona"@)), (text("data"@), inner)];
            assert(tree_lookup(entries, "type"@) == Some(text("persona"@)));
            assert(tree_get_str(t, key) == Ok::<Seq<char>, DirectErrorView>("persona"@));
            assert(entries.drop_first() =~= seq![(text("data"@), inner)]);
            assert(tree_lookup(entries.drop_first(), "data"@) == Some(inner));
            assert(tree_lookup(entries, "data"@) == Some(inner));
            let dk = seq!["data"@];
            assert(dk.drop_first() =~= Seq::<Seq<char>>::empty());
            assert(tree_walk(inner, dk.drop_first()) == Ok::<CborTree, DirectErrorView>(inner));
            assert(tree_walk(t, dk) == Ok::<CborTree, DirectErrorView>(inner));
            let pk = seq!["data"@, "peer"@];
            let ik = seq!["data"@, "ident"@];
            assert(pk.drop_last() =~= dk);
            assert(ik.drop_last() =~= dk);
            assert(pk.last() == "peer"@);
            assert(ik.last() == "ident"@);
            assert(tree_lookup(inner_entries, "peer"@) == Some(text(peer_text(peer))));
            assert(inner_entries.drop_first() =~= seq![(text("ident"@), text(ident))]);
            assert(tree_lookup(inner_entries.drop_first(), "ident"@) == Some(text(ident)));
            assert(tree_lookup(inner_entries, "ident"@) == Some(text(ident)));
            assert(tree_get_str(t, pk) == Ok::<Seq<char>, DirectErrorView>(peer_text(peer)));
            assert(tree_get_str(t, ik) == Ok::<Seq<char>, DirectErrorView>(ident));
        },
    }
}

} // verus!
