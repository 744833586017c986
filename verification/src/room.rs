use vstd::prelude::*;
use vstd::string::{StrSliceExecFns, StringExecFns};
use vstd::utf8::{decode_utf8, encode_utf8, valid_utf8};

use crate::digest::{append_bytes, sha256, sha256_digest};
use crate::hex::{hex_lower, lemma_hex_injective, push_hex};
use crate::peer::PeerId;
use crate::time::QalamTime;

verus! {

/// The identity of a chat room: a SHA-256 digest.
#[derive(Debug, Clone, Copy, PartialEq, Eq, PartialOrd, Ord)]
pub struct RoomId(pub [u8; 32]);

impl View for RoomId {
    type V = Seq<u8>;

    open spec fn view(&self) -> Seq<u8> {
        self.0@
    }
}

/// The bytes hashed to name a public room: the UTF-8 text `room:` followed by its name.
pub open spec fn room_preimage(name: Seq<char>) -> Seq<u8> {
    encode_utf8("room:"@ + name)
}

/// Lexicographic order on byte strings, a proper prefix coming first.
pub open spec fn lex_le(a: Seq<u8>, b: Seq<u8>) -> bool
    decreases a.len(),
{
    if a.len() == 0 {
        true
    } else if b.len() == 0 {
        false
    } else if a[0] != b[0] {
        a[0] < b[0]
    } else {
        lex_le(a.drop_first(), b.drop_first())
    }
}

/// The bytes hashed to name the direct room of two peers: the UTF-8 text `dm:`
/// followed by the two peers' bytes, the lesser first.
pub open spec fn dm_preimage(a: Seq<u8>, b: Seq<u8>) -> Seq<u8> {
    if lex_le(a, b) {
        encode_utf8("dm:"@) + a + b
    } else {
        encode_utf8("dm:"@) + b + a
    }
}

/// The room identity of the direct room of the peers with bytes `a` and `b`.
pub open spec fn dm_room(a: Seq<u8>, b: Seq<u8>) -> Seq<u8> {
    sha256_digest(dm_preimage(a, b))
}

/// The topic name of a room: `room/` followed by the lower-case hex of its identity.
pub open spec fn room_topic(id: Seq<u8>) -> Seq<char> {
    "room/"@ + hex_lower(id)
}

fn lex_le_bytes(a: &[u8], b: &[u8]) -> (res: bool)
    ensures
        res == lex_le(a@, b@),
{
    let mut i: usize = 0;
    proof {
        assert(a@.skip(0) =~= a@);
        assert(b@.skip(0) =~= b@);
    }
    while i < a.len() && i < b.len() && a[i] == b[i]
        invariant
            i <= a.len(),
            i <= b.len(),
            lex_le(a@, b@) == lex_le(a@.skip(i as int), b@.skip(i as int)),
        decreases a.len() - i,
    {
        proof {
            assert(a@.skip(i as int).drop_first() =~= a@.skip(i + 1));
            assert(b@.skip(i as int).drop_first() =~= b@.skip(i + 1));
        }
        i = i + 1;
    }
    if i == a.len() {
        true
    } else if i == b.len() {
        false
    } else {
        a[i] < b[i]
    }
}

proof fn lemma_lex_total(a: Seq<u8>, b: Seq<u8>)
    ensures
        lex_le(a, b) || lex_le(b, a),
    decreases a.len(),
{
    if a.len() > 0 && b.len() > 0 && a[0] == b[0] {
        lemma_lex_total(a.drop_first(), b.drop_first());
    }
}

proof fn lemma_lex_antisymmetric(a: Seq<u8>, b: Seq<u8>)
    requires
        lex_le(a, b),
        lex_le(b, a),
    ensures
        a == b,
    decreases a.len(),
{
    if a.len() == 0 {
        assert(b.len() == 0);
        assert(a =~= b);
    } else {
        assert(b.len() > 0);
        assert(a[0] == b[0]);
        lemma_lex_antisymmetric(a.drop_first(), b.drop_first());
        assert(a =~= seq![a[0]] + a.drop_first());
        assert(b =~= seq![b[0]] + b.drop_first());
    }
}

/// The direct room of two peers does not depend on which of them asks for it.
pub proof fn lemma_dm_symmetric(a: Seq<u8>, b: Seq<u8>)
    ensures
        dm_room(a, b) == dm_room(b, a),
{
    lemma_lex_total(a, b);
    if lex_le(a, b) && lex_le(b, a) {
        lemma_lex_antisymmetric(a, b);
    }
    assert(dm_preimage(a, b) == dm_preimage(b, a));
}

/// Different rooms have different topic names.
pub proof fn lemma_room_topic_injective(a: Seq<u8>, b: Seq<u8>)
    requires
        room_topic(a) == room_topic(b),
    ensures
        a == b,
{
    let n = "room/"@.len() as int;
    assert(hex_lower(a) =~= room_topic(a).skip(n));
    assert(hex_lower(b) =~= room_topic(b).skip(n));
    lemma_hex_injective(a, b);
}

/// A public room's preimage is valid UTF-8 that reads as `room:` followed by the
/// whole name.
pub proof fn lemma_room_preimage_reads_as_name(name: Seq<char>)
    ensures
        valid_utf8(room_preimage(name)),
        decode_utf8(room_preimage(name)) == seq!['r', 'o', 'o', 'm', ':'] + name,
{
    reveal_strlit("room:");
    vstd::utf8::encode_utf8_valid_utf8("room:"@ + name);
    vstd::utf8::encode_utf8_decode_utf8("room:"@ + name);
    assert("room:"@ + name =~= seq!['r', 'o', 'o', 'm', ':'] + name);
}

/// Different room names have different preimages, so they name different rooms
/// unless SHA-256 collides.
pub proof fn lemma_room_preimage_injective(a: Seq<char>, b: Seq<char>)
    requires
        room_preimage(a) == room_preimage(b),
    ensures
        a == b,
{
    lemma_room_preimage_reads_as_name(a);
    lemma_room_preimage_reads_as_name(b);
    let p = seq!['r', 'o', 'o', 'm', ':'];
    assert(a =~= (p + a).skip(5));
    assert(b =~= (p + b).skip(5));
}

/// Byte strings are ordered by their first difference, as unsigned bytes: where
/// `a` and `b` agree before index `k` and `a[k] < b[k]`, `a` comes first and `b`
/// does not.
pub proof fn lemma_lex_first_difference(a: Seq<u8>, b: Seq<u8>, k: int)
    requires
        0 <= k < a.len(),
        k < b.len(),
        a.take(k) == b.take(k),
        a[k] < b[k],
    ensures
        lex_le(a, b),
        !lex_le(b, a),
    decreases k,
{
    if k > 0 {
        assert(a[0] == a.take(k)[0]);
        assert(b[0] == b.take(k)[0]);
        assert(a.drop_first().take(k - 1) =~= a.take(k).drop_first());
        assert(b.drop_first().take(k - 1) =~= b.take(k).drop_first());
        lemma_lex_first_difference(a.drop_first(), b.drop_first(), k - 1);
    }
}

/// A byte string comes before every longer string it begins.
pub proof fn lemma_lex_prefix(a: Seq<u8>, b: Seq<u8>)
    requires
        a.len() <= b.len(),
        b.take(a.len() as int) == a,
    ensures
        lex_le(a, b),
    decreases a.len(),
{
    if a.len() > 0 {
        assert(a[0] == b.take(a.len() as int)[0]);
        assert(b.drop_first().take(a.len() - 1) =~= a.drop_first());
        lemma_lex_prefix(a.drop_first(), b.drop_first());
    }
}

/// The bytes of the text `dm:`.
proof fn lemma_dm_prefix_bytes()
    ensures
        encode_utf8("dm:"@) == seq![100u8, 109u8, 58u8],
{
    reveal_strlit("dm:");
    let t = "dm:"@;
    assert(vstd::utf8::is_ascii_chars(t));
    vstd::utf8::is_ascii_chars_encode_utf8(t);
    assert(encode_utf8(t) =~= seq![100u8, 109u8, 58u8]);
}

/// The direct room of two peers hashes the bytes of `dm:` and then both peers'
/// bytes, the one that is less at their first difference first.
pub proof fn lemma_dm_preimage_order(a: Seq<u8>, b: Seq<u8>, k: int)
    requires
        0 <= k < a.len(),
        k < b.len(),
        a.take(k) == b.take(k),
        a[k] < b[k],
    ensures
        dm_preimage(a, b) == seq![100u8, 109u8, 58u8] + a + b,
        dm_preimage(b, a) == seq![100u8, 109u8, 58u8] + a + b,
{
    lemma_lex_first_difference(a, b, k);
    lemma_dm_prefix_bytes();
}

impl RoomId {
    /// The public room called `name`: the SHA-256 digest of `room:` and the name.
    pub fn room(name: &str) -> (id: RoomId)
        ensures
            id@ == sha256_digest(room_preimage(name@)),
    {
        let mut preimage = "room:".to_owned();
        preimage.append(name);
        let bytes = preimage.as_str().as_bytes();
        RoomId(sha256(bytes))
    }

    /// The direct room of two peers: the SHA-256 digest of `dm:` and the two
    /// peers' bytes, the lexicographically lesser first.
    pub fn dm(a: &PeerId, b: &PeerId) -> (id: RoomId)
        ensures
            id@ == dm_room(a@, b@),
    {
        let a_bytes = a.to_bytes();
        let b_bytes = b.to_bytes();
        let mut preimage = "dm:".as_bytes_vec();
        if lex_le_bytes(a_bytes.as_slice(), b_bytes.as_slice()) {
            append_bytes(&mut preimage, a_bytes.as_slice());
            append_bytes(&mut preimage, b_bytes.as_slice());
        } else {
            append_bytes(&mut preimage, b_bytes.as_slice());
            append_bytes(&mut preimage, a_bytes.as_slice());
        }
        RoomId(sha256(preimage.as_slice()))
    }

    /// The topic name of this room: `room/` and the lower-case hex of its identity.
    pub fn as_str(&self) -> (s: String)
        ensures
            s@ == room_topic(self@),
    {
        let mut s = "room/".to_owned();
        push_hex(&mut s, self.0.as_slice());
        s
    }

    /// Whether two room identities are the same.
    pub fn same_as(&self, other: &RoomId) -> (res: bool)
        ensures
            res == (self@ == other@),
    {
        let mut i: usize = 0;
        while i < 32
            invariant
                i <= 32,
                self@.len() == 32,
                other@.len() == 32,
                self@.take(i as int) == other@.take(i as int),
            decreases 32 - i,
        {
            if self.0[i] != other.0[i] {
                assert(self@[i as int] != other@[i as int]);
                return false;
            }
            proof {
                assert(self@.take(i + 1) =~= self@.take(i as int).push(self@[i as int]));
                assert(other@.take(i + 1) =~= other@.take(i as int).push(other@[i as int]));
            }
            i = i + 1;
        }
        proof {
            assert(self@ =~= self@.take(32));
            assert(other@ =~= other@.take(32));
        }
        true
    }
}

/// A version-7 UUID as a 128-bit number: the version nibble is 7 and the
/// variant bits are those of RFC 9562.
pub open spec fn is_uuid_v7(id: u128) -> bool {
    (id >> 76u128) & 0xfu128 == 7 && (id >> 62u128) & 0x3u128 == 2
}

#[verifier::external_type_specification]
#[verifier::external_body]
pub struct ExContextV7(uuid::ContextV7);

/// `uuid::ContextV7::new`: a fresh counter context that keeps the version-7 ids made
/// through it ordered by creation. It holds state no contract can see.
#[verifier::external_body]
pub(crate) fn new_id_context() -> uuid::ContextV7 {
    uuid::ContextV7::new()
}

/// `uuid::Uuid::new_v7` of `uuid::Timestamp::from_unix(context, seconds, subsec_nanos)`,
/// as its 128-bit value. The context may keep an earlier or advanced timestamp to hold
/// its ids in order, and the low bits come from the random source, so only what holds
/// of every outcome is stated: the version and variant bits. uuid panics only where
/// the operating system's random source fails.
#[verifier::external_body]
pub(crate) fn new_message_id(context: &uuid::ContextV7, seconds: u64, subsec_nanos: u32) -> (id: u128)
    ensures
        is_uuid_v7(id),
{
    uuid::Uuid::new_v7(uuid::Timestamp::from_unix(context, seconds, subsec_nanos)).as_u128()
}

/// A chat message as it is shown in a room.
#[derive(Debug)]
pub struct ChatMessage {
    pub id: u128,
    pub from: PeerId,
    pub content: Vec<String>,
    pub ts: QalamTime,
}

/// A room with its members and the messages seen in it.
#[derive(Debug)]
pub struct Room {
    pub id: RoomId,
    pub members: Vec<PeerId>,
    pub messages: Vec<ChatMessage>,
}

} // verus!
