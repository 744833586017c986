use vstd::prelude::*;

verus! {

/// The canonical encoding of the peer identity that `bytes` encode, as
/// `libp2p::PeerId::from_bytes` followed by `to_bytes` gives it; `None` when
/// libp2p accepts no peer identity in `bytes`.
pub uninterp spec fn peer_id_canonical(bytes: Seq<u8>) -> Option<Seq<u8>>;

/// The base-58 text of the peer identity that `bytes` encode, as
/// `libp2p::PeerId::from_bytes` followed by `to_base58` gives it.
pub uninterp spec fn peer_id_text(bytes: Seq<u8>) -> Option<Seq<char>>;

/// The bytes of the peer identity written as `text`, as libp2p's `PeerId::from_str`
/// followed by `to_bytes` gives them, or the text of libp2p's parse error.
pub uninterp spec fn peer_id_parse(text: Seq<char>) -> Result<Seq<u8>, Seq<char>>;

/// `libp2p::PeerId::from_bytes`, then `to_bytes` and `to_base58` of the identity it
/// gives: the canonical bytes and the base-58 text, or `None` where libp2p refuses the
/// bytes. libp2p accepts canonical bytes again unchanged, and parses the text back to them.
#[verifier::external_body]
fn libp2p_peer_from_bytes(bytes: &[u8]) -> (res: Option<(Vec<u8>, String)>)
    ensures
        match res {
            Some((c, t)) => peer_id_canonical(bytes@) == Some(c@)
                && peer_id_canonical(c@) == Some(c@)
                && peer_id_text(bytes@) == Some(t@)
                && peer_id_parse(t@) == Ok::<Seq<u8>, Seq<char>>(c@),
            None => peer_id_canonical(bytes@) is None && peer_id_text(bytes@) is None,
        },
{
    libp2p::PeerId::from_bytes(bytes).ok().map(|p| (p.to_bytes(), p.to_base58()))
}

/// `<libp2p::PeerId as FromStr>::from_str`, then `to_bytes`: the identity's bytes, or
/// the text of libp2p's parse error. The bytes it gives are canonical.
#[verifier::external_body]
fn libp2p_parse_peer(text: &str) -> (res: Result<Vec<u8>, String>)
    ensures
        match res {
            Ok(b) => peer_id_parse(text@) == Ok::<Seq<u8>, Seq<char>>(b@)
                && peer_id_canonical(b@) == Some(b@),
            Err(e) => peer_id_parse(text@) == Err::<Seq<u8>, Seq<char>>(e@),
        },
{
    match <libp2p::PeerId as std::str::FromStr>::from_str(text) {
        Ok(p) => Ok(p.to_bytes()),
        Err(e) => Err(e.to_string()),
    }
}

/// The identity of a peer, held as the canonical bytes of its libp2p multihash.
#[derive(Debug)]
pub struct PeerId {
    bytes: Vec<u8>,
}

impl View for PeerId {
    type V = Seq<u8>;

    closed spec fn view(&self) -> Seq<u8> {
        self.bytes@
    }
}

impl PeerId {
    #[verifier::type_invariant]
    spec fn canonical(self) -> bool {
        peer_id_canonical(self.bytes@) == Some(self.bytes@)
    }

    /// The peer identity that `bytes` encode, held in canonical form;
    /// `None` where libp2p accepts no identity in them.
    pub fn from_bytes(bytes: &[u8]) -> (res: Option<PeerId>)
        ensures
            match res {
                Some(p) => peer_id_canonical(bytes@) == Some(p@),
                None => peer_id_canonical(bytes@) is None,
            },
    {
        match libp2p_peer_from_bytes(bytes) {
            Some((c, _)) => Some(PeerId { bytes: c }),
            None => None,
        }
    }

    /// Parses the base-58 text of a peer identity; the error is libp2p's message.
    pub fn from_base58(text: &str) -> (res: Result<PeerId, String>)
        ensures
            match res {
                Ok(p) => peer_id_parse(text@) == Ok::<Seq<u8>, Seq<char>>(p@),
                Err(e) => peer_id_parse(text@) == Err::<Seq<u8>, Seq<char>>(e@),
            },
    {
        match libp2p_parse_peer(text) {
            Ok(b) => Ok(PeerId { bytes: b }),
            Err(e) => Err(e),
        }
    }

    /// The canonical bytes of this identity.
    pub fn to_bytes(&self) -> (bytes: Vec<u8>)
        ensures
            bytes@ == self@,
            peer_id_canonical(bytes@) == Some(bytes@),
    {
        proof {
            use_type_invariant(self);
        }
        let mut out = Vec::new();
        crate::digest::append_bytes(&mut out, self.bytes.as_slice());
        out
    }

    /// The base-58 text of this identity; parsing it gives this identity back.
    pub fn to_base58(&self) -> (text: String)
        ensures
            peer_id_text(self@) == Some(text@),
            peer_id_parse(text@) == Ok::<Seq<u8>, Seq<char>>(self@),
    {
        proof {
            use_type_invariant(self);
        }
        match libp2p_peer_from_bytes(self.bytes.as_slice()) {
            Some((_, t)) => t,
            None => {
                proof {
                    assert(false);
                }
                String::new()
            },
        }
    }

    /// Whether two identities are the same.
    pub fn same_as(&self, other: &PeerId) -> (res: bool)
        ensures
            res == (self@ == other@),
    {
        let a = self.bytes.as_slice();
        let b = other.bytes.as_slice();
        if a.len() != b.len() {
            assert(self@.len() != other@.len());
            return false;
        }
        let mut i: usize = 0;
        while i < a.len()
            invariant
                a@ == self@,
                b@ == other@,
                a.len() == b.len(),
                i <= a.len(),
                a@.take(i as int) == b@.take(i as int),
            decreases a.len() - i,
        {
            if a[i] != b[i] {
                assert(self@[i as int] != other@[i as int]);
                return false;
            }
            proof {
                assert(a@.take(i + 1) =~= a@.take(i as int).push(a@[i as int]));
                assert(b@.take(i + 1) =~= b@.take(i as int).push(b@[i as int]));
            }
            i = i + 1;
        }
        proof {
            assert(a@ =~= a@.take(a.len() as int));
            assert(b@ =~= b@.take(b.len() as int));
        }
        true
    }
}

impl Clone for PeerId {
    fn clone(&self) -> (res: Self)
        ensures
            res@ == self@,
    {
        proof {
            use_type_invariant(self);
        }
        let mut bytes = Vec::new();
        crate::digest::append_bytes(&mut bytes, self.bytes.as_slice());
        PeerId { bytes }
    }
}

} // verus!
