//! Peer identities: the public key of a participant, held as the raw bytes
//! that the host hands out.

use vstd::prelude::*;
use vstd::string::*;
use vstd::utf8::is_ascii_chars;

verus! {

/// The text form of a key's raw bytes: what `holo_hash` writes when a hash
/// is displayed.
pub uninterp spec fn key_text(raw: Seq<u8>) -> Seq<char>;

/// Calls `holo_hash::holo_hash_encode`, the function through which every
/// `HoloHash` is displayed. Trusted: the text that comes back depends on the
/// bytes alone, and is named `key_text` of them. Nothing is claimed of its
/// length or alphabet.
#[verifier::external_body]
fn encode_key(raw: &Vec<u8>) -> (text: String)
    ensures
        text@ == key_text(raw@),
{
    holo_hash::holo_hash_encode(raw)
}

/// The five characters by which a peer is shown: those after the first five
/// of the key's text, which all keys share. A text too short for that, or
/// one that is not plain ASCII, has no short name.
pub open spec fn short_name_of(text: Seq<char>) -> Option<Seq<char>> {
    if is_ascii_chars(text) && text.len() >= 10 {
        Some(text.subrange(5, 10))
    } else {
        None
    }
}

/// Cuts the short name out of a key's text.
pub fn short_name(text: &str) -> (name: Option<String>)
    ensures
        name is Some <==> short_name_of(text@) is Some,
        name matches Some(n) ==> Some(n@) == short_name_of(text@),
{
    if text.is_ascii() && text.unicode_len() >= 10 {
        let part = text.substring_ascii(5, 10);
        Some(String::from_str(part))
    } else {
        None
    }
}

/// The public identifier of a participant. Two identities are the same peer
/// exactly when their key bytes agree.
#[derive(Debug, Clone, PartialEq, Eq)]
pub struct PeerIdentity {
    key: Vec<u8>,
}

impl View for PeerIdentity {
    type V = Seq<u8>;

    closed spec fn view(&self) -> Seq<u8> {
        self.key@
    }
}

/// The keys of a sequence of identities, in order.
pub open spec fn identity_views(identities: Seq<PeerIdentity>) -> Seq<Seq<u8>> {
    identities.map_values(|p: PeerIdentity| p@)
}

impl PeerIdentity {
    /// Wraps the raw key bytes of a peer.
    pub fn new(key: Vec<u8>) -> (id: Self)
        ensures
            id@ == key@,
    {
        PeerIdentity { key }
    }

    /// The raw key bytes.
    pub fn key_bytes(&self) -> (bytes: &Vec<u8>)
        ensures
            bytes@ == self@,
    {
        &self.key
    }

    /// Whether both identities name the same peer.
    pub fn same_as(&self, other: &PeerIdentity) -> (same: bool)
        ensures
            same == (self@ == other@),
    {
        if self.key.len() != other.key.len() {
            return false;
        }
        let mut i: usize = 0;
        while i < self.key.len()
            invariant
                i <= self.key.len(),
                self.key.len() == other.key.len(),
                forall|j: int| 0 <= j < i ==> self.key@[j] == other.key@[j],
            decreases self.key.len() - i,
        {
            if self.key[i] != other.key[i] {
                return false;
            }
            i += 1;
        }
        assert(self.key@ =~= other.key@);
        true
    }

    /// The key in its text form.
    pub fn text(&self) -> (text: String)
        ensures
            text@ == key_text(self@),
    {
        encode_key(&self.key)
    }

    /// A fresh copy of this identity.
    pub fn duplicate(&self) -> (copy: PeerIdentity)
        ensures
            copy@ == self@,
    {
        let mut key: Vec<u8> = Vec::new();
        let mut i: usize = 0;
        while i < self.key.len()
            invariant
                i <= self.key.len(),
                key@ == self.key@.take(i as int),
            decreases self.key.len() - i,
        {
            key.push(self.key[i]);
            assert(self.key@.take(i + 1) =~= self.key@.take(i as int).push(self.key@[i as int]));
            i += 1;
        }
        assert(self.key@.take(self.key@.len() as int) =~= self.key@);
        PeerIdentity { key }
    }
}

} // verus!
