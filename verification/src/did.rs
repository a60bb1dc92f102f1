//! Identities as `did:key` strings, the Ed25519 public key a message keeps of
//! its sender, and message signatures.
use crate::codec::{bs58_decode, bs58_decoded, bs58_encode, bs58_encoded, opt_bytes_view};
use crate::error::Error;
use vstd::prelude::*;

verus! {

/// The text every Ed25519 `did:key` starts with: the method, then `z` for
/// base58 (Bitcoin alphabet).
pub open spec fn did_key_prefix() -> Seq<char> {
    seq!['d', 'i', 'd', ':', 'k', 'e', 'y', ':', 'z']
}

/// The multicodec tag of an Ed25519 public key.
pub open spec fn ed25519_tag() -> Seq<u8> {
    seq![237u8, 1u8]
}

/// The `did:key` of an Ed25519 public key.
pub open spec fn did_of_key(key: Seq<u8>) -> Seq<char> {
    did_key_prefix() + bs58_encoded(ed25519_tag() + key)
}

/// The Ed25519 public key a `did:key` names, if it names one.
pub open spec fn key_of_did(did: Seq<char>) -> Option<Seq<u8>> {
    if did.len() >= 9 && did.subrange(0, 9) == did_key_prefix() {
        match bs58_decoded(did.subrange(9, did.len() as int)) {
            Some(b) => if b.len() == 34 && b[0] == 237u8 && b[1] == 1u8 {
                Some(b.subrange(2, 34))
            } else {
                None
            },
            None => None,
        }
    } else {
        None
    }
}

/// The Ed25519 public key of a message's sender.
#[derive(PartialEq, Eq, Clone, Copy, Debug)]
pub struct DIDEd25519Reference(pub [u8; 32]);

fn has_did_key_prefix(did: &str) -> (b: bool)
    ensures
        b == (did@.len() >= 9 && did@.subrange(0, 9) == did_key_prefix()),
{
    let n = did.unicode_len();
    if n < 9 {
        return false;
    }
    let expected = ['d', 'i', 'd', ':', 'k', 'e', 'y', ':', 'z'];
    assert(expected@ =~= did_key_prefix());
    let mut i: usize = 0;
    while i < 9
        invariant
            i <= 9,
            n == did@.len(),
            n >= 9,
            expected@ == did_key_prefix(),
            forall|k: int| 0 <= k < i ==> did@[k] == did_key_prefix()[k],
        decreases 9 - i,
    {
        if did.get_char(i) != expected[i] {
            assert(did@.subrange(0, 9)[i as int] != did_key_prefix()[i as int]);
            return false;
        }
        i += 1;
    }
    assert(did@.subrange(0, 9) =~= did_key_prefix());
    true
}

fn parse_did_key(did: &String) -> (r: Option<[u8; 32]>)
    ensures
        match key_of_did(did@) {
            Some(k) => r is Some && r->0@ == k,
            None => r is None,
        },
{
    let s = did.as_str();
    if !has_did_key_prefix(s) {
        return None;
    }
    let n = s.unicode_len();
    let tail = s.substring_char(9, n);
    let decoded = bs58_decode(tail);
    match decoded {
        None => None,
        Some(b) => {
            if b.len() == 34 && b[0] == 237u8 && b[1] == 1u8 {
                let mut out = [0u8; 32];
                let mut i: usize = 0;
                while i < 32
                    invariant
                        i <= 32,
                        b@.len() == 34,
                        out@.len() == 32,
                        forall|k: int| 0 <= k < i ==> out@[k] == b@[k + 2],
                    decreases 32 - i,
                {
                    out[i] = b[i + 2];
                    i += 1;
                }
                assert(out@ =~= b@.subrange(2, 34));
                Some(out)
            } else {
                None
            }
        },
    }
}

impl DIDEd25519Reference {
    /// Whether two references hold the same key.
    pub fn same(&self, other: &Self) -> (b: bool)
        ensures
            b == (self.0@ == other.0@),
    {
        let mut i: usize = 0;
        while i < 32
            invariant
                i <= 32,
                forall|k: int| 0 <= k < i ==> self.0@[k] == other.0@[k],
            decreases 32 - i,
        {
            if self.0[i] != other.0[i] {
                return false;
            }
            i += 1;
        }
        assert(self.0@ =~= other.0@);
        true
    }

    /// The public key of an Ed25519 `did:key`, or nothing when `did` is not one.
    pub fn try_from_did(did: &String) -> (r: Option<Self>)
        ensures
            match key_of_did(did@) {
                Some(k) => r matches Some(x) && x.0@ == k,
                None => r is None,
            },
    {
        match parse_did_key(did) {
            Some(_) => Some(Self::from_did(did)),
            None => None,
        }
    }

    /// The public key of an Ed25519 `did:key`.
    pub fn from_did(did: &String) -> (r: Self)
        requires
            key_of_did(did@) is Some,
        ensures
            r.0@ == key_of_did(did@)->0,
    {
        match parse_did_key(did) {
            Some(k) => DIDEd25519Reference(k),
            None => DIDEd25519Reference([0u8; 32]),
        }
    }

    /// The `did:key` of the public key.
    pub fn to_did(self) -> (r: String)
        ensures
            r@ == did_of_key(self.0@),
            key_of_did(r@) == Some(self.0@),
    {
        let mut bytes: Vec<u8> = Vec::new();
        bytes.push(237u8);
        bytes.push(1u8);
        let mut i: usize = 0;
        while i < 32
            invariant
                i <= 32,
                bytes@ == ed25519_tag() + self.0@.subrange(0, i as int),
            decreases 32 - i,
        {
            bytes.push(self.0[i]);
            assert(self.0@.subrange(0, i + 1) =~= self.0@.subrange(0, i as int).push(self.0@[i as int]));
            assert(bytes@ =~= ed25519_tag() + self.0@.subrange(0, i + 1));
            i += 1;
        }
        assert(self.0@.subrange(0, 32) =~= self.0@);
        let encoded = bs58_encode(bytes.as_slice());
        let prefix = "did:key:z";
        proof {
            reveal_strlit("did:key:z");
        }
        let mut r = String::from_str(prefix);
        assert(r@ =~= did_key_prefix());
        r.append(encoded.as_str());
        let ghost full = r@;
        assert(full.subrange(0, 9) =~= did_key_prefix());
        assert(full.subrange(9, full.len() as int) =~= encoded@);
        assert((ed25519_tag() + self.0@).subrange(2, 34) =~= self.0@);
        r
    }
}

/// A 64-byte Ed25519 signature.
#[derive(PartialEq, Eq, Clone, Copy, Debug)]
pub struct MessageSignature(pub [u8; 64]);

impl MessageSignature {
    /// A signature from exactly 64 bytes.
    pub fn try_from(bytes: Vec<u8>) -> (r: Result<Self, Error>)
        ensures
            bytes@.len() == 64 ==> (r matches Ok(x) && x.0@ == bytes@),
            bytes@.len() != 64 ==> r == Err::<Self, Error>(Error::InvalidConversion),
    {
        if bytes.len() != 64 {
            return Err(Error::InvalidConversion);
        }
        let mut out = [0u8; 64];
        let mut i: usize = 0;
        while i < 64
            invariant
                i <= 64,
                bytes@.len() == 64,
                out@.len() == 64,
                forall|k: int| 0 <= k < i ==> out@[k] == bytes@[k],
            decreases 64 - i,
        {
            out[i] = bytes[i];
            i += 1;
        }
        assert(out@ =~= bytes@);
        Ok(MessageSignature(out))
    }

    pub fn from_array(signature: [u8; 64]) -> (r: Self)
        ensures
            r.0 == signature,
    {
        MessageSignature(signature)
    }

    /// The signature's bytes.
    pub fn to_vec(&self) -> (r: Vec<u8>)
        ensures
            r@ == self.0@,
    {
        let mut r: Vec<u8> = Vec::new();
        let mut i: usize = 0;
        while i < 64
            invariant
                i <= 64,
                r@ == self.0@.subrange(0, i as int),
            decreases 64 - i,
        {
            r.push(self.0[i]);
            assert(self.0@.subrange(0, i + 1) =~= self.0@.subrange(0, i as int).push(self.0@[i as int]));
            i += 1;
        }
        assert(self.0@.subrange(0, 64) =~= self.0@);
        r
    }

    /// The signature as stored: its base58 text.
    pub fn encode(&self) -> (r: String)
        ensures
            r@ == bs58_encoded(self.0@),
            bs58_decoded(r@) == Some(self.0@),
    {
        let bytes = self.to_vec();
        bs58_encode(bytes.as_slice())
    }

    /// A signature from its base58 text.
    pub fn decode(text: &String) -> (r: Result<Self, Error>)
        ensures
            match bs58_decoded(text@) {
                Some(b) => if b.len() == 64 {
                    r matches Ok(x) && x.0@ == b
                } else {
                    r == Err::<Self, Error>(Error::InvalidConversion)
                },
                None => r == Err::<Self, Error>(Error::InvalidConversion),
            },
    {
        match bs58_decode(text.as_str()) {
            Some(bytes) => Self::try_from(bytes),
            None => Err(Error::InvalidConversion),
        }
    }
}

} // verus!
