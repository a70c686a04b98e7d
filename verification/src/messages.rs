//! Signed transactions.

use crate::blockchain::{
    decode_tx, encode_tx, law_tx_round_trip, RawTransaction, RawTransactionView,
};
use crate::crypto::{
    ed25519_accepts, ed25519_signature, sha256, sign, verify, PublicKey, SecretKey, Signature,
};
use crate::storage::copy_bytes;
use vstd::prelude::*;
use vstd::slice::*;

verus! {

/// A transaction with its author's public key and the author's signature
/// of the transaction's stored form.
#[derive(Clone, Debug, PartialEq, Eq)]
pub struct Signed {
    pub author: PublicKey,
    pub raw: RawTransaction,
    pub signature: Signature,
}

/// The mathematical content of a `Signed`.
pub struct SignedView {
    pub author: Seq<u8>,
    pub signature: Seq<u8>,
    pub raw: RawTransactionView,
}

impl View for Signed {
    type V = SignedView;

    open spec fn view(&self) -> SignedView {
        SignedView { author: self.author@, signature: self.signature@, raw: self.raw@ }
    }
}

/// The stored form of a signed transaction: the author's key, the
/// signature, then the stored form of the transaction.
pub open spec fn encode_signed(signed: SignedView) -> Seq<u8> {
    signed.author + signed.signature + encode_tx(signed.raw)
}

/// The signed transaction that stored bytes stand for, if they are long
/// enough to hold a key, a signature and a transaction.
pub open spec fn decode_signed(bytes: Seq<u8>) -> Option<SignedView> {
    if bytes.len() < 100 {
        None
    } else {
        Some(
            SignedView {
                author: bytes.subrange(0, 32),
                signature: bytes.subrange(32, 96),
                raw: decode_tx(bytes.subrange(96, bytes.len() as int)).unwrap(),
            },
        )
    }
}

/// Decoding the stored form of a signed transaction gives it back.
pub proof fn law_signed_round_trip(signed: SignedView)
    requires
        signed.author.len() == 32,
        signed.signature.len() == 64,
    ensures
        decode_signed(encode_signed(signed)) == Some(signed),
{
    let bytes = encode_signed(signed);
    law_tx_round_trip(signed.raw);
    vstd::bytes::lemma_auto_spec_u16_to_from_le_bytes();
    assert(bytes.subrange(0, 32) =~= signed.author);
    assert(bytes.subrange(32, 96) =~= signed.signature);
    assert(bytes.subrange(96, bytes.len() as int) =~= encode_tx(signed.raw));
}

fn key_from(bytes: &[u8]) -> (out: [u8; 32])
    requires
        bytes@.len() == 32,
    ensures
        out@ == bytes@,
{
    let mut out: [u8; 32] = [0u8; 32];
    let mut i: usize = 0;
    while i < 32
        invariant
            i <= 32,
            bytes@.len() == 32,
            forall|j: int| 0 <= j < i ==> out@[j] == bytes@[j],
        decreases 32 - i,
    {
        out[i] = bytes[i];
        i += 1;
    }
    assert(out@ =~= bytes@);
    out
}

fn signature_from(bytes: &[u8]) -> (out: [u8; 64])
    requires
        bytes@.len() == 64,
    ensures
        out@ == bytes@,
{
    let mut out: [u8; 64] = [0u8; 64];
    let mut i: usize = 0;
    while i < 64
        invariant
            i <= 64,
            bytes@.len() == 64,
            forall|j: int| 0 <= j < i ==> out@[j] == bytes@[j],
        decreases 64 - i,
    {
        out[i] = bytes[i];
        i += 1;
    }
    assert(out@ =~= bytes@);
    out
}

/// Signs `raw` with `secret_key` and names `public_key` as the author.
pub fn sign_transaction(raw: RawTransaction, public_key: PublicKey, secret_key: &SecretKey) -> (signed:
    Signed)
    ensures
        signed.author == public_key,
        signed.raw == raw,
        signed.signature@ == ed25519_signature(secret_key@, encode_tx(raw@)),
{
    let bytes = raw.encode();
    let signature = sign(bytes.as_slice(), secret_key);
    Signed { author: public_key, raw, signature }
}

impl Signed {
    /// Whether the signature is accepted as the author's signature of the
    /// transaction.
    pub fn verify(&self) -> (ok: bool)
        ensures
            ok == ed25519_accepts(self.author@, encode_tx(self.raw@), self.signature@),
    {
        let bytes = self.raw.encode();
        verify(&self.signature, bytes.as_slice(), &self.author)
    }

    /// The stored form of the signed transaction.
    pub fn encode(&self) -> (out: Vec<u8>)
        ensures
            out@ == encode_signed(self@),
    {
        let mut out = copy_bytes(self.author.bytes.as_slice());
        let mut signature = copy_bytes(self.signature.bytes.as_slice());
        out.append(&mut signature);
        let mut raw = self.raw.encode();
        out.append(&mut raw);
        out
    }

    /// Reads a signed transaction from its stored form; `None` exactly when
    /// the bytes are too short.
    pub fn decode(bytes: &[u8]) -> (r: Option<Signed>)
        ensures
            match decode_signed(bytes@) {
                Some(signed) => r is Some && r->Some_0@ == signed,
                None => r is None,
            },
    {
        if bytes.len() < 100 {
            return None;
        }
        let author = PublicKey { bytes: key_from(slice_subrange(bytes, 0, 32)) };
        let signature = Signature { bytes: signature_from(slice_subrange(bytes, 32, 96)) };
        match RawTransaction::decode(slice_subrange(bytes, 96, bytes.len())) {
            Some(raw) => Some(Signed { author, raw, signature }),
            None => None,
        }
    }

    /// The hash that identifies the transaction.
    pub fn hash(&self) -> (h: crate::crypto::Hash)
        ensures
            h@ == sha256(encode_tx(self.raw@)),
            h@.len() == crate::crypto::HASH_SIZE,
    {
        self.raw.hash()
    }
}

} // verus!
