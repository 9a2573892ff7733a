//! Hashing primitives and the signing capability.
//!
//! The digests themselves come from outside crates and are only named
//! here; everything built on top of them — the recursive deep hash and
//! the wallet address derivation — is verified against those names.

use vstd::prelude::*;

use sha2::Digest;

use crate::base64::b64_encode;
use crate::error::ArweaveError;
use crate::transaction::DeepHashItem;
use crate::utils::{dec_bytes, string_from_chars, u64_to_dec_bytes};
use crate::base64::b64_encode_chars;

verus! {

/// The SHA-256 digest of a byte sequence: a function of the bytes alone.
pub uninterp spec fn sha256_of(b: Seq<u8>) -> Seq<u8>;

/// The SHA-384 digest of a byte sequence: a function of the bytes alone.
pub uninterp spec fn sha384_of(b: Seq<u8>) -> Seq<u8>;

/// The lowercase hex form of the BLAKE3 hash of a string's UTF-8 bytes:
/// a function of the string alone.
pub uninterp spec fn blake3_hex_of(s: Seq<char>) -> Seq<char>;

/// Relies on `sha2::Sha256` (FIPS 180-4): a 32-byte digest that depends on
/// the input bytes alone.
#[verifier::external_body]
pub fn hash_sha256(data: &[u8]) -> (r: Vec<u8>)
    ensures
        r@ == sha256_of(data@),
        r@.len() == 32,
{
    sha2::Sha256::digest(data).as_slice().to_vec()
}

/// Relies on `sha2::Sha384` (FIPS 180-4): a 48-byte digest that depends on
/// the input bytes alone.
#[verifier::external_body]
pub fn hash_sha384(data: &[u8]) -> (r: Vec<u8>)
    ensures
        r@ == sha384_of(data@),
        r@.len() == 48,
{
    sha2::Sha384::digest(data).as_slice().to_vec()
}

/// Relies on `blake3::hash` and `blake3::Hash::to_hex`: a 32-byte keyless
/// digest of the input bytes alone, shown as 64 lowercase hex characters.
#[verifier::external_body]
pub fn blake3_hex(s: &str) -> (r: String)
    ensures
        r@ == blake3_hex_of(s@),
        r@.len() == 64,
{
    blake3::hash(s.as_bytes()).to_hex().as_str().to_string()
}

/// The signing capability: a wallet-backed signer with an RSA public
/// modulus. The core never reads key material; implementations live with
/// the caller and nothing is assumed of them — what signing yields is
/// checked where it is used.
pub trait Methods {
    /// Hands out the public modulus bytes, big-endian.
    fn public_modulus(&self) -> (r: Vec<u8>);

    /// Signs a message; the result is expected to have the modulus's
    /// length, which callers check.
    fn sign(&self, message: &[u8]) -> (r: Result<Vec<u8>, ArweaveError>);
}

/// The wallet address belonging to a public modulus: base64url of its
/// SHA-256 digest.
pub fn wallet_address(modulus: &[u8]) -> (r: String)
    ensures
        r@ == b64_encode(sha256_of(modulus@)),
{
    let digest = hash_sha256(modulus);
    let cs = b64_encode_chars(digest.as_slice());
    string_from_chars(&cs)
}

/// The deep hash of a tree node.
///
/// A blob hashes as `SHA384(SHA384("blob" ‖ len) ‖ SHA384(bytes))`; a list
/// starts from `SHA384("list" ‖ count)` and folds each child's deep hash
/// into the accumulator.
pub open spec fn deep_hash_of(item: DeepHashItem) -> Seq<u8>
    decreases item,
{
    match item {
        DeepHashItem::Blob(b) => {
            let tag = seq![98u8, 108u8, 111u8, 98u8] + dec_bytes(b@.len());
            sha384_of(sha384_of(tag) + sha384_of(b@))
        },
        DeepHashItem::List(items) => {
            let tag = seq![108u8, 105u8, 115u8, 116u8] + dec_bytes(items@.len());
            deep_hash_fold(sha384_of(tag), items@)
        },
    }
}

/// Folds the deep hashes of `items` into `acc`, left to right.
pub open spec fn deep_hash_fold(acc: Seq<u8>, items: Seq<DeepHashItem>) -> Seq<u8>
    decreases items,
{
    if items.len() == 0 {
        acc
    } else {
        deep_hash_fold(sha384_of(acc + deep_hash_of(items[0])), items.drop_first())
    }
}

/// Computes the deep hash of a byte-tree; 48 bytes, a function of the
/// tree's shape and bytes alone.
pub fn deep_hash(item: &DeepHashItem) -> (r: Vec<u8>)
    ensures
        r@ == deep_hash_of(*item),
        r@.len() == 48,
    decreases *item,
{
    match item {
        DeepHashItem::Blob(b) => {
            let mut tag: Vec<u8> = Vec::new();
            tag.push(98);
            tag.push(108);
            tag.push(111);
            tag.push(98);
            let mut len_digits = u64_to_dec_bytes(b.len() as u64);
            tag.append(&mut len_digits);
            proof {
                assert(tag@ =~= seq![98u8, 108u8, 111u8, 98u8] + dec_bytes(b@.len()));
            }
            let tag_hash = hash_sha384(tag.as_slice());
            let mut data_hash = hash_sha384(b.as_slice());
            let mut combined = tag_hash;
            combined.append(&mut data_hash);
            hash_sha384(combined.as_slice())
        },
        DeepHashItem::List(items) => {
            let mut tag: Vec<u8> = Vec::new();
            tag.push(108);
            tag.push(105);
            tag.push(115);
            tag.push(116);
            let mut len_digits = u64_to_dec_bytes(items.len() as u64);
            tag.append(&mut len_digits);
            proof {
                assert(tag@ =~= seq![108u8, 105u8, 115u8, 116u8] + dec_bytes(items@.len()));
            }
            let mut acc = hash_sha384(tag.as_slice());
            let mut idx: usize = 0;
            proof {
                assert(items@.skip(0) =~= items@);
                assert(*item == DeepHashItem::List(*items));
            }
            while idx < items.len()
                invariant
                    idx <= items@.len(),
                    acc@.len() == 48,
                    *item == DeepHashItem::List(*items),
                    deep_hash_of(*item) == deep_hash_fold(acc@, items@.skip(idx as int)),
                decreases items@.len() - idx,
            {
                proof {
                    assert(items@.skip(idx as int)[0] == items@[idx as int]);
                    assert(items@.skip(idx as int).drop_first() =~= items@.skip(idx as int + 1));
                    assert(*item == DeepHashItem::List(*items));
                    assert(decreases_to!(*item => item->List_0));
                    assert(decreases_to!(item->List_0 => item->List_0@));
                    assert(decreases_to!(item->List_0@ => item->List_0@[idx as int]));
                    assert(decreases_to!(*item => items@[idx as int]));
                }
                let mut child = deep_hash(&items[idx]);
                let mut buf = acc;
                buf.append(&mut child);
                acc = hash_sha384(buf.as_slice());
                idx += 1;
            }
            proof {
                assert(items@.skip(items@.len() as int).len() == 0);
            }
            acc
        },
    }
}

} // verus!
