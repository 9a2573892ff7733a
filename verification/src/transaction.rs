//! Transaction data model: opaque byte-strings with a base64url wire form,
//! tags, and the nested byte-tree that feeds the network's deep hash.

use vstd::prelude::*;
use vstd::pervasive::unreached;
use vstd::slice::slice_to_vec;
use vstd::string::*;

use crate::base64::{b64_decode_spec, b64_decode_chars, b64_encode, b64_encode_chars};
use crate::crypto::{
    deep_hash, deep_hash_fold, deep_hash_of, hash_sha256, sha256_of, sha384_of, Methods,
};
use crate::error::ArweaveError;
use crate::merkle::{
    chunk_ranges, data_proofs, data_root_of, generate_data_root, generate_leaves,
    lemma_proofs_follow_model, lemma_proofs_match_leaves, node_id, node_id_ref, proof_views,
    resolve_proofs, Node, Proof,
};
use crate::utils::{chars_vec, dec_bytes, string_from_chars, u64_to_dec_bytes};

verus! {

/// An opaque byte sequence whose wire representation is URL-safe base64
/// without padding. Equality is byte equality.
#[derive(PartialEq, Eq, Debug)]
pub struct Base64(pub Vec<u8>);

impl View for Base64 {
    type V = Seq<u8>;

    open spec fn view(&self) -> Seq<u8> {
        self.0@
    }
}

impl Clone for Base64 {
    fn clone(&self) -> (r: Self)
        ensures
            r@ == self@,
    {
        Base64(slice_to_vec(self.0.as_slice()))
    }
}

impl Base64 {
    /// The empty byte-string; its wire form is the empty text.
    pub fn empty() -> (r: Base64)
        ensures
            r@ == Seq::<u8>::empty(),
    {
        Base64(Vec::new())
    }

    /// Whether no bytes are held.
    pub fn is_empty(&self) -> (r: bool)
        ensures
            r == (self@.len() == 0),
    {
        self.0.len() == 0
    }

    /// Decodes base64url text; rejects any text that is not the exact
    /// encoding of some byte sequence.
    pub fn from_str(s: &str) -> (r: Result<Base64, ArweaveError>)
        ensures
            match r {
                Ok(b) => b64_decode_spec(s@) == Some(b@),
                Err(e) => e == ArweaveError::InvalidBase64 && b64_decode_spec(s@) is None,
            },
    {
        let cs = chars_vec(s);
        match b64_decode_chars(&cs) {
            Ok(v) => Ok(Base64(v)),
            Err(_) => Err(ArweaveError::InvalidBase64),
        }
    }

    /// Wraps the UTF-8 bytes of a string.
    pub fn from_utf8_str(s: &str) -> (r: Base64)
        ensures
            r@ == s.spec_bytes(),
    {
        Base64(s.as_bytes_vec())
    }

    /// The wire form: URL-safe base64 of the held bytes, without padding.
    pub fn to_text(&self) -> (r: String)
        ensures
            r@ == b64_encode(self@),
    {
        let cs = b64_encode_chars(self.0.as_slice());
        string_from_chars(&cs)
    }
}

/// A `(name, value)` pair of byte-strings attached to a transaction; the
/// wire form of each side is base64url of the raw bytes.
pub struct Tag {
    pub name: Base64,
    pub value: Base64,
}

impl Clone for Tag {
    fn clone(&self) -> (r: Self)
        ensures
            r.name@ == self.name@ && r.value@ == self.value@,
    {
        Tag { name: self.name.clone(), value: self.value.clone() }
    }
}

impl Tag {
    /// Builds a tag from UTF-8 text for both sides.
    pub fn from_utf8_strs(name: &str, value: &str) -> (r: Tag)
        ensures
            r.name@ == name.spec_bytes(),
            r.value@ == value.spec_bytes(),
    {
        Tag { name: Base64::from_utf8_str(name), value: Base64::from_utf8_str(value) }
    }
}

/// A node of the heterogeneous byte-tree that the deep hash runs over:
/// either a leaf of raw bytes or a list of children.
pub enum DeepHashItem {
    Blob(Vec<u8>),
    List(Vec<DeepHashItem>),
}

impl DeepHashItem {
    /// A leaf holding a copy of the given bytes.
    pub fn from_data(data: &[u8]) -> (r: DeepHashItem)
        ensures
            r matches DeepHashItem::Blob(v) && v@ == data@,
    {
        DeepHashItem::Blob(slice_to_vec(data))
    }

    /// An inner node with the given children.
    pub fn from_children(children: Vec<DeepHashItem>) -> (r: DeepHashItem)
        ensures
            r == DeepHashItem::List(children),
    {
        DeepHashItem::List(children)
    }
}

} // verus!

verus! {

/// The sniffed MIME type of a payload's leading magic bytes, as UTF-8
/// bytes, or `None` when no known signature matches: a function of the
/// payload alone.
pub uninterp spec fn mime_of(b: Seq<u8>) -> Option<Seq<u8>>;

/// The UTF-8 bytes of `"application/json"`, the fallback content type.
pub open spec fn json_mime() -> Seq<u8> {
    seq![
        97u8, 112u8, 112u8, 108u8, 105u8, 99u8, 97u8, 116u8, 105u8, 111u8, 110u8, 47u8, 106u8,
        115u8, 111u8, 110u8,
    ]
}

/// The content type recorded for a payload: the sniffed MIME type, or the
/// JSON fallback.
pub open spec fn content_type_of(b: Seq<u8>) -> Seq<u8> {
    match mime_of(b) {
        Some(m) => m,
        None => json_mime(),
    }
}

/// The UTF-8 bytes of `"Content-Type"`, the leading tag's name.
pub open spec fn content_type_name() -> Seq<u8> {
    seq![67u8, 111u8, 110u8, 116u8, 101u8, 110u8, 116u8, 45u8, 84u8, 121u8, 112u8, 101u8]
}

/// Relies on `infer::get` and `infer::Type::mime_type`: matches the
/// payload's leading magic bytes against a fixed signature table, a
/// function of the bytes alone.
#[verifier::external_body]
fn sniff_mime(data: &[u8]) -> (r: Option<Vec<u8>>)
    ensures
        match r {
            Some(v) => mime_of(data@) == Some(v@),
            None => mime_of(data@) is None,
        },
{
    match infer::get(data) {
        Some(kind) => Some(kind.mime_type().as_bytes().to_vec()),
        None => None,
    }
}

/// Builds the `Content-Type` tag name.
fn content_type_name_vec() -> (r: Vec<u8>)
    ensures
        r@ == content_type_name(),
{
    let mut v: Vec<u8> = Vec::new();
    v.push(67);
    v.push(111);
    v.push(110);
    v.push(116);
    v.push(101);
    v.push(110);
    v.push(116);
    v.push(45);
    v.push(84);
    v.push(121);
    v.push(112);
    v.push(101);
    proof {
        assert(v@ =~= content_type_name());
    }
    v
}

/// Determines the content type of a payload, falling back to JSON.
fn content_type_vec(data: &[u8]) -> (r: Vec<u8>)
    ensures
        r@ == content_type_of(data@),
{
    match sniff_mime(data) {
        Some(v) => v,
        None => {
            let mut v: Vec<u8> = Vec::new();
            v.push(97);
            v.push(112);
            v.push(112);
            v.push(108);
            v.push(105);
            v.push(99);
            v.push(97);
            v.push(116);
            v.push(105);
            v.push(111);
            v.push(110);
            v.push(47);
            v.push(106);
            v.push(115);
            v.push(111);
            v.push(110);
            proof {
                assert(v@ =~= json_mime());
            }
            v
        },
    }
}

/// What the Merkle engine recorded of one chunk: its hash and byte range.
pub struct Chunk {
    pub data_hash: Vec<u8>,
    pub min_byte_range: usize,
    pub max_byte_range: usize,
}

/// Whether `c` describes the given chunk range of `data`.
pub open spec fn chunk_matches(c: Chunk, data: Seq<u8>, range: (int, int)) -> bool {
    &&& c.min_byte_range as int == range.0
    &&& c.max_byte_range as int == range.1
    &&& c.data_hash@ == sha256_of(data.subrange(range.0, range.1))
}

/// A data transaction: the signed header fields plus the in-memory
/// payload and the chunk material retained for chunked-upload use.
///
/// `id` is the SHA-256 of `signature`; both stay empty until signing, and
/// a change to any covered field invalidates them.
pub struct Transaction {
    pub format: u64,
    pub id: Base64,
    pub last_tx: Base64,
    pub owner: Base64,
    pub tags: Vec<Tag>,
    pub target: Base64,
    pub quantity: u64,
    pub data: Base64,
    pub data_size: u64,
    pub data_root: Base64,
    pub reward: u64,
    pub signature: Base64,
    pub chunks: Vec<Chunk>,
    pub proofs: Vec<Proof>,
}

/// One accumulator step of the deep-hash fold.
pub open spec fn fold_step(acc: Seq<u8>, child: Seq<u8>) -> Seq<u8> {
    sha384_of(acc + child)
}

/// The deep hash of a blob of bytes.
pub open spec fn blob_item_hash(b: Seq<u8>) -> Seq<u8> {
    sha384_of(sha384_of(seq![98u8, 108u8, 111u8, 98u8] + dec_bytes(b.len())) + sha384_of(b))
}

/// The starting accumulator of an `n`-element list.
pub open spec fn list_acc(n: nat) -> Seq<u8> {
    sha384_of(seq![108u8, 105u8, 115u8, 116u8] + dec_bytes(n))
}

/// The deep hash of one tag: a two-element list of name and value blobs.
pub open spec fn tag_item_hash(t: Tag) -> Seq<u8> {
    fold_step(fold_step(list_acc(2), blob_item_hash(t.name@)), blob_item_hash(t.value@))
}

/// Folds tag hashes into `acc`, left to right.
pub open spec fn tags_fold(acc: Seq<u8>, tags: Seq<Tag>) -> Seq<u8>
    decreases tags.len(),
{
    if tags.len() == 0 {
        acc
    } else {
        tags_fold(fold_step(acc, tag_item_hash(tags[0])), tags.drop_first())
    }
}

/// The deep hash of a tag list.
pub open spec fn tags_list_hash(tags: Seq<Tag>) -> Seq<u8> {
    tags_fold(list_acc(tags.len()), tags)
}

/// The deep hash a transaction is signed over: the nine signing fields in
/// canonical order.
pub open spec fn tx_signing_hash(t: Transaction) -> Seq<u8> {
    let a0 = list_acc(9);
    let a1 = fold_step(a0, blob_item_hash(dec_bytes(t.format as nat)));
    let a2 = fold_step(a1, blob_item_hash(t.owner@));
    let a3 = fold_step(a2, blob_item_hash(t.target@));
    let a4 = fold_step(a3, blob_item_hash(dec_bytes(t.quantity as nat)));
    let a5 = fold_step(a4, blob_item_hash(dec_bytes(t.reward as nat)));
    let a6 = fold_step(a5, blob_item_hash(t.last_tx@));
    let a7 = fold_step(a6, tags_list_hash(t.tags@));
    let a8 = fold_step(a7, blob_item_hash(dec_bytes(t.data_size as nat)));
    fold_step(a8, blob_item_hash(t.data_root@))
}

/// Folding items whose deep hashes match a tag list gives the tag fold.
proof fn lemma_fold_equiv(acc: Seq<u8>, items: Seq<DeepHashItem>, tags: Seq<Tag>)
    requires
        items.len() == tags.len(),
        forall|i: int|
            0 <= i < items.len() ==> deep_hash_of(#[trigger] items[i]) == tag_item_hash(tags[i]),
    ensures
        deep_hash_fold(acc, items) == tags_fold(acc, tags),
    decreases items.len(),
{
    if items.len() > 0 {
        assert(deep_hash_of(items[0]) == tag_item_hash(tags[0]));
        assert(forall|i: int|
            0 <= i < items.drop_first().len() ==> deep_hash_of(
                #[trigger] items.drop_first()[i],
            ) == tag_item_hash(tags.drop_first()[i])) by {
            assert(forall|i: int|
                0 <= i < items.drop_first().len() ==> #[trigger] items.drop_first()[i]
                    == items[i + 1] && tags.drop_first()[i] == tags[i + 1]);
        }
        lemma_fold_equiv(
            fold_step(acc, deep_hash_of(items[0])),
            items.drop_first(),
            tags.drop_first(),
        );
    }
}

impl Transaction {
    /// Assembles the nested byte-tree whose deep hash this transaction is
    /// signed over.
    pub fn to_deep_hash_item(&self) -> (r: DeepHashItem)
        ensures
            deep_hash_of(r) == tx_signing_hash(*self),
    {
        let mut items: Vec<DeepHashItem> = Vec::new();
        let e0 = DeepHashItem::Blob(u64_to_dec_bytes(self.format));
        let ghost g0 = e0;
        items.push(e0);
        let e1 = DeepHashItem::Blob(slice_to_vec(self.owner.0.as_slice()));
        let ghost g1 = e1;
        items.push(e1);
        let e2 = DeepHashItem::Blob(slice_to_vec(self.target.0.as_slice()));
        let ghost g2 = e2;
        items.push(e2);
        let e3 = DeepHashItem::Blob(u64_to_dec_bytes(self.quantity));
        let ghost g3 = e3;
        items.push(e3);
        let e4 = DeepHashItem::Blob(u64_to_dec_bytes(self.reward));
        let ghost g4 = e4;
        items.push(e4);
        let e5 = DeepHashItem::Blob(slice_to_vec(self.last_tx.0.as_slice()));
        let ghost g5 = e5;
        items.push(e5);
        let mut tag_items: Vec<DeepHashItem> = Vec::new();
        let mut i: usize = 0;
        while i < self.tags.len()
            invariant
                i <= self.tags@.len(),
                tag_items@.len() == i,
                forall|j: int|
                    0 <= j < i ==> deep_hash_of(#[trigger] tag_items@[j]) == tag_item_hash(
                        self.tags@[j],
                    ),
            decreases self.tags@.len() - i,
        {
            let t = &self.tags[i];
            let mut pair: Vec<DeepHashItem> = Vec::new();
            let p0 = DeepHashItem::Blob(slice_to_vec(t.name.0.as_slice()));
            let ghost q0 = p0;
            pair.push(p0);
            let p1 = DeepHashItem::Blob(slice_to_vec(t.value.0.as_slice()));
            let ghost q1 = p1;
            pair.push(p1);
            let ghost pv = pair@;
            let item = DeepHashItem::List(pair);
            proof {
                assert(pv =~= seq![q0, q1]);
                assert(deep_hash_of(item) == deep_hash_fold(list_acc(2), pv));
                assert(deep_hash_of(pv[0]) == blob_item_hash(t.name@));
                assert(pv.drop_first() =~= seq![q1]);
                assert(deep_hash_fold(list_acc(2), pv) == deep_hash_fold(
                    fold_step(list_acc(2), deep_hash_of(q0)),
                    seq![q1],
                ));
                assert(deep_hash_of(q1) == blob_item_hash(t.value@));
                assert(seq![q1].drop_first() =~= Seq::<DeepHashItem>::empty());
                let accq = fold_step(list_acc(2), deep_hash_of(q0));
                assert(seq![q1][0] == q1);
                assert(deep_hash_fold(accq, seq![q1]) == deep_hash_fold(
                    fold_step(accq, deep_hash_of(q1)),
                    seq![q1].drop_first(),
                ));
                assert(deep_hash_fold(fold_step(accq, deep_hash_of(q1)), seq![q1].drop_first())
                    == fold_step(accq, deep_hash_of(q1)));
                assert(deep_hash_of(item) == tag_item_hash(self.tags@[i as int]));
            }
            tag_items.push(item);
            i += 1;
        }
        let ghost tv = tag_items@;
        let e6 = DeepHashItem::List(tag_items);
        let ghost g6 = e6;
        items.push(e6);
        let e7 = DeepHashItem::Blob(u64_to_dec_bytes(self.data_size));
        let ghost g7 = e7;
        items.push(e7);
        let e8 = DeepHashItem::Blob(slice_to_vec(self.data_root.0.as_slice()));
        let ghost g8 = e8;
        items.push(e8);
        let ghost els = items@;
        let r = DeepHashItem::List(items);
        proof {
            assert(els =~= seq![g0, g1, g2, g3, g4, g5, g6, g7, g8]);
            let a0 = list_acc(9);
            assert(deep_hash_of(r) == deep_hash_fold(a0, els));
            let s1 = els.drop_first();
            let s2 = s1.drop_first();
            let s3 = s2.drop_first();
            let s4 = s3.drop_first();
            let s5 = s4.drop_first();
            let s6 = s5.drop_first();
            let s7 = s6.drop_first();
            let s8 = s7.drop_first();
            let s9 = s8.drop_first();
            assert(s1 =~= seq![g1, g2, g3, g4, g5, g6, g7, g8]);
            assert(s2 =~= seq![g2, g3, g4, g5, g6, g7, g8]);
            assert(s3 =~= seq![g3, g4, g5, g6, g7, g8]);
            assert(s4 =~= seq![g4, g5, g6, g7, g8]);
            assert(s5 =~= seq![g5, g6, g7, g8]);
            assert(s6 =~= seq![g6, g7, g8]);
            assert(s7 =~= seq![g7, g8]);
            assert(s8 =~= seq![g8]);
            assert(s9 =~= Seq::<DeepHashItem>::empty());
            assert(deep_hash_of(g0) == blob_item_hash(dec_bytes(self.format as nat)));
            assert(deep_hash_of(g1) == blob_item_hash(self.owner@));
            assert(deep_hash_of(g2) == blob_item_hash(self.target@));
            assert(deep_hash_of(g3) == blob_item_hash(dec_bytes(self.quantity as nat)));
            assert(deep_hash_of(g4) == blob_item_hash(dec_bytes(self.reward as nat)));
            assert(deep_hash_of(g5) == blob_item_hash(self.last_tx@));
            lemma_fold_equiv(list_acc(tv.len()), tv, self.tags@);
            assert(deep_hash_of(g6) == deep_hash_fold(list_acc(tv.len()), tv));
            assert(deep_hash_of(g6) == tags_list_hash(self.tags@));
            assert(deep_hash_of(g7) == blob_item_hash(dec_bytes(self.data_size as nat)));
            assert(deep_hash_of(g8) == blob_item_hash(self.data_root@));
            let a1 = fold_step(a0, deep_hash_of(g0));
            let a2 = fold_step(a1, deep_hash_of(g1));
            let a3 = fold_step(a2, deep_hash_of(g2));
            let a4 = fold_step(a3, deep_hash_of(g3));
            let a5 = fold_step(a4, deep_hash_of(g4));
            let a6 = fold_step(a5, deep_hash_of(g5));
            let a7 = fold_step(a6, deep_hash_of(g6));
            let a8 = fold_step(a7, deep_hash_of(g7));
            assert(deep_hash_fold(a0, els) == deep_hash_fold(a1, s1));
            assert(deep_hash_fold(a1, s1) == deep_hash_fold(a2, s2));
            assert(deep_hash_fold(a2, s2) == deep_hash_fold(a3, s3));
            assert(deep_hash_fold(a3, s3) == deep_hash_fold(a4, s4));
            assert(deep_hash_fold(a4, s4) == deep_hash_fold(a5, s5));
            assert(deep_hash_fold(a5, s5) == deep_hash_fold(a6, s6));
            assert(deep_hash_fold(a6, s6) == deep_hash_fold(a7, s7));
            assert(deep_hash_fold(a7, s7) == deep_hash_fold(a8, s8));
            assert(s8[0] == g8);
            assert(deep_hash_fold(a8, s8) == deep_hash_fold(fold_step(a8, deep_hash_of(g8)), s9));
            assert(deep_hash_fold(fold_step(a8, deep_hash_of(g8)), s9) == fold_step(
                a8,
                deep_hash_of(g8),
            ));
            assert(deep_hash_of(r) == tx_signing_hash(*self));
        }
        r
    }
}

/// Whether `b` agrees with `a` on every field the signature covers and on
/// the retained payload and chunk material.
pub open spec fn same_but_sig(a: Transaction, b: Transaction) -> bool {
    &&& a.format == b.format
    &&& a.last_tx == b.last_tx
    &&& a.owner == b.owner
    &&& a.tags == b.tags
    &&& a.target == b.target
    &&& a.quantity == b.quantity
    &&& a.data == b.data
    &&& a.data_size == b.data_size
    &&& a.data_root == b.data_root
    &&& a.reward == b.reward
    &&& a.chunks == b.chunks
    &&& a.proofs == b.proofs
}

/// Assembles an unsigned data transaction over an in-memory payload.
///
/// The leading tag is always `Content-Type`, derived from the payload's
/// magic bytes; the caller's tags follow in order. The Merkle engine
/// supplies `data_root`, the chunk set and one proof per chunk; `id` and
/// `signature` stay empty until signing.
pub fn create_transaction<S: Methods>(
    crypto: &S,
    data: Vec<u8>,
    other_tags: Option<Vec<Tag>>,
    last_tx: Base64,
    reward: u64,
) -> (t: Transaction)
    ensures
        t.format == 2,
        t.data@ == data@,
        t.data_size as nat == data@.len(),
        t.data_root@ == data_root_of(data@),
        t.data_root@.len() == 32,
        t.last_tx@ == last_tx@,
        t.reward == reward,
        t.quantity == 0,
        t.target@.len() == 0,
        t.id@.len() == 0,
        t.signature@.len() == 0,
        t.tags@.len() == 1 + (match other_tags {
            Some(ts) => ts@.len(),
            None => 0,
        }),
        t.tags@[0].name@ == content_type_name(),
        t.tags@[0].value@ == content_type_of(data@),
        (other_tags matches Some(ts) ==> forall|i: int|
            0 <= i < ts@.len() ==> #[trigger] t.tags@[i + 1] == ts@[i]),
        t.chunks@.len() == chunk_ranges(data@.len()).len(),
        forall|i: int|
            0 <= i < t.chunks@.len() ==> chunk_matches(
                #[trigger] t.chunks@[i],
                data@,
                chunk_ranges(data@.len())[i],
            ),
        t.proofs@.len() == t.chunks@.len(),
        forall|i: int|
            0 <= i < t.proofs@.len() ==> (#[trigger] t.proofs@[i]).offset as int == chunk_ranges(
                data@.len(),
            )[i].0,
        proof_views(t.proofs@) == data_proofs(data@),
{
    let leaves = generate_leaves(&data);
    let mut chunks: Vec<Chunk> = Vec::new();
    let mut i: usize = 0;
    while i < leaves.len()
        invariant
            i <= leaves@.len(),
            chunks@.len() == i,
            leaves@.len() == chunk_ranges(data@.len()).len(),
            forall|j: int|
                0 <= j < leaves@.len() ==> crate::merkle::is_leaf_for(
                    #[trigger] leaves@[j],
                    data@,
                    chunk_ranges(data@.len())[j],
                ),
            forall|j: int|
                0 <= j < i ==> chunk_matches(
                    #[trigger] chunks@[j],
                    data@,
                    chunk_ranges(data@.len())[j],
                ),
        decreases leaves@.len() - i,
    {
        let node = &leaves[i];
        match node {
            Node::Leaf { data_hash, min_byte_range, max_byte_range, .. } => {
                chunks.push(
                    Chunk {
                        data_hash: slice_to_vec(data_hash.as_slice()),
                        min_byte_range: *min_byte_range,
                        max_byte_range: *max_byte_range,
                    },
                );
            },
            Node::Branch { .. } => {
                proof {
                    assert(false);
                }
            },
        }
        i += 1;
    }
    let ghost leaves_view = leaves@;
    let root = match generate_data_root(leaves) {
        Ok(n) => n,
        Err(_) => {
            proof {
                assert(false);
            }
            unreached()
        },
    };
    let proofs = resolve_proofs(&root);
    proof {
        lemma_proofs_match_leaves(root, Seq::<u8>::empty());
        lemma_proofs_follow_model(root, Seq::<u8>::empty());
        assert(crate::merkle::models_of(leaves_view) == crate::merkle::leaf_models(data@));
        assert(proof_views(proofs@) == data_proofs(data@));
        crate::merkle::lemma_leaves_of_leaf_list(leaves_view);
        assert(crate::merkle::summaries(leaves_view) =~= crate::merkle::leaf_summaries(data@));
        assert(node_id(root) == data_root_of(data@));
        assert(proofs@.len() == crate::merkle::proofs_spec(root, Seq::<u8>::empty()).len());
        assert(forall|j: int|
            0 <= j < proofs@.len() ==> (#[trigger] proofs@[j]).offset as int
                == crate::merkle::proofs_spec(root, Seq::<u8>::empty())[j].0);
    }
    let data_root_vec = slice_to_vec(node_id_ref(&root).as_slice());
    let owner = Base64(crypto.public_modulus());
    let ct_value = content_type_vec(data.as_slice());
    let mut tags: Vec<Tag> = Vec::new();
    tags.push(Tag { name: Base64(content_type_name_vec()), value: Base64(ct_value) });
    match other_tags {
        Some(mut ts) => {
            tags.append(&mut ts);
        },
        None => {},
    }
    let data_size = data.len() as u64;
    Transaction {
        format: 2,
        id: Base64::empty(),
        last_tx,
        owner,
        tags,
        target: Base64::empty(),
        quantity: 0,
        data: Base64(data),
        data_size,
        data_root: Base64(data_root_vec),
        reward,
        signature: Base64::empty(),
        chunks,
        proofs,
    }
}

impl Transaction {
    /// Invalidates the signature: after a covered field changes, `id` and
    /// `signature` no longer belong to this transaction and must be
    /// cleared before re-signing.
    pub fn clear_signature(&mut self)
        ensures
            final(self).signature@.len() == 0,
            final(self).id@.len() == 0,
            same_but_sig(*final(self), *old(self)),
    {
        self.signature = Base64::empty();
        self.id = Base64::empty();
    }
}

/// Signs a transaction: hashes the canonical deep-hash tree, obtains a
/// signature from the capability, and derives `id` as the SHA-256 of the
/// signature. Every other field is left untouched.
pub fn sign_transaction<S: Methods>(crypto: &S, transaction: Transaction) -> (r: Result<
    Transaction,
    ArweaveError,
>)
    ensures
        match r {
            Ok(t) => {
                &&& t.signature@.len() == t.owner@.len()
                &&& t.id@ == sha256_of(t.signature@)
                &&& t.id@.len() == 32
                &&& same_but_sig(t, transaction)
            },
            Err(e) => e == ArweaveError::SigningFailure,
        },
{
    let item = transaction.to_deep_hash_item();
    let dh = deep_hash(&item);
    let sig = match crypto.sign(dh.as_slice()) {
        Ok(s) => s,
        Err(_) => {
            return Err(ArweaveError::SigningFailure);
        },
    };
    // A signature must be exactly as wide as the signer's modulus; anything
    // else marks a broken signing capability.
    if sig.len() != transaction.owner.0.len() {
        return Err(ArweaveError::SigningFailure);
    }
    let id = hash_sha256(sig.as_slice());
    let mut t = transaction;
    t.signature = Base64(sig);
    t.id = Base64(id);
    Ok(t)
}

} // verus!
