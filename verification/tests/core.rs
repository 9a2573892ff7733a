//! Transaction assembly, hashing and Merkle engine behaviour.

use arloader::crypto::{deep_hash, wallet_address, Methods};
use arloader::error::ArweaveError;
use arloader::merkle::{
    chunk_list, generate_data_root, generate_leaves, node_id_ref, resolve_proofs, MAX_CHUNK_SIZE,
    MIN_CHUNK_SIZE,
};
use arloader::transaction::{create_transaction, sign_transaction, Base64, DeepHashItem, Tag};
use arloader::{post_outcome, post_precheck};
use sha2::Digest;

struct TestSigner {
    modulus: Vec<u8>,
}

impl Methods for TestSigner {
    fn public_modulus(&self) -> Vec<u8> {
        self.modulus.clone()
    }

    fn sign(&self, message: &[u8]) -> Result<Vec<u8>, ArweaveError> {
        // A deterministic stand-in with the right length: the low byte of a
        // running sum of the message, repeated to the modulus width.
        let sum: u64 = message.iter().map(|b| *b as u64).sum();
        Ok(vec![(sum % 256) as u8; self.modulus.len()])
    }
}

fn signer() -> TestSigner {
    TestSigner { modulus: vec![3u8; 64] }
}

#[test]
fn test_cannot_post_unsigned_transaction() {
    let last_tx = Base64::from_str("LCwsLCwsLA").unwrap();
    let other_tags = vec![Tag::from_utf8_strs("key2", "value2")];
    let transaction = create_transaction(&signer(), vec![0u8], Some(other_tags), last_tx, 0);
    let error = post_precheck(&transaction).unwrap_err();
    assert!(matches!(error, ArweaveError::UnsignedTransaction));
}

#[test]
fn test_base64_round_trip() {
    let cases: Vec<Vec<u8>> = vec![
        vec![],
        vec![0],
        vec![255],
        vec![1, 2],
        vec![1, 2, 3],
        vec![1, 2, 3, 4],
        (0u16..=300).map(|n| (n % 256) as u8).collect(),
    ];
    for bytes in cases {
        let text = Base64(bytes.clone()).to_text();
        let back = Base64::from_str(&text).unwrap();
        assert_eq!(back.0, bytes);
    }
    assert_eq!(Base64(vec![44, 44, 44, 44, 44, 44, 44]).to_text(), "LCwsLCwsLA");
}

#[test]
fn test_base64_rejects_bad_text() {
    assert!(matches!(Base64::from_str("!"), Err(ArweaveError::InvalidBase64)));
    assert!(matches!(Base64::from_str("a"), Err(ArweaveError::InvalidBase64)));
    // Non-zero trailing bits are not the encoding of any byte sequence.
    assert!(matches!(Base64::from_str("AB"), Err(ArweaveError::InvalidBase64)));
    assert!(Base64::from_str("AA").is_ok());
}

#[test]
fn test_single_chunk_transaction() {
    let last_tx = Base64::from_str("LCwsLCwsLA").unwrap();
    let other_tags = vec![Tag::from_utf8_strs("k", "v")];
    let t = create_transaction(&signer(), vec![0u8], Some(other_tags), last_tx, 0);
    assert_eq!(t.format, 2);
    assert_eq!(t.data_size, 1);
    assert_eq!(t.reward, 0);
    assert_eq!(t.tags.len(), 2);
    assert_eq!(t.tags[0].name.0, b"Content-Type".to_vec());
    assert_eq!(t.tags[0].value.0, b"application/json".to_vec());
    assert_eq!(t.tags[1].name.0, b"k".to_vec());
    assert_eq!(t.tags[1].value.0, b"v".to_vec());
    // The root of a single-chunk file is the leaf id:
    // SHA-256( SHA-256(data_hash) || SHA-256(ascii_decimal(max_byte_range)) ).
    let data_hash = sha2::Sha256::digest([0u8]);
    let mut pair = sha2::Sha256::digest(data_hash).to_vec();
    pair.extend(sha2::Sha256::digest(b"1").to_vec());
    let expected = sha2::Sha256::digest(&pair).to_vec();
    assert_eq!(t.data_root.0, expected);
    assert_eq!(t.chunks.len(), 1);
    assert_eq!(t.proofs.len(), 1);
    assert_eq!(t.proofs[0].offset, 0);
}

#[test]
fn test_content_type_sniffed_from_magic_bytes() {
    let mut png = vec![0x89, 0x50, 0x4E, 0x47, 0x0D, 0x0A, 0x1A, 0x0A];
    png.extend(vec![0u8; 64]);
    let t = create_transaction(&signer(), png, None, Base64::empty(), 0);
    assert_eq!(t.tags[0].value.0, b"image/png".to_vec());
}

#[test]
fn test_two_chunk_rebalance() {
    // 257 KiB: one full chunk plus a 1 KiB tail would leave a tiny chunk,
    // so the last two ranges are rebalanced into halves.
    let len = 257 * 1024;
    let ranges = chunk_list(len);
    assert_eq!(ranges.len(), 2);
    let (a_min, a_max) = ranges[0];
    let (b_min, b_max) = ranges[1];
    assert_eq!(a_min, 0);
    assert_eq!(a_max, b_min);
    assert_eq!(b_max, len);
    let first = a_max - a_min;
    let second = b_max - b_min;
    assert!(first >= MIN_CHUNK_SIZE && second >= MIN_CHUNK_SIZE);
    assert_ne!((first, second), (MAX_CHUNK_SIZE, 1024));

    let data = vec![0xABu8; len];
    let leaves = generate_leaves(&data);
    assert_eq!(leaves.len(), 2);
    let root = generate_data_root(leaves).unwrap();
    assert_eq!(node_id_ref(&root).len(), 32);
    let proofs = resolve_proofs(&root);
    assert_eq!(proofs.len(), 2);
    assert_eq!(proofs[0].offset, 0);
    assert_eq!(proofs[1].offset, b_min);
}

#[test]
fn test_exact_chunk_boundary_stays_whole() {
    let ranges = chunk_list(MAX_CHUNK_SIZE);
    assert_eq!(ranges, vec![(0, MAX_CHUNK_SIZE)]);
    let ranges = chunk_list(2 * MAX_CHUNK_SIZE);
    assert_eq!(ranges, vec![(0, MAX_CHUNK_SIZE), (MAX_CHUNK_SIZE, 2 * MAX_CHUNK_SIZE)]);
}

#[test]
fn test_merkle_refuses_empty_layer() {
    let error = generate_data_root(Vec::new()).unwrap_err();
    assert!(matches!(error, ArweaveError::MerkleInvariantViolated));
}

#[test]
fn test_deep_hash_blob() {
    let item = DeepHashItem::from_data(&[1, 2, 3]);
    let dh = deep_hash(&item);
    let acc = sha2::Sha384::digest(b"blob3");
    let mut cat = acc.to_vec();
    cat.extend(sha2::Sha384::digest([1u8, 2, 3]).to_vec());
    assert_eq!(dh, sha2::Sha384::digest(&cat).to_vec());
}

#[test]
fn test_deep_hash_list() {
    let children = vec![DeepHashItem::from_data(&[1]), DeepHashItem::from_data(&[2, 3])];
    let item = DeepHashItem::from_children(children);
    let dh = deep_hash(&item);

    let blob = |bytes: &[u8]| {
        let tag = format!("blob{}", bytes.len());
        let mut cat = sha2::Sha384::digest(tag.as_bytes()).to_vec();
        cat.extend(sha2::Sha384::digest(bytes).to_vec());
        sha2::Sha384::digest(&cat).to_vec()
    };
    let mut acc = sha2::Sha384::digest(b"list2").to_vec();
    for child in [blob(&[1]), blob(&[2, 3])] {
        let mut cat = acc.clone();
        cat.extend(child);
        acc = sha2::Sha384::digest(&cat).to_vec();
    }
    assert_eq!(dh, acc);
}

#[test]
fn test_sign_sets_signature_and_id() {
    let last_tx = Base64::from_str("LCwsLCwsLA").unwrap();
    let s = signer();
    let transaction = create_transaction(&s, vec![5u8, 6, 7], None, last_tx, 42);
    let signed = sign_transaction(&s, transaction).unwrap();
    assert_eq!(signed.signature.0.len(), 64);
    let expected_id = sha2::Sha256::digest(&signed.signature.0).to_vec();
    assert_eq!(signed.id.0, expected_id);
    assert!(post_precheck(&signed).is_ok());
    assert_eq!(signed.reward, 42);
    let mut cleared = signed;
    cleared.clear_signature();
    assert!(cleared.signature.0.is_empty() && cleared.id.0.is_empty());
    assert!(matches!(
        post_precheck(&cleared),
        Err(ArweaveError::UnsignedTransaction)
    ));
}

#[test]
fn test_wallet_address_is_hashed_modulus() {
    let address = wallet_address(&[3u8; 64]);
    let digest = sha2::Sha256::digest(vec![3u8; 64]).to_vec();
    assert_eq!(address, Base64(digest).to_text());
}

#[test]
fn test_post_outcome_maps_codes() {
    let s = signer();
    let transaction = create_transaction(&s, vec![1u8], None, Base64::empty(), 9);
    let signed = sign_transaction(&s, transaction).unwrap();
    let status = post_outcome(&signed, Some("a/b.bin".to_string()), 200).unwrap();
    assert_eq!(status.id, signed.id);
    assert_eq!(status.reward, 9);
    assert_eq!(status.created_at, status.last_modified);
    let error = post_outcome(&signed, None, 429).unwrap_err();
    assert!(matches!(error, ArweaveError::PostFailed(429)));
}

#[test]
fn test_empty_data_has_single_empty_chunk() {
    let ranges = chunk_list(0);
    assert_eq!(ranges, vec![(0, 0)]);
    let data: Vec<u8> = Vec::new();
    let leaves = generate_leaves(&data);
    assert_eq!(leaves.len(), 1);
    let root = generate_data_root(leaves).unwrap();
    let data_hash = sha2::Sha256::digest([]);
    let mut pair = sha2::Sha256::digest(data_hash).to_vec();
    pair.extend(sha2::Sha256::digest(b"0").to_vec());
    let expected = sha2::Sha256::digest(&pair).to_vec();
    assert_eq!(node_id_ref(&root).clone(), expected);
}

#[test]
fn test_three_chunk_tree_and_proofs() {
    // Three full chunks: the first two pair into a branch, the third is
    // promoted, and the root pairs the branch with it.
    let len = 3 * MAX_CHUNK_SIZE;
    let data = vec![0x5Au8; len];

    let hash_pair = |parts: &[&[u8]]| {
        let mut cat = Vec::new();
        for p in parts {
            cat.extend(sha2::Sha256::digest(p).to_vec());
        }
        sha2::Sha256::digest(&cat).to_vec()
    };
    let chunk = vec![0x5Au8; MAX_CHUNK_SIZE];
    let data_hash = sha2::Sha256::digest(&chunk).to_vec();
    let leaf_id = |max: usize| hash_pair(&[&data_hash, max.to_string().as_bytes()]);
    let l0 = leaf_id(MAX_CHUNK_SIZE);
    let l1 = leaf_id(2 * MAX_CHUNK_SIZE);
    let l2 = leaf_id(3 * MAX_CHUNK_SIZE);
    let b01 = hash_pair(&[&l0, &l1, MAX_CHUNK_SIZE.to_string().as_bytes()]);
    let expected_root = hash_pair(&[&b01, &l2, (2 * MAX_CHUNK_SIZE).to_string().as_bytes()]);

    let leaves = generate_leaves(&data);
    assert_eq!(leaves.len(), 3);
    let root = generate_data_root(leaves).unwrap();
    assert_eq!(node_id_ref(&root).clone(), expected_root);

    // The first leaf's proof: both child ids and the boundary note at each
    // branch from the root down, then the chunk hash and its upper bound.
    let note32 = |n: usize| {
        let mut out = vec![0u8; 32];
        let mut v = n;
        for i in 0..32 {
            out[31 - i] = (v % 256) as u8;
            v /= 256;
        }
        out
    };
    let mut expected_proof = Vec::new();
    expected_proof.extend(&b01);
    expected_proof.extend(&l2);
    expected_proof.extend(note32(2 * MAX_CHUNK_SIZE));
    expected_proof.extend(&l0);
    expected_proof.extend(&l1);
    expected_proof.extend(note32(MAX_CHUNK_SIZE));
    expected_proof.extend(&data_hash);
    expected_proof.extend(note32(MAX_CHUNK_SIZE));

    let proofs = resolve_proofs(&root);
    assert_eq!(proofs.len(), 3);
    assert_eq!(proofs[0].offset, 0);
    assert_eq!(proofs[1].offset, MAX_CHUNK_SIZE);
    assert_eq!(proofs[2].offset, 2 * MAX_CHUNK_SIZE);
    assert_eq!(proofs[0].proof, expected_proof);
}
