//! Status journal behaviour: file naming, JSON round trips, filtering,
//! the summary table, and reconciliation with network answers.

use arloader::crypto::Methods;
use arloader::error::ArweaveError;
use arloader::json::{
    parse_raw_status, parse_status_json, parse_transaction_json, status_to_json,
    transaction_to_json,
};
use arloader::status::{
    status_file_name, status_summary, filter_statuses, RawStatus, Status, StatusCode,
};
use arloader::transaction::{create_transaction, sign_transaction, Base64, Tag};
use arloader::{post_outcome, post_precheck, prepare_status_write, update_status_record};

struct TestSigner {
    modulus: Vec<u8>,
}

impl Methods for TestSigner {
    fn public_modulus(&self) -> Vec<u8> {
        self.modulus.clone()
    }

    fn sign(&self, message: &[u8]) -> Result<Vec<u8>, ArweaveError> {
        let sum: u64 = message.iter().map(|b| *b as u64).sum();
        Ok(vec![(sum % 256) as u8; self.modulus.len()])
    }
}

fn mk_status(code: StatusCode, raw: Option<RawStatus>) -> Status {
    Status {
        id: Base64(vec![9u8; 32]),
        status: code,
        file_path: Some("tests/fixtures/0.png".to_string()),
        created_at: "2021-11-05T18:00:00+00:00".to_string(),
        last_modified: "2021-11-05T18:00:00+00:00".to_string(),
        reward: 50,
        raw_status: raw,
    }
}

fn mk_raw(confirms: u64) -> RawStatus {
    RawStatus {
        block_height: 800000,
        block_indep_hash: "abc123".to_string(),
        number_of_confirmations: confirms,
    }
}

#[test]
fn test_create_write_read_status() {
    let s = TestSigner { modulus: vec![7u8; 64] };
    let last_tx = Base64::from_str("LCwsLCwsLA").unwrap();
    let other_tags = vec![Tag::from_utf8_strs("key2", "value2")];
    let transaction = create_transaction(&s, vec![0u8], Some(other_tags), last_tx, 0);
    let signed = sign_transaction(&s, transaction).unwrap();
    assert!(post_precheck(&signed).is_ok());
    let status = post_outcome(&signed, Some("tests/fixtures/0.png".to_string()), 200).unwrap();

    let (name, body) = prepare_status_write(&status).unwrap();
    assert!(name.ends_with(".json"));
    let read_status = parse_status_json(&body).unwrap();
    assert_eq!(status, read_status);
}

#[test]
fn test_status_file_name_is_blake3_of_path() {
    let path = "tests/fixtures/0.png";
    let name = status_file_name(path);
    let expected = format!("{}.json", blake3::hash(path.as_bytes()).to_hex());
    assert_eq!(name, expected);
}

#[test]
fn test_one_status_file_per_path() {
    // Two different uploads of the same path land in the same file, so the
    // second write overwrites the first.
    let mut a = mk_status(StatusCode::Submitted, None);
    let mut b = mk_status(StatusCode::Submitted, None);
    a.id = Base64(vec![1u8; 32]);
    b.id = Base64(vec![2u8; 32]);
    let (name_a, body_a) = prepare_status_write(&a).unwrap();
    let (name_b, body_b) = prepare_status_write(&b).unwrap();
    assert_eq!(name_a, name_b);
    assert_ne!(body_a, body_b);
    let other = status_file_name("tests/fixtures/1.png");
    assert_ne!(name_a, other);
}

#[test]
fn test_write_requires_path_and_id() {
    let mut no_path = mk_status(StatusCode::Submitted, None);
    no_path.file_path = None;
    assert!(matches!(
        prepare_status_write(&no_path),
        Err(ArweaveError::MissingFilePath)
    ));
    let mut no_id = mk_status(StatusCode::Submitted, None);
    no_id.id = Base64(vec![]);
    assert!(matches!(
        prepare_status_write(&no_id),
        Err(ArweaveError::UnsignedTransaction)
    ));
}

#[test]
fn test_status_json_escapes_special_characters() {
    let mut status = mk_status(StatusCode::Submitted, None);
    status.file_path = Some("a \"quoted\"\\path\nwith control".to_string());
    let body = status_to_json(&status);
    let read = parse_status_json(&body).unwrap();
    assert_eq!(status, read);
}

#[test]
fn test_status_json_rejects_garbage() {
    assert!(matches!(
        parse_status_json("not json at all"),
        Err(ArweaveError::StatusCorrupt)
    ));
    assert!(matches!(
        parse_status_json("{\"id\":\"AA\"}"),
        Err(ArweaveError::StatusCorrupt)
    ));
}

#[test]
fn test_update_status_record_200_pending() {
    let status = mk_status(StatusCode::Submitted, Some(mk_raw(3)));
    let updated = update_status_record(status, 200, "Pending").unwrap();
    assert_eq!(updated.status, StatusCode::Pending);
    assert!(updated.raw_status.is_none());
}

#[test]
fn test_update_status_record_200_confirmed() {
    let status = mk_status(StatusCode::Pending, None);
    let body = "{\"block_height\":800000,\"block_indep_hash\":\"abc123\",\"number_of_confirmations\":12}";
    let updated = update_status_record(status, 200, body).unwrap();
    assert_eq!(updated.status, StatusCode::Confirmed);
    let raw = updated.raw_status.unwrap();
    assert_eq!(raw.block_height, 800000);
    assert_eq!(raw.block_indep_hash, "abc123");
    assert_eq!(raw.number_of_confirmations, 12);
}

#[test]
fn test_update_status_record_202_keeps_raw_status() {
    let status = mk_status(StatusCode::Submitted, Some(mk_raw(3)));
    let updated = update_status_record(status, 202, "").unwrap();
    assert_eq!(updated.status, StatusCode::Pending);
    assert_eq!(updated.raw_status, Some(mk_raw(3)));
    assert_eq!(updated.id, Base64(vec![9u8; 32]));
    assert_eq!(updated.created_at, "2021-11-05T18:00:00+00:00");
    assert_eq!(updated.reward, 50);
}

#[test]
fn test_update_status_record_404_and_unexpected() {
    let status = mk_status(StatusCode::Submitted, None);
    let updated = update_status_record(status, 404, "").unwrap();
    assert_eq!(updated.status, StatusCode::NotFound);
    let status = mk_status(StatusCode::Submitted, None);
    let error = update_status_record(status, 500, "").unwrap_err();
    assert!(matches!(error, ArweaveError::UnexpectedStatus(500)));
    let status = mk_status(StatusCode::Submitted, None);
    let error = update_status_record(status, 200, "{broken").unwrap_err();
    assert!(matches!(error, ArweaveError::MalformedResponse));
}

#[test]
fn test_parse_raw_status_round_trip() {
    let body = "{\"block_height\":1,\"block_indep_hash\":\"h\",\"number_of_confirmations\":0}";
    let raw = parse_raw_status(body).unwrap();
    assert_eq!(raw.block_height, 1);
    assert_eq!(raw.number_of_confirmations, 0);
    assert!(parse_raw_status("{}").is_err());
}

#[test]
fn test_filter_statuses_confirmed_max_confirms() {
    let all = vec![
        mk_status(StatusCode::Confirmed, Some(mk_raw(5))),
        mk_status(StatusCode::Confirmed, Some(mk_raw(20))),
        mk_status(StatusCode::Submitted, None),
        mk_status(StatusCode::Confirmed, None),
    ];
    let kept = filter_statuses(all, Some(vec![StatusCode::Confirmed]), Some(10));
    assert_eq!(kept.len(), 2);
    assert_eq!(kept[0].raw_status, Some(mk_raw(5)));
    assert_eq!(kept[1].raw_status, None);
}

#[test]
fn test_filter_statuses_no_filters_keeps_everything() {
    let all = vec![
        mk_status(StatusCode::Confirmed, Some(mk_raw(5))),
        mk_status(StatusCode::Failed, None),
    ];
    let kept = filter_statuses(all, None, None);
    assert_eq!(kept.len(), 2);
    let all = vec![
        mk_status(StatusCode::Confirmed, Some(mk_raw(5))),
        mk_status(StatusCode::Failed, None),
    ];
    let kept = filter_statuses(all, None, Some(4));
    assert_eq!(kept.len(), 1);
    assert_eq!(kept[0].status, StatusCode::Failed);
}

#[test]
fn test_summary_has_five_fixed_rows() {
    let statuses = vec![
        mk_status(StatusCode::Submitted, None),
        mk_status(StatusCode::Submitted, None),
        mk_status(StatusCode::Confirmed, Some(mk_raw(3))),
        mk_status(StatusCode::Failed, None),
    ];
    let summary = status_summary(&statuses);
    let expected = format!(
        " {:<15}  {:>10}\n{:-<29}\n {:<16} {:>10}\n {:<16} {:>10}\n {:<16} {:>10}\n {:<16} {:>10}\n{:-<29}\n {:<15}  {:>10}\n",
        "status", "count", "", "Submitted", 2, "Pending", 0, "NotFound", 0, "Confirmed", 1, "", "Total", 3
    );
    assert_eq!(summary, expected);
}

#[test]
fn test_transaction_json_wire_format() {
    let s = TestSigner { modulus: vec![7u8; 4] };
    let last_tx = Base64::from_str("LCwsLCwsLA").unwrap();
    let t = create_transaction(&s, vec![0u8], None, last_tx, 3);
    let owner_b64 = Base64(vec![7u8; 4]).to_text();
    let root_b64 = t.data_root.to_text();
    let name_b64 = Base64(b"Content-Type".to_vec()).to_text();
    let value_b64 = Base64(b"application/json".to_vec()).to_text();
    let expected = format!(
        "{{\"format\":2,\"id\":\"\",\"last_tx\":\"LCwsLCwsLA\",\"owner\":\"{}\",\"tags\":[{{\"name\":\"{}\",\"value\":\"{}\"}}],\"target\":\"\",\"quantity\":\"0\",\"data\":\"AA\",\"data_size\":\"1\",\"data_root\":\"{}\",\"reward\":3,\"signature\":\"\"}}",
        owner_b64, name_b64, value_b64, root_b64
    );
    assert_eq!(transaction_to_json(&t), expected);
}

#[test]
fn test_transaction_json_round_trip() {
    let s = TestSigner { modulus: vec![5u8; 32] };
    let last_tx = Base64::from_str("LCwsLCwsLA").unwrap();
    let transaction = create_transaction(
        &s,
        vec![10u8, 20, 30],
        Some(vec![Tag::from_utf8_strs("key2", "value2")]),
        last_tx,
        77,
    );
    let signed = sign_transaction(&s, transaction).unwrap();
    let body = transaction_to_json(&signed);
    let parsed = parse_transaction_json(&body).unwrap();
    assert_eq!(parsed.format, signed.format);
    assert_eq!(parsed.id, signed.id);
    assert_eq!(parsed.last_tx, signed.last_tx);
    assert_eq!(parsed.owner, signed.owner);
    assert_eq!(parsed.quantity, signed.quantity);
    assert_eq!(parsed.data, signed.data);
    assert_eq!(parsed.data_size, signed.data_size);
    assert_eq!(parsed.data_root, signed.data_root);
    assert_eq!(parsed.reward, signed.reward);
    assert_eq!(parsed.signature, signed.signature);
    assert_eq!(parsed.tags.len(), signed.tags.len());
    // The chunk material never travels on the wire.
    assert!(parsed.chunks.is_empty() && parsed.proofs.is_empty());
    assert_eq!(transaction_to_json(&parsed), body);
    assert!(parse_transaction_json("{\"format\":bad").is_err());
}
