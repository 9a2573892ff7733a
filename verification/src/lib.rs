//! Client-side core for bulk uploads to a content-addressed permanent
//! storage network: chunked Merkle trees over file bytes, the network's
//! recursive "deep hash" canonicalization, transaction assembly and
//! signing, and an on-disk status journal keyed by a path hash.

use vstd::prelude::*;

pub mod base64;
pub mod crypto;
pub mod error;
pub mod json;
pub mod merkle;
pub mod solana;
pub mod status;
pub mod transaction;
pub mod utils;

use crate::crypto::blake3_hex_of;
use crate::error::ArweaveError;
use crate::json::{parse_raw_status, raw_status_json, status_json, status_to_json, valid_chars};
use crate::status::RawStatusView;
use crate::status::{now_rfc3339, status_file_name, Status, StatusCode};
use crate::transaction::Transaction;
use crate::utils::str_eq;

verus! {

/// Winstons are a sub-unit of the native network token, AR.
/// There are 10^12 winstons per AR.
pub const WINSTONS_PER_AR: u64 = 1000000000000;

/// The precondition of posting: a transaction whose `id` is empty was
/// never signed and is rejected here, before any request is framed or
/// sent. Callers invoke this first and only reach the network on `Ok`.
pub fn post_precheck(transaction: &Transaction) -> (r: Result<(), ArweaveError>)
    ensures
        r is Ok <==> transaction.id@.len() > 0,
        r is Err ==> r == Err::<(), ArweaveError>(ArweaveError::UnsignedTransaction),
{
    if transaction.id.is_empty() {
        Err(ArweaveError::UnsignedTransaction)
    } else {
        Ok(())
    }
}

/// Decides what a completed POST means: acceptance (HTTP 200) yields the
/// initial `Submitted` record for the transaction, carrying its id and
/// reward and stamped with one fresh timestamp for both `created_at` and
/// `last_modified`; any other code is a typed failure.
pub fn post_outcome(transaction: &Transaction, file_path: Option<String>, http_code: u16) -> (r:
    Result<Status, ArweaveError>)
    ensures
        match r {
            Ok(s) => {
                &&& http_code == 200
                &&& s.id@ == transaction.id@
                &&& s.reward == transaction.reward
                &&& s.status == StatusCode::Submitted
                &&& s@.file_path == (match file_path {
                    Some(p) => Some(p@),
                    None => None::<Seq<char>>,
                })
                &&& s.created_at@ == s.last_modified@
                &&& s.raw_status is None
            },
            Err(e) => http_code != 200 && e == ArweaveError::PostFailed(http_code),
        },
{
    if http_code == 200 {
        let now = now_rfc3339();
        Ok(
            Status {
                id: transaction.id.clone(),
                status: StatusCode::Submitted,
                file_path,
                created_at: now.clone(),
                last_modified: now,
                reward: transaction.reward,
                raw_status: None,
            },
        )
    } else {
        Err(ArweaveError::PostFailed(http_code))
    }
}

/// Validates and renders a journal write: a record is persistable only
/// when it names its source path and carries a transaction id. On success
/// the content-addressed file name and the canonical JSON body come back;
/// nothing is touched on disk here, so a failure has no side effect.
pub fn prepare_status_write(status: &Status) -> (r: Result<(String, String), ArweaveError>)
    ensures
        match r {
            Ok(p) => {
                &&& status@.file_path matches Some(fp) && p.0@ == blake3_hex_of(fp) + ".json"@
                &&& p.1@ == status_json(status@)
                &&& status@.id.len() > 0
            },
            Err(e) => {
                if status@.file_path is None {
                    e == ArweaveError::MissingFilePath
                } else {
                    e == ArweaveError::UnsignedTransaction && status@.id.len() == 0
                }
            },
        },
{
    match &status.file_path {
        Some(path) => {
            if status.id.is_empty() {
                Err(ArweaveError::UnsignedTransaction)
            } else {
                let name = status_file_name(path.as_str());
                let body = status_to_json(status);
                Ok((name, body))
            }
        },
        None => Err(ArweaveError::MissingFilePath),
    }
}

/// Reconciles a journal record with the network's answer about its
/// transaction, stamping a fresh `last_modified`:
///
/// * 200 with body `"Pending"`: the record turns `Pending` and any raw
///   status is cleared;
/// * 200 with a raw-status body: the record turns `Confirmed` and carries
///   that raw status;
/// * 202: the record turns `Pending`, its raw status untouched;
/// * 404: the record turns `NotFound`, its raw status untouched;
/// * anything else is a typed failure and the record is dropped unchanged
///   (the caller re-writes the journal only on success).
pub fn update_status_record(status: Status, http_code: u16, body: &str) -> (r: Result<
    Status,
    ArweaveError,
>)
    ensures
        match r {
            Ok(ns) => {
                &&& ns@.id == status@.id
                &&& ns@.file_path == status@.file_path
                &&& ns@.created_at == status@.created_at
                &&& ns@.reward == status@.reward
                &&& (http_code == 200 || http_code == 202 || http_code == 404)
                &&& ((http_code == 200 && body@ == "Pending"@) ==> ns.status
                    == StatusCode::Pending && ns@.raw_status is None)
                &&& ((http_code == 200 && body@ != "Pending"@) ==> ns.status
                    == StatusCode::Confirmed && (match ns@.raw_status {
                    Some(rv) => body@ == raw_status_json(rv),
                    None => false,
                }))
                &&& (http_code == 202 ==> ns.status == StatusCode::Pending && ns@.raw_status
                    == status@.raw_status)
                &&& (http_code == 404 ==> ns.status == StatusCode::NotFound && ns@.raw_status
                    == status@.raw_status)
            },
            Err(e) => {
                if http_code == 200 {
                    &&& e == ArweaveError::MalformedResponse
                    &&& body@ != "Pending"@
                    &&& forall|rv: RawStatusView|
                        valid_chars(rv.block_indep_hash) ==> body@ != raw_status_json(rv)
                } else {
                    e == ArweaveError::UnexpectedStatus(http_code) && http_code != 202
                        && http_code != 404
                }
            },
        },
{
    let mut ns = status;
    ns.last_modified = now_rfc3339();
    if http_code == 200 {
        if str_eq(body, "Pending") {
            ns.status = StatusCode::Pending;
            ns.raw_status = None;
            Ok(ns)
        } else {
            match parse_raw_status(body) {
                Ok(rs) => {
                    ns.raw_status = Some(rs);
                    ns.status = StatusCode::Confirmed;
                    Ok(ns)
                },
                Err(_) => Err(ArweaveError::MalformedResponse),
            }
        }
    } else if http_code == 202 {
        ns.status = StatusCode::Pending;
        Ok(ns)
    } else if http_code == 404 {
        ns.status = StatusCode::NotFound;
        Ok(ns)
    } else {
        Err(ArweaveError::UnexpectedStatus(http_code))
    }
}

} // verus!
