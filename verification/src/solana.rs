//! Types exchanged with the payment side-channel service, which signs a
//! transaction's deep hash in exchange for a token transfer. The network
//! calls themselves live with the caller.

use vstd::prelude::*;

use crate::transaction::{Base64, DeepHashItem};

verus! {

/// Base cost of a signing request, in lamports.
pub const FLOOR: u64 = 10000;

/// Winstons covered per lamport paid.
pub const RATE: u64 = 2500;

/// What the service needs to sign on a submitter's behalf: the deep-hash
/// tree of the transaction and the serialized payment transfer.
pub struct TxData {
    pub deep_hash_item: DeepHashItem,
    pub sol_tx: String,
}

/// The service's answer: the signature and id of the network transaction,
/// the signing wallet's modulus, and the payment's own signature.
pub struct SigResponse {
    pub ar_tx_sig: Base64,
    pub ar_tx_id: Base64,
    pub ar_tx_owner: Base64,
    pub sol_tx_sig: String,
    pub lamports: u64,
}

} // verus!
