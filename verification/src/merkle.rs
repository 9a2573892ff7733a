//! Chunked Merkle engine: splits data into fixed-size chunks, builds the
//! layered hash tree the network expects, and emits the root and one
//! proof per leaf.

use vstd::prelude::*;
use vstd::slice::{slice_subrange, slice_to_vec};

use crate::crypto::{hash_sha256, sha256_of};
use crate::error::ArweaveError;
use crate::utils::{be_bytes, dec_bytes, u64_to_be_bytes, u64_to_dec_bytes};

verus! {

/// Chunks hold at most this many bytes.
pub const MAX_CHUNK_SIZE: usize = 262144;

/// A final chunk below this size triggers a rebalance of the last two.
pub const MIN_CHUNK_SIZE: usize = 32768;

/// The `(min, max)` byte ranges of consecutive maximal chunks starting at
/// `pos`; the last chunk may be shorter.
pub open spec fn split_chunks(pos: nat, len: nat) -> Seq<(int, int)>
    decreases len - pos,
    when pos <= len
{
    if len - pos > MAX_CHUNK_SIZE {
        seq![(pos as int, pos as int + MAX_CHUNK_SIZE)] + split_chunks(
            pos + MAX_CHUNK_SIZE as nat,
            len,
        )
    } else {
        seq![(pos as int, len as int)]
    }
}

/// The chunk ranges of a `len`-byte input: maximal chunks, except that a
/// tail chunk shorter than [`MIN_CHUNK_SIZE`] is rebalanced with its
/// predecessor into two halves (the first taking the odd byte).
pub open spec fn chunk_ranges(len: nat) -> Seq<(int, int)> {
    let naive = split_chunks(0, len);
    let k = naive.len();
    if k >= 2 && naive[k - 1].1 - naive[k - 1].0 < MIN_CHUNK_SIZE {
        let start = naive[k - 2].0;
        let half = (len - start + 1) / 2;
        naive.take(k - 2) + seq![(start, start + half), (start + half, len as int)]
    } else {
        naive
    }
}

/// A leaf's id: the hash-pair of its chunk hash and the ASCII decimal of
/// its upper byte range.
pub open spec fn leaf_id_of(data_hash: Seq<u8>, max: int) -> Seq<u8> {
    sha256_of(sha256_of(data_hash) + sha256_of(dec_bytes(max as nat)))
}

/// A branch's id: the hash-pair of both child ids and the ASCII decimal
/// of the left child's upper byte range.
pub open spec fn branch_id_of(left_id: Seq<u8>, right_id: Seq<u8>, left_max: int) -> Seq<u8> {
    sha256_of(sha256_of(left_id) + sha256_of(right_id) + sha256_of(dec_bytes(left_max as nat)))
}

/// A node of the chunk tree: a leaf covering one chunk, or a branch over
/// two subtrees.
#[derive(Debug)]
pub enum Node {
    Leaf { id: Vec<u8>, data_hash: Vec<u8>, min_byte_range: usize, max_byte_range: usize },
    Branch {
        id: Vec<u8>,
        left: Box<Node>,
        right: Box<Node>,
        left_max_byte_range: usize,
        max_byte_range: usize,
    },
}

/// The id bytes of a node.
pub open spec fn node_id(n: Node) -> Seq<u8> {
    match n {
        Node::Leaf { id, .. } => id@,
        Node::Branch { id, .. } => id@,
    }
}

/// The upper byte range of a node.
pub open spec fn node_max(n: Node) -> int {
    match n {
        Node::Leaf { max_byte_range, .. } => max_byte_range as int,
        Node::Branch { max_byte_range, .. } => max_byte_range as int,
    }
}

/// What tree building reads of a node: its id and upper byte range.
pub open spec fn node_summary(n: Node) -> (Seq<u8>, int) {
    (node_id(n), node_max(n))
}

/// The summaries of a node list.
pub open spec fn summaries(ns: Seq<Node>) -> Seq<(Seq<u8>, int)> {
    ns.map_values(|n: Node| node_summary(n))
}

/// Whether every node in the list carries a 32-byte id.
pub open spec fn all_ids_32(ns: Seq<Node>) -> bool {
    forall|i: int| 0 <= i < ns.len() ==> (#[trigger] node_id(ns[i])).len() == 32
}

/// One pairing pass: adjacent nodes become branches, left to right; an
/// odd trailing node is promoted unchanged.
pub open spec fn next_layer(l: Seq<(Seq<u8>, int)>) -> Seq<(Seq<u8>, int)>
    decreases l.len(),
{
    if l.len() <= 1 {
        l
    } else {
        seq![(branch_id_of(l[0].0, l[1].0, l[0].1), l[1].1)] + next_layer(l.skip(2))
    }
}

/// A pairing pass over two or more nodes yields `ceil(n / 2)` nodes.
pub proof fn lemma_next_layer_len(l: Seq<(Seq<u8>, int)>)
    ensures
        l.len() >= 2 ==> next_layer(l).len() == (l.len() + 1) / 2,
        l.len() >= 2 ==> next_layer(l).len() < l.len(),
    decreases l.len(),
{
    if l.len() >= 2 {
        lemma_next_layer_len(l.skip(2));
        assert(next_layer(l).len() == 1 + next_layer(l.skip(2)).len());
        if l.len() == 2 {
            assert(next_layer(l.skip(2)).len() == 0);
        } else if l.len() == 3 {
            assert(next_layer(l.skip(2)).len() == 1);
        }
    }
}

/// The summary that repeated pairing passes converge to.
pub open spec fn root_summary(l: Seq<(Seq<u8>, int)>) -> (Seq<u8>, int)
    decreases l.len(),
    via root_summary_dec
{
    if l.len() <= 1 {
        l[0]
    } else {
        root_summary(next_layer(l))
    }
}

#[via_fn]
proof fn root_summary_dec(l: Seq<(Seq<u8>, int)>) {
    if l.len() >= 2 {
        lemma_next_layer_len(l);
    }
}

/// The leaf summaries of a byte sequence: one per chunk range, hashing
/// the chunk's bytes.
pub open spec fn leaf_summaries(data: Seq<u8>) -> Seq<(Seq<u8>, int)> {
    chunk_ranges(data.len()).map_values(
        (|r: (int, int)| (leaf_id_of(sha256_of(data.subrange(r.0, r.1)), r.1), r.1)),
    )
}

/// The Merkle root id of a byte sequence: a function of the bytes alone.
pub open spec fn data_root_of(data: Seq<u8>) -> Seq<u8> {
    root_summary(leaf_summaries(data)).0
}

/// The leaves of a subtree, left to right.
pub open spec fn tree_leaves(n: Node) -> Seq<Node>
    decreases n,
{
    match n {
        Node::Leaf { .. } => seq![n],
        Node::Branch { left, right, .. } => tree_leaves(*left) + tree_leaves(*right),
    }
}

/// The leaves of a list of subtrees, left to right.
pub open spec fn leaves_of_list(ns: Seq<Node>) -> Seq<Node>
    decreases ns.len(),
{
    if ns.len() == 0 {
        Seq::empty()
    } else {
        tree_leaves(ns[0]) + leaves_of_list(ns.drop_first())
    }
}

/// Appending a tree to a list appends its leaves.
pub proof fn lemma_leaves_push(ns: Seq<Node>, n: Node)
    ensures
        leaves_of_list(ns.push(n)) == leaves_of_list(ns) + tree_leaves(n),
    decreases ns.len(),
{
    if ns.len() == 0 {
        assert(ns.push(n).drop_first() =~= Seq::<Node>::empty());
        assert(ns.push(n)[0] == n);
        assert(leaves_of_list(Seq::<Node>::empty()) == Seq::<Node>::empty());
        assert(leaves_of_list(ns.push(n)) =~= leaves_of_list(ns) + tree_leaves(n));
    } else {
        lemma_leaves_push(ns.drop_first(), n);
        assert(ns.push(n).drop_first() =~= ns.drop_first().push(n));
        assert(ns.push(n)[0] == ns[0]);
        assert(leaves_of_list(ns.push(n)) == tree_leaves(ns[0]) + leaves_of_list(
            ns.drop_first().push(n),
        ));
        assert(tree_leaves(ns[0]) + (leaves_of_list(ns.drop_first()) + tree_leaves(n)) =~= (
        tree_leaves(ns[0]) + leaves_of_list(ns.drop_first())) + tree_leaves(n));
    }
}

/// The path from a leaf to the root, serialized as the network expects,
/// tagged with the leaf's lower byte range.
#[derive(Debug, PartialEq, Eq)]
pub struct Proof {
    pub offset: usize,
    pub proof: Vec<u8>,
}

/// The offset and bytes of each proof.
pub open spec fn proof_views(ps: Seq<Proof>) -> Seq<(int, Seq<u8>)> {
    ps.map_values(|p: Proof| (p.offset as int, p.proof@))
}

/// The proofs of all leaves under `n`, each prefixed by the segments
/// accumulated from the root: a branch contributes both child ids and the
/// left bound as a 32-byte big-endian note, a leaf contributes its chunk
/// hash and upper bound.
pub open spec fn proofs_spec(n: Node, partial: Seq<u8>) -> Seq<(int, Seq<u8>)>
    decreases n,
{
    match n {
        Node::Leaf { data_hash, min_byte_range, max_byte_range, .. } => {
            seq![
                (
                    min_byte_range as int,
                    partial + data_hash@ + be_bytes(max_byte_range as nat, 32),
                ),
            ]
        },
        Node::Branch { left, right, left_max_byte_range, .. } => {
            let seg = partial + node_id(*left) + node_id(*right) + be_bytes(
                left_max_byte_range as nat,
                32,
            );
            proofs_spec(*left, seg) + proofs_spec(*right, seg)
        },
    }
}

/// Casts exec byte ranges to their mathematical view.
pub open spec fn ranges_view(rs: Seq<(usize, usize)>) -> Seq<(int, int)> {
    rs.map_values(|p: (usize, usize)| (p.0 as int, p.1 as int))
}

/// Computes the chunk ranges of a `len`-byte input.
pub fn chunk_list(len: usize) -> (r: Vec<(usize, usize)>)
    ensures
        ranges_view(r@) == chunk_ranges(len as nat),
        r@.len() >= 1,
        forall|i: int| 0 <= i < r@.len() ==> (#[trigger] r@[i]).0 <= r@[i].1 <= len,
{
    let mut r: Vec<(usize, usize)> = Vec::new();
    let mut pos: usize = 0;
    proof {
        assert(ranges_view(r@) + split_chunks(0, len as nat) =~= split_chunks(0, len as nat));
    }
    while len - pos > MAX_CHUNK_SIZE
        invariant
            pos <= len,
            split_chunks(0, len as nat) == ranges_view(r@) + split_chunks(pos as nat, len as nat),
            forall|i: int| 0 <= i < r@.len() ==> (#[trigger] r@[i]).0 <= r@[i].1 <= len,
        decreases len - pos,
    {
        let ghost prev = r@;
        r.push((pos, pos + MAX_CHUNK_SIZE));
        proof {
            assert(ranges_view(r@) =~= ranges_view(prev).push(
                (pos as int, pos as int + MAX_CHUNK_SIZE),
            ));
            assert(ranges_view(prev) + (seq![(pos as int, pos as int + MAX_CHUNK_SIZE)]
                + split_chunks(pos as nat + MAX_CHUNK_SIZE as nat, len as nat)) =~= ranges_view(r@)
                + split_chunks(pos as nat + MAX_CHUNK_SIZE as nat, len as nat));
        }
        pos += MAX_CHUNK_SIZE;
    }
    let ghost prev = r@;
    r.push((pos, len));
    proof {
        assert(ranges_view(r@) =~= ranges_view(prev).push((pos as int, len as int)));
        assert(ranges_view(prev) + seq![(pos as int, len as int)] =~= ranges_view(r@));
        assert(ranges_view(r@) == split_chunks(0, len as nat));
    }
    // Rebalance a too-small tail chunk with its predecessor.
    if r.len() >= 2 {
        let (last_min, last_max) = r[r.len() - 1];
        if last_max - last_min < MIN_CHUNK_SIZE {
            let (start, _) = r[r.len() - 2];
            let total = len - start;
            let half = total / 2 + total % 2;
            let ghost naive = ranges_view(r@);
            r.pop();
            r.pop();
            let ghost trimmed = r@;
            r.push((start, start + half));
            r.push((start + half, len));
            proof {
                let k = naive.len() as int;
                assert(ranges_view(trimmed) =~= naive.take(k - 2));
                assert(ranges_view(r@) =~= naive.take(k - 2) + seq![
                    (start as int, start as int + half),
                    (start as int + half, len as int),
                ]);
                assert(half == (len - start + 1) / 2);
                assert(ranges_view(r@) == chunk_ranges(len as nat));
            }
        }
    }
    r
}

/// Builds one leaf per chunk: the chunk's SHA-256 hash and its id.
pub fn generate_leaves(data: &Vec<u8>) -> (r: Vec<Node>)
    ensures
        summaries(r@) == leaf_summaries(data@),
        models_of(r@) == leaf_models(data@),
        r@.len() == chunk_ranges(data@.len()).len(),
        r@.len() >= 1,
        all_ids_32(r@),
        leaves_of_list(r@) == r@,
        forall|i: int|
            0 <= i < r@.len() ==> is_leaf_for(#[trigger] r@[i], data@, chunk_ranges(data@.len())[i]),
{
    let ranges = chunk_list(data.len());
    let mut r: Vec<Node> = Vec::new();
    let mut i: usize = 0;
    while i < ranges.len()
        invariant
            i <= ranges@.len(),
            ranges_view(ranges@) == chunk_ranges(data@.len() as nat),
            forall|j: int| 0 <= j < ranges@.len() ==> (#[trigger] ranges@[j]).0 <= ranges@[j].1
                <= data@.len(),
            r@.len() == i,
            forall|j: int|
                0 <= j < i ==> is_leaf_for(
                    #[trigger] r@[j],
                    data@,
                    chunk_ranges(data@.len() as nat)[j],
                ),
        decreases ranges@.len() - i,
    {
        let (min, max) = ranges[i];
        let chunk = slice_subrange(data.as_slice(), min, max);
        let data_hash = hash_sha256(chunk);
        let h1 = hash_sha256(data_hash.as_slice());
        let digits = u64_to_dec_bytes(max as u64);
        let mut h2 = hash_sha256(digits.as_slice());
        let mut buf = h1;
        buf.append(&mut h2);
        let id = hash_sha256(buf.as_slice());
        proof {
            assert(id@ == leaf_id_of(sha256_of(data@.subrange(min as int, max as int)), max as int));
        }
        r.push(
            Node::Leaf { id, data_hash, min_byte_range: min, max_byte_range: max },
        );
        proof {
            assert(chunk_ranges(data@.len() as nat)[i as int] == (min as int, max as int));
        }
        i += 1;
    }
    proof {
        lemma_leaves_of_leaf_list(r@);
        assert(summaries(r@) =~= leaf_summaries(data@));
        assert(models_of(r@) =~= leaf_models(data@));
    }
    r
}

/// Whether `n` is the leaf the engine builds for the given chunk range of
/// `data`.
pub open spec fn is_leaf_for(n: Node, data: Seq<u8>, range: (int, int)) -> bool {
    match n {
        Node::Leaf { id, data_hash, min_byte_range, max_byte_range } => {
            &&& min_byte_range as int == range.0
            &&& max_byte_range as int == range.1
            &&& data_hash@ == sha256_of(data.subrange(range.0, range.1))
            &&& id@ == leaf_id_of(data_hash@, range.1)
            &&& id@.len() == 32
        },
        Node::Branch { .. } => false,
    }
}

/// A list of leaves is its own leaf sequence.
pub proof fn lemma_leaves_of_leaf_list(ns: Seq<Node>)
    requires
        forall|i: int| 0 <= i < ns.len() ==> (#[trigger] ns[i]) matches Node::Leaf { .. },
    ensures
        leaves_of_list(ns) == ns,
    decreases ns.len(),
{
    if ns.len() == 0 {
        assert(leaves_of_list(ns) =~= ns);
    } else {
        lemma_leaves_of_leaf_list(ns.drop_first());
        assert(tree_leaves(ns[0]) =~= seq![ns[0]]);
        assert(leaves_of_list(ns) =~= ns);
    }
}

/// Reads a node's id.
pub fn node_id_ref(n: &Node) -> (r: &Vec<u8>)
    ensures
        r@ == node_id(*n),
{
    match n {
        Node::Leaf { id, .. } => id,
        Node::Branch { id, .. } => id,
    }
}

/// Reads a node's upper byte range.
pub fn node_max_exec(n: &Node) -> (r: usize)
    ensures
        r as int == node_max(*n),
{
    match n {
        Node::Leaf { max_byte_range, .. } => *max_byte_range,
        Node::Branch { max_byte_range, .. } => *max_byte_range,
    }
}

/// Pairs two nodes into a branch.
fn build_branch(left: Node, right: Node) -> (r: Node)
    ensures
        node_summary(r) == (
            branch_id_of(node_id(left), node_id(right), node_max(left)),
            node_max(right),
        ),
        node_id(r).len() == 32,
        tree_leaves(r) == tree_leaves(left) + tree_leaves(right),
        model_of(r) == (TreeModel::Branch {
            id: branch_id_of(node_id(left), node_id(right), node_max(left)),
            children: seq![model_of(left), model_of(right)],
            left_max: node_max(left),
            max: node_max(right),
        }),
{
    let left_max = node_max_exec(&left);
    let right_max = node_max_exec(&right);
    let h1 = hash_sha256(node_id_ref(&left).as_slice());
    let mut h2 = hash_sha256(node_id_ref(&right).as_slice());
    let digits = u64_to_dec_bytes(left_max as u64);
    let mut h3 = hash_sha256(digits.as_slice());
    let mut buf = h1;
    buf.append(&mut h2);
    buf.append(&mut h3);
    let id = hash_sha256(buf.as_slice());
    Node::Branch {
        id,
        left: Box::new(left),
        right: Box::new(right),
        left_max_byte_range: left_max,
        max_byte_range: right_max,
    }
}

/// Reduces a layer of nodes to the single root by repeated pairing.
///
/// The root's summary is the fixed function [`root_summary`] of the input
/// summaries, and its leaves are exactly the input trees' leaves; an
/// empty input is refused before any work.
pub fn generate_data_root(nodes: Vec<Node>) -> (r: Result<Node, ArweaveError>)
    ensures
        match r {
            Ok(root) => {
                &&& nodes@.len() >= 1
                &&& node_summary(root) == root_summary(summaries(nodes@))
                &&& tree_leaves(root) == leaves_of_list(nodes@)
                &&& model_of(root) == tree_of(models_of(nodes@))
                &&& all_ids_32(nodes@) ==> node_id(root).len() == 32
            },
            Err(e) => e == ArweaveError::MerkleInvariantViolated && nodes@.len() == 0,
        },
{
    if nodes.len() == 0 {
        return Err(ArweaveError::MerkleInvariantViolated);
    }
    let mut current = nodes;
    while current.len() > 1
        invariant
            current@.len() >= 1,
            root_summary(summaries(current@)) == root_summary(summaries(nodes@)),
            tree_of(models_of(current@)) == tree_of(models_of(nodes@)),
            leaves_of_list(current@) == leaves_of_list(nodes@),
            all_ids_32(nodes@) ==> all_ids_32(current@),
        decreases current@.len(),
    {
        let ghost layer = current@;
        let mut next: Vec<Node> = Vec::new();
        proof {
            assert(summaries(layer).skip(0) =~= summaries(layer));
            assert(models_of(layer).skip(0) =~= models_of(layer));
            assert(summaries(next@) + next_layer(summaries(layer)) =~= next_layer(
                summaries(layer),
            ));
            assert(models_of(next@) + pair_models(models_of(layer)) =~= pair_models(
                models_of(layer),
            ));
            assert(leaves_of_list(next@) + leaves_of_list(layer) =~= leaves_of_list(layer));
            assert(current@.skip(0) =~= current@);
        }
        while current.len() >= 2
            invariant
                summaries(next@) + next_layer(summaries(current@)) == next_layer(
                    summaries(layer),
                ),
                models_of(next@) + pair_models(models_of(current@)) == pair_models(
                    models_of(layer),
                ),
                leaves_of_list(next@) + leaves_of_list(current@) == leaves_of_list(layer),
                all_ids_32(layer) ==> all_ids_32(next@) && all_ids_32(current@),
                next@.len() + current@.len() >= 1,
                current@.len() >= 1 || next@.len() >= 1,
            decreases current@.len(),
        {
            let ghost before = current@;
            let left = current.remove(0);
            let right = current.remove(0);
            let branch = build_branch(left, right);
            let ghost nprev = next@;
            next.push(branch);
            proof {
                assert(before.drop_first().drop_first() =~= before.skip(2));
                assert(summaries(before)[0] == node_summary(before[0]));
                assert(summaries(before)[1] == node_summary(before[1]));
                assert(summaries(before).skip(2) =~= summaries(before.skip(2)));
                assert(summaries(next@) =~= summaries(nprev).push(node_summary(branch)));
                assert(next_layer(summaries(before)) == seq![
                    (
                        branch_id_of(
                            node_id(before[0]),
                            node_id(before[1]),
                            node_max(before[0]),
                        ),
                        node_max(before[1]),
                    ),
                ] + next_layer(summaries(before.skip(2))));
                assert(summaries(nprev) + next_layer(summaries(before)) =~= summaries(next@)
                    + next_layer(summaries(current@)));
                // The model layer pairs up in exactly the same way.
                assert(models_of(before)[0] == model_of(before[0]));
                assert(models_of(before)[1] == model_of(before[1]));
                assert(models_of(before).skip(2) =~= models_of(before.skip(2)));
                assert(model_id(model_of(before[0])) == node_id(before[0]));
                assert(model_id(model_of(before[1])) == node_id(before[1]));
                assert(model_max(model_of(before[0])) == node_max(before[0]));
                assert(model_max(model_of(before[1])) == node_max(before[1]));
                assert(models_of(next@) =~= models_of(nprev).push(model_of(branch)));
                assert(pair_models(models_of(before)) == seq![model_of(branch)] + pair_models(
                    models_of(before.skip(2)),
                ));
                assert(models_of(nprev) + pair_models(models_of(before)) =~= models_of(next@)
                    + pair_models(models_of(current@)));
                // Leaf bookkeeping: the two consumed trees' leaves move into the branch.
                assert(before.drop_first()[0] == before[1]);
                assert(leaves_of_list(before.drop_first()) == tree_leaves(before[1])
                    + leaves_of_list(before.drop_first().drop_first()));
                assert(leaves_of_list(before) =~= tree_leaves(before[0]) + (tree_leaves(
                    before[1],
                ) + leaves_of_list(before.skip(2))));
                lemma_leaves_push(nprev, branch);
                assert(leaves_of_list(next@) =~= leaves_of_list(nprev) + tree_leaves(branch));
                assert(leaves_of_list(nprev) + leaves_of_list(before) =~= leaves_of_list(next@)
                    + leaves_of_list(current@));
                assert(forall|i: int|
                    0 <= i < next@.len() ==> next@[i] == if i < nprev.len() {
                        nprev[i]
                    } else {
                        branch
                    });
            }
        }
        if current.len() == 1 {
            let ghost rem = current@;
            let ghost nprev = next@;
            let last = current.remove(0);
            next.push(last);
            proof {
                assert(last == rem[0]);
                assert(summaries(rem).len() == 1);
                assert(next_layer(summaries(rem)) == summaries(rem));
                assert(summaries(next@) =~= summaries(nprev).push(node_summary(last)));
                assert(summaries(next@) =~= summaries(nprev) + next_layer(summaries(rem)));
                assert(models_of(rem).len() == 1);
                assert(pair_models(models_of(rem)) == models_of(rem));
                assert(models_of(rem)[0] == model_of(last));
                assert(models_of(next@) =~= models_of(nprev).push(model_of(last)));
                assert(models_of(next@) =~= models_of(nprev) + pair_models(models_of(rem)));
                assert(rem.drop_first() =~= Seq::<Node>::empty());
                assert(leaves_of_list(Seq::<Node>::empty()) == Seq::<Node>::empty());
                assert(leaves_of_list(rem) =~= tree_leaves(last));
                lemma_leaves_push(nprev, last);
                assert(leaves_of_list(next@) =~= leaves_of_list(nprev) + tree_leaves(last));
                assert(current@ =~= Seq::<Node>::empty());
                assert(summaries(current@) =~= Seq::<(Seq<u8>, int)>::empty());
                assert(next_layer(summaries(current@)) == summaries(current@));
                assert(summaries(next@) + next_layer(summaries(current@)) =~= summaries(next@));
                assert(models_of(current@) =~= Seq::<TreeModel>::empty());
                assert(pair_models(models_of(current@)) == models_of(current@));
                assert(models_of(next@) + pair_models(models_of(current@)) =~= models_of(next@));
                assert(leaves_of_list(current@) == Seq::<Node>::empty());
            }
        } else {
            proof {
                assert(current@.len() == 0);
                assert(summaries(current@) =~= Seq::<(Seq<u8>, int)>::empty());
                assert(next_layer(summaries(current@)) == summaries(current@));
                assert(summaries(next@) + next_layer(summaries(current@)) =~= summaries(next@));
                assert(models_of(current@) =~= Seq::<TreeModel>::empty());
                assert(pair_models(models_of(current@)) == models_of(current@));
                assert(models_of(next@) + pair_models(models_of(current@)) =~= models_of(next@));
                assert(leaves_of_list(current@) == Seq::<Node>::empty());
            }
        }
        proof {
            assert(leaves_of_list(next@) + Seq::<Node>::empty() =~= leaves_of_list(next@));
            lemma_next_layer_len(summaries(layer));
            assert(summaries(layer).len() == layer.len());
            assert(summaries(next@).len() == next@.len());
            assert(root_summary(summaries(next@)) == root_summary(summaries(layer)));
            assert(models_of(next@) =~= pair_models(models_of(layer)));
            assert(models_of(layer).len() == layer.len());
            assert(tree_of(models_of(next@)) == tree_of(models_of(layer)));
        }
        current = next;
    }
    let ghost fin = current@;
    let root = current.remove(0);
    proof {
        assert(root == fin[0]);
        assert(summaries(fin).len() == 1);
        assert(root_summary(summaries(fin)) == summaries(fin)[0]);
        assert(summaries(fin)[0] == node_summary(root));
        assert(fin.drop_first() =~= Seq::<Node>::empty());
        assert(leaves_of_list(Seq::<Node>::empty()) == Seq::<Node>::empty());
        assert(leaves_of_list(fin) =~= tree_leaves(root) + Seq::<Node>::empty());
        assert(tree_leaves(root) + Seq::<Node>::empty() =~= tree_leaves(root));
        assert(models_of(fin).len() == 1);
        assert(models_of(fin)[0] == model_of(root));
        assert(tree_of(models_of(fin)) == model_of(root));
    }
    Ok(root)
}

/// Emits the proof of every leaf under `n`, appending to `out`, with
/// `partial` holding the segments accumulated so far.
fn resolve_rec(n: &Node, partial: &Vec<u8>, out: &mut Vec<Proof>)
    ensures
        proof_views(final(out)@) == proof_views(old(out)@) + proofs_spec(*n, partial@),
    decreases *n,
{
    match n {
        Node::Leaf { data_hash, min_byte_range, max_byte_range, .. } => {
            let mut p = slice_to_vec(partial.as_slice());
            let mut dh = slice_to_vec(data_hash.as_slice());
            p.append(&mut dh);
            let mut note = u64_to_be_bytes(*max_byte_range as u64, 32);
            p.append(&mut note);
            let ghost oldv = out@;
            out.push(Proof { offset: *min_byte_range, proof: p });
            proof {
                assert(proof_views(out@) =~= proof_views(oldv).push(
                    (
                        *min_byte_range as int,
                        partial@ + data_hash@ + be_bytes(*max_byte_range as nat, 32),
                    ),
                ));
                assert(proof_views(oldv) + proofs_spec(*n, partial@) =~= proof_views(out@));
            }
        },
        Node::Branch { left, right, left_max_byte_range, .. } => {
            let mut seg = slice_to_vec(partial.as_slice());
            let mut li = slice_to_vec(node_id_ref(left).as_slice());
            seg.append(&mut li);
            let mut ri = slice_to_vec(node_id_ref(right).as_slice());
            seg.append(&mut ri);
            let mut note = u64_to_be_bytes(*left_max_byte_range as u64, 32);
            seg.append(&mut note);
            proof {
                assert(seg@ =~= partial@ + node_id(**left) + node_id(**right) + be_bytes(
                    *left_max_byte_range as nat,
                    32,
                ));
            }
            let ghost mid_partial = seg@;
            resolve_rec(left, &seg, out);
            resolve_rec(right, &seg, out);
            proof {
                assert(proof_views(old(out)@) + (proofs_spec(**left, mid_partial) + proofs_spec(
                    **right,
                    mid_partial,
                )) =~= (proof_views(old(out)@) + proofs_spec(**left, mid_partial)) + proofs_spec(
                    **right,
                    mid_partial,
                ));
            }
        },
    }
}

/// Resolves the proof set of a tree: one proof per leaf, in leaf order.
pub fn resolve_proofs(root: &Node) -> (r: Vec<Proof>)
    ensures
        proof_views(r@) == proofs_spec(*root, Seq::<u8>::empty()),
{
    let empty: Vec<u8> = Vec::new();
    let mut out: Vec<Proof> = Vec::new();
    resolve_rec(root, &empty, &mut out);
    proof {
        assert(proof_views(Seq::<Proof>::empty()) =~= Seq::<(int, Seq<u8>)>::empty());
        assert(Seq::<(int, Seq<u8>)>::empty() + proofs_spec(*root, empty@) =~= proofs_spec(
            *root,
            empty@,
        ));
    }
    out
}

/// A tree's proof count equals its leaf count, and each proof is tagged
/// with the matching leaf's lower byte range.
pub proof fn lemma_proofs_match_leaves(n: Node, partial: Seq<u8>)
    ensures
        proofs_spec(n, partial).len() == tree_leaves(n).len(),
        forall|i: int|
            0 <= i < tree_leaves(n).len() ==> (#[trigger] proofs_spec(n, partial)[i]).0 == match
                tree_leaves(n)[i] {
                Node::Leaf { min_byte_range, .. } => min_byte_range as int,
                Node::Branch { .. } => 0,
            },
    decreases n,
{
    match n {
        Node::Leaf { .. } => {},
        Node::Branch { left, right, .. } => {
            let seg = partial + node_id(*left) + node_id(*right) + be_bytes(
                n->Branch_left_max_byte_range as nat,
                32,
            );
            lemma_proofs_match_leaves(*left, seg);
            lemma_proofs_match_leaves(*right, seg);
        },
    }
}

} // verus!

verus! {

/// A chunk tree over mathematical values: what the exec tree determines,
/// one model per byte sequence.
pub enum TreeModel {
    Leaf { id: Seq<u8>, data_hash: Seq<u8>, min: int, max: int },
    Branch { id: Seq<u8>, children: Seq<TreeModel>, left_max: int, max: int },
}

/// The id of a model node.
pub open spec fn model_id(t: TreeModel) -> Seq<u8> {
    match t {
        TreeModel::Leaf { id, .. } => id,
        TreeModel::Branch { id, .. } => id,
    }
}

/// The upper byte range of a model node.
pub open spec fn model_max(t: TreeModel) -> int {
    match t {
        TreeModel::Leaf { max, .. } => max,
        TreeModel::Branch { max, .. } => max,
    }
}

/// The model of an exec tree node.
pub open spec fn model_of(n: Node) -> TreeModel
    decreases n,
{
    match n {
        Node::Leaf { id, data_hash, min_byte_range, max_byte_range } => TreeModel::Leaf {
            id: id@,
            data_hash: data_hash@,
            min: min_byte_range as int,
            max: max_byte_range as int,
        },
        Node::Branch { id, left, right, left_max_byte_range, max_byte_range } => TreeModel::Branch {
            id: id@,
            children: seq![model_of(*left), model_of(*right)],
            left_max: left_max_byte_range as int,
            max: max_byte_range as int,
        },
    }
}

/// The models of a node list.
pub open spec fn models_of(ns: Seq<Node>) -> Seq<TreeModel> {
    ns.map_values(|n: Node| model_of(n))
}

/// One pairing pass at the model level, mirroring the build exactly.
pub open spec fn pair_models(l: Seq<TreeModel>) -> Seq<TreeModel>
    decreases l.len(),
{
    if l.len() <= 1 {
        l
    } else {
        seq![
            TreeModel::Branch {
                id: branch_id_of(model_id(l[0]), model_id(l[1]), model_max(l[0])),
                children: seq![l[0], l[1]],
                left_max: model_max(l[0]),
                max: model_max(l[1]),
            },
        ] + pair_models(l.skip(2))
    }
}

/// A pairing pass over two or more models yields `ceil(n / 2)` models.
pub proof fn lemma_pair_models_len(l: Seq<TreeModel>)
    ensures
        l.len() >= 2 ==> pair_models(l).len() == (l.len() + 1) / 2,
        l.len() >= 2 ==> pair_models(l).len() < l.len(),
    decreases l.len(),
{
    if l.len() >= 2 {
        lemma_pair_models_len(l.skip(2));
        assert(pair_models(l).len() == 1 + pair_models(l.skip(2)).len());
        if l.len() == 2 {
            assert(pair_models(l.skip(2)).len() == 0);
        } else if l.len() == 3 {
            assert(pair_models(l.skip(2)).len() == 1);
        }
    }
}

/// The single tree that repeated pairing passes build from a layer.
pub open spec fn tree_of(l: Seq<TreeModel>) -> TreeModel
    decreases l.len(),
    via tree_of_dec
{
    if l.len() <= 1 {
        l[0]
    } else {
        tree_of(pair_models(l))
    }
}

#[via_fn]
proof fn tree_of_dec(l: Seq<TreeModel>) {
    if l.len() >= 2 {
        lemma_pair_models_len(l);
    }
}

/// The leaf model of one chunk of `data`.
pub open spec fn leaf_model_of_chunk(data: Seq<u8>, r: (int, int)) -> TreeModel {
    TreeModel::Leaf {
        id: leaf_id_of(sha256_of(data.subrange(r.0, r.1)), r.1),
        data_hash: sha256_of(data.subrange(r.0, r.1)),
        min: r.0,
        max: r.1,
    }
}

/// The leaf models of a byte sequence, one per chunk.
pub open spec fn leaf_models(data: Seq<u8>) -> Seq<TreeModel> {
    chunk_ranges(data.len()).map_values(|r: (int, int)| leaf_model_of_chunk(data, r))
}

/// The proofs of a model tree, mirroring [`proofs_spec`].
pub open spec fn model_proofs(t: TreeModel, partial: Seq<u8>) -> Seq<(int, Seq<u8>)>
    decreases t,
{
    match t {
        TreeModel::Leaf { data_hash, min, max, .. } => {
            seq![(min, partial + data_hash + be_bytes(max as nat, 32))]
        },
        TreeModel::Branch { children, left_max, .. } => {
            if children.len() == 2 {
                let seg = partial + model_id(children[0]) + model_id(children[1]) + be_bytes(
                    left_max as nat,
                    32,
                );
                model_proofs(children[0], seg) + model_proofs(children[1], seg)
            } else {
                Seq::empty()
            }
        },
    }
}

/// The proof set of a byte sequence: a fixed function of the bytes alone,
/// in leaf order, each proof the concatenation of the segments from the
/// root down to its leaf.
pub open spec fn data_proofs(data: Seq<u8>) -> Seq<(int, Seq<u8>)> {
    model_proofs(tree_of(leaf_models(data)), Seq::empty())
}

/// An exec tree's proofs are its model's proofs.
pub proof fn lemma_proofs_follow_model(n: Node, partial: Seq<u8>)
    ensures
        proofs_spec(n, partial) == model_proofs(model_of(n), partial),
    decreases n,
{
    match n {
        Node::Leaf { .. } => {},
        Node::Branch { left, right, left_max_byte_range, .. } => {
            let m = model_of(n);
            assert(m->Branch_children.len() == 2);
            assert(m->Branch_children[0] == model_of(*left));
            assert(m->Branch_children[1] == model_of(*right));
            assert(model_id(model_of(*left)) == node_id(*left));
            assert(model_id(model_of(*right)) == node_id(*right));
            let seg = partial + node_id(*left) + node_id(*right) + be_bytes(
                left_max_byte_range as nat,
                32,
            );
            lemma_proofs_follow_model(*left, seg);
            lemma_proofs_follow_model(*right, seg);
        },
    }
}

} // verus!
