//! How nodes handle what they receive: the mempool rules, and the decision
//! each message leads to. The network itself (connections, framing,
//! threads) is driven by the program around the library, which performs the
//! returned actions.

use vstd::prelude::*;

use crate::blockchain::block::{tx_hashes, transactions_model, Block};
use crate::blockchain::blockchain::{
    apply_transactions, block_validation, transaction_validation, Blockchain, ChainModel, Validation,
};
use crate::blockchain::merkle_tree::hashes_model;
use crate::blockchain::transaction::{tx_hash, Transaction, TxModel};
use crate::network::message::Message;
use crate::utils::bytes::bytes_eq;

verus! {

/// The transactions of `s` whose hash is not among `hashes`, in order.
pub open spec fn retain_not_included(s: Seq<TxModel>, hashes: Seq<Seq<u8>>) -> Seq<TxModel>
    decreases s.len(),
{
    if s.len() == 0 {
        Seq::empty()
    } else {
        let r = retain_not_included(s.drop_last(), hashes);
        if hashes.contains(tx_hash(s.last())) {
            r
        } else {
            r.push(s.last())
        }
    }
}

/// No two transactions of `s` have the same hash.
pub open spec fn hashes_distinct(s: Seq<TxModel>) -> bool {
    forall|i: int, j: int|
        0 <= i < s.len() && 0 <= j < s.len() && i != j ==> tx_hash(#[trigger] s[i]) != tx_hash(
            #[trigger] s[j],
        )
}

/// Law: what stays pending after a block is what was pending and is not in
/// the block: no remaining transaction has the hash of one of the block's,
/// every pending transaction the block leaves out stays, and nothing is
/// added.
pub proof fn lemma_mempool_after_block(s: Seq<TxModel>, hashes: Seq<Seq<u8>>)
    ensures
        forall|i: int|
            0 <= i < retain_not_included(s, hashes).len() ==> !hashes.contains(
                tx_hash(#[trigger] retain_not_included(s, hashes)[i]),
            ) && s.contains(retain_not_included(s, hashes)[i]),
        forall|i: int|
            0 <= i < s.len() && !hashes.contains(tx_hash(#[trigger] s[i])) ==> retain_not_included(
                s,
                hashes,
            ).contains(s[i]),
    decreases s.len(),
{
    if s.len() > 0 {
        let t = s.drop_last();
        lemma_mempool_after_block(t, hashes);
        let r = retain_not_included(s, hashes);
        let rt = retain_not_included(t, hashes);
        assert forall|i: int| 0 <= i < r.len() implies !hashes.contains(tx_hash(#[trigger] r[i]))
            && s.contains(r[i]) by {
            if i < rt.len() {
                assert(r[i] == rt[i]);
                let k = choose|k: int| 0 <= k < t.len() && t[k] == rt[i];
                assert(s[k] == t[k]);
            } else {
                assert(r[i] == s.last());
                assert(s[s.len() - 1] == s.last());
            }
        }
        assert forall|i: int| 0 <= i < s.len() && !hashes.contains(tx_hash(#[trigger] s[i])) implies r.contains(
            s[i],
        ) by {
            if i < t.len() {
                assert(t[i] == s[i]);
                assert(rt.contains(t[i]));
                let k = choose|k: int| 0 <= k < rt.len() && rt[k] == t[i];
                assert(r[k] == rt[k]);
            } else {
                assert(r[r.len() - 1] == s[i]);
            }
        }
    }
}

proof fn lemma_push_keeps_distinct(s: Seq<TxModel>, t: TxModel)
    requires
        hashes_distinct(s),
        !has_same_hash(s, t),
    ensures
        hashes_distinct(s.push(t)),
{
    let p = s.push(t);
    assert forall|i: int, j: int|
        0 <= i < p.len() && 0 <= j < p.len() && i != j implies tx_hash(#[trigger] p[i]) != tx_hash(
        #[trigger] p[j],
    ) by {
        if i == s.len() {
            assert(p[j] == s[j]);
        } else if j == s.len() {
            assert(p[i] == s[i]);
        } else {
            assert(p[i] == s[i] && p[j] == s[j]);
        }
    }
}

proof fn lemma_retain_keeps_distinct(s: Seq<TxModel>, hashes: Seq<Seq<u8>>)
    requires
        hashes_distinct(s),
    ensures
        hashes_distinct(retain_not_included(s, hashes)),
    decreases s.len(),
{
    if s.len() > 0 {
        let u = s.drop_last();
        assert forall|i: int, j: int|
            0 <= i < u.len() && 0 <= j < u.len() && i != j implies tx_hash(#[trigger] u[i]) != tx_hash(
            #[trigger] u[j],
        ) by {
            assert(u[i] == s[i] && u[j] == s[j]);
        }
        lemma_retain_keeps_distinct(u, hashes);
        lemma_mempool_after_block(u, hashes);
        let ru = retain_not_included(u, hashes);
        if !hashes.contains(tx_hash(s.last())) {
            if has_same_hash(ru, s.last()) {
                let k = choose|k: int| 0 <= k < ru.len() && tx_hash(#[trigger] ru[k]) == tx_hash(s.last());
                assert(u.contains(ru[k]));
                let m = choose|m: int| 0 <= m < u.len() && u[m] == ru[k];
                assert(s[m] == u[m]);
                assert(s[s.len() - 1] == s.last());
            }
            lemma_push_keeps_distinct(ru, s.last());
        }
    }
}

/// Law: a mempool whose transactions have distinct hashes keeps them
/// distinct when a transaction is admitted to it (which happens only when
/// no pending transaction has its hash) and when a block removes the ones
/// it includes.
pub proof fn lemma_mempool_hashes_stay_distinct(s: Seq<TxModel>, t: TxModel, hashes: Seq<Seq<u8>>)
    requires
        hashes_distinct(s),
    ensures
        !has_same_hash(s, t) ==> hashes_distinct(s.push(t)),
        hashes_distinct(retain_not_included(s, hashes)),
{
    if !has_same_hash(s, t) {
        lemma_push_keeps_distinct(s, t);
    }
    lemma_retain_keeps_distinct(s, hashes);
}

/// Whether some transaction of `s` has the hash of `t`.
pub open spec fn has_same_hash(s: Seq<TxModel>, t: TxModel) -> bool {
    exists|i: int| 0 <= i < s.len() && tx_hash(#[trigger] s[i]) == tx_hash(t)
}

/// Whether `h` is among `hashes`.
fn contains_hash(hashes: &Vec<Vec<u8>>, h: &[u8]) -> (res: bool)
    ensures
        res == hashes_model(hashes@).contains(h@),
{
    let n = hashes.len();
    let mut i: usize = 0;
    while i < n
        invariant
            n == hashes@.len(),
            i <= n,
            forall|j: int| 0 <= j < i ==> hashes_model(hashes@)[j] != h@,
        decreases n - i,
    {
        if bytes_eq(hashes[i].as_slice(), h) {
            assert(hashes_model(hashes@)[i as int] == h@);
            return true;
        }
        i = i + 1;
    }
    false
}

/// Whether some transaction of `mempool` has the hash of `tx`.
fn mempool_contains(mempool: &Vec<Transaction>, tx: &Transaction) -> (res: bool)
    ensures
        res == has_same_hash(transactions_model(mempool@), tx@),
{
    let h = tx.hash();
    let n = mempool.len();
    let mut i: usize = 0;
    while i < n
        invariant
            n == mempool@.len(),
            i <= n,
            h@ == tx_hash(tx@),
            forall|j: int| 0 <= j < i ==> tx_hash(transactions_model(mempool@)[j]) != tx_hash(tx@),
        decreases n - i,
    {
        let hi = mempool[i].hash();
        if bytes_eq(hi.as_slice(), h.as_slice()) {
            assert(tx_hash(transactions_model(mempool@)[i as int]) == tx_hash(tx@));
            return true;
        }
        i = i + 1;
    }
    proof {
        if has_same_hash(transactions_model(mempool@), tx@) {
            let j = choose|j: int|
                0 <= j < transactions_model(mempool@).len() && tx_hash(
                    #[trigger] transactions_model(mempool@)[j],
                ) == tx_hash(tx@);
            assert(tx_hash(transactions_model(mempool@)[j]) != tx_hash(tx@));
        }
    }
    false
}

/// Updates the mempool by removing transactions that have been included in
/// a block (compared by hash).
pub fn update_mempool(mempool: &mut Vec<Transaction>, block: &Block)
    ensures
        transactions_model(final(mempool)@) == retain_not_included(
            transactions_model(old(mempool)@),
            tx_hashes(block@.transactions),
        ),
{
    let block_txids = crate::blockchain::block::hash_transactions(&block.transactions);
    let ghost hashes = tx_hashes(block@.transactions);
    let ghost old_s = transactions_model(mempool@);
    let mut kept: Vec<Transaction> = Vec::new();
    let n = mempool.len();
    let mut i: usize = 0;
    while i < n
        invariant
            n == mempool@.len(),
            old_s == transactions_model(mempool@),
            hashes_model(block_txids@) == hashes,
            i <= n,
            transactions_model(kept@) == retain_not_included(old_s.take(i as int), hashes),
        decreases n - i,
    {
        let h = mempool[i].hash();
        assert(old_s.take(i + 1).drop_last() =~= old_s.take(i as int));
        let ghost before = kept@;
        if !contains_hash(&block_txids, h.as_slice()) {
            kept.push(mempool[i].clone());
            assert(transactions_model(kept@) =~= transactions_model(before).push(old_s[i as int]));
        }
        i = i + 1;
    }
    assert(old_s.take(n as int) =~= old_s);
    *mempool = kept;
}

/// What became of a transaction offered to a node.
pub enum Admission {
    /// Valid and new: added to the mempool (and to be sent to the peers).
    Accepted,
    /// Valid, but a transaction with the same hash is already pending.
    Duplicate,
    /// Not valid against the chain's UTXO set.
    Rejected,
    /// Validation is not defined on it (see `Validation::Aborts`).
    Aborts,
}

/// Handles an incoming transaction: a valid transaction whose hash is not
/// yet in the mempool is added to it.
pub fn handle_incoming_transaction(blockchain: &Blockchain, mempool: &mut Vec<Transaction>, tx: &Transaction) -> (res: Admission)
    requires
        blockchain.wf(),
    ensures
        match transaction_validation(tx@, blockchain@.utxo) {
            Validation::Aborts => res == Admission::Aborts && final(mempool)@ == old(mempool)@,
            Validation::Invalid(_) => res == Admission::Rejected && final(mempool)@ == old(mempool)@,
            Validation::Valid => if has_same_hash(transactions_model(old(mempool)@), tx@) {
                res == Admission::Duplicate && final(mempool)@ == old(mempool)@
            } else {
                res == Admission::Accepted && transactions_model(final(mempool)@) == transactions_model(
                    old(mempool)@,
                ).push(tx@)
            },
        },
{
    match blockchain.validate_transaction(tx, &blockchain.utxo_set) {
        Validation::Valid => {},
        Validation::Invalid(_) => {
            return Admission::Rejected;
        },
        Validation::Aborts => {
            return Admission::Aborts;
        },
    }
    if mempool_contains(mempool, tx) {
        return Admission::Duplicate;
    }
    let ghost before = mempool@;
    mempool.push(tx.clone());
    assert(transactions_model(mempool@) =~= transactions_model(before).push(tx@));
    Admission::Accepted
}

/// What became of a block offered to a node.
pub enum BlockAcceptance {
    /// Appended to the chain; its transactions left the mempool.
    Accepted,
    /// Not valid on top of the chain.
    Rejected,
    /// Validation is not defined on it (see `Validation::Aborts`).
    Aborts,
}

/// Handles an incoming block: a valid block is appended to the chain and
/// the transactions it includes leave the mempool.
pub fn handle_incoming_block(blockchain: &mut Blockchain, mempool: &mut Vec<Transaction>, block: &Block) -> (res: BlockAcceptance)
    requires
        old(blockchain).wf(),
    ensures
        final(blockchain).wf(),
        match block_validation(old(blockchain)@, block@) {
            Validation::Valid => {
                &&& res == BlockAcceptance::Accepted
                &&& final(blockchain)@.blocks == old(blockchain)@.blocks.push(block@)
                &&& final(blockchain)@.utxo == apply_transactions(
                    old(blockchain)@.utxo,
                    block@.transactions,
                    block@.transactions.len(),
                )
                &&& transactions_model(final(mempool)@) == retain_not_included(
                    transactions_model(old(mempool)@),
                    tx_hashes(block@.transactions),
                )
            },
            Validation::Invalid(_) => res == BlockAcceptance::Rejected && final(blockchain)@
                == old(blockchain)@ && final(mempool)@ == old(mempool)@,
            Validation::Aborts => res == BlockAcceptance::Aborts && final(blockchain)@
                == old(blockchain)@ && final(mempool)@ == old(mempool)@,
        },
{
    match blockchain.try_add_block(block.clone()) {
        Some(Ok(())) => {
            update_mempool(mempool, block);
            BlockAcceptance::Accepted
        },
        Some(Err(_)) => BlockAcceptance::Rejected,
        None => BlockAcceptance::Aborts,
    }
}

/// What a node of the listening kind does after handling a message.
pub enum NodeAction {
    /// Send this message to every peer.
    Broadcast(Message),
    /// Send the whole chain to the peer that asked.
    SendBlockchain,
    /// Nothing to do.
    Ignore,
    /// A message of a kind this node does not handle.
    Unhandled(Message),
    /// Validation is not defined on what was received; the handler stops.
    Abort,
}

/// Handles a message received by a listening node: transactions and blocks
/// are validated and, when accepted, passed on to every peer; a request for
/// the chain is answered with it; the other requests and announcements are
/// ignored or reported as unhandled.
pub fn node_handle_message(blockchain: &mut Blockchain, mempool: &mut Vec<Transaction>, message: Message) -> (res: NodeAction)
    requires
        old(blockchain).wf(),
    ensures
        final(blockchain).wf(),
        match message {
            Message::Transaction(tx) => {
                &&& final(blockchain)@ == old(blockchain)@
                &&& match transaction_validation(tx@, old(blockchain)@.utxo) {
                    Validation::Aborts => res == NodeAction::Abort && final(mempool)@ == old(mempool)@,
                    Validation::Invalid(_) => res == NodeAction::Ignore && final(mempool)@ == old(mempool)@,
                    Validation::Valid => if has_same_hash(transactions_model(old(mempool)@), tx@) {
                        res == NodeAction::Ignore && final(mempool)@ == old(mempool)@
                    } else {
                        res == NodeAction::Broadcast(Message::Transaction(tx)) && transactions_model(
                            final(mempool)@,
                        ) == transactions_model(old(mempool)@).push(tx@)
                    },
                }
            },
            Message::Block(block) => match block_validation(old(blockchain)@, block@) {
                Validation::Valid => {
                    &&& res == NodeAction::Broadcast(Message::Block(block))
                    &&& final(blockchain)@.blocks == old(blockchain)@.blocks.push(block@)
                    &&& final(blockchain)@.utxo == apply_transactions(
                        old(blockchain)@.utxo,
                        block@.transactions,
                        block@.transactions.len(),
                    )
                    &&& transactions_model(final(mempool)@) == retain_not_included(
                        transactions_model(old(mempool)@),
                        tx_hashes(block@.transactions),
                    )
                },
                Validation::Invalid(_) => res == NodeAction::Ignore && final(blockchain)@ == old(blockchain)@ && final(mempool)@ == old(mempool)@,
                Validation::Aborts => res == NodeAction::Abort && final(blockchain)@ == old(blockchain)@ && final(mempool)@ == old(mempool)@,
            },
            Message::GetBlockchain => res == NodeAction::SendBlockchain && final(blockchain)@ == old(blockchain)@ && final(mempool)@ == old(mempool)@,
            Message::BlockchainData(_) | Message::RequestPeers | Message::Peers(_) => res
                == NodeAction::Ignore && final(blockchain)@ == old(blockchain)@ && final(mempool)@
                == old(mempool)@,
            _ => res == NodeAction::Unhandled(message) && final(blockchain)@ == old(blockchain)@
                && final(mempool)@ == old(mempool)@,
        },
{
    match message {
        Message::Transaction(tx) => match handle_incoming_transaction(blockchain, mempool, &tx) {
            Admission::Accepted => NodeAction::Broadcast(Message::Transaction(tx)),
            Admission::Aborts => NodeAction::Abort,
            _ => NodeAction::Ignore,
        },
        Message::Block(block) => match handle_incoming_block(blockchain, mempool, &block) {
            BlockAcceptance::Accepted => NodeAction::Broadcast(Message::Block(block)),
            BlockAcceptance::Aborts => NodeAction::Abort,
            BlockAcceptance::Rejected => NodeAction::Ignore,
        },
        Message::GetBlockchain => NodeAction::SendBlockchain,
        Message::BlockchainData(_) => NodeAction::Ignore,
        Message::RequestPeers => NodeAction::Ignore,
        Message::Peers(_) => NodeAction::Ignore,
        other => NodeAction::Unhandled(other),
    }
}

/// The views of a list of strings.
pub open spec fn strings_model(s: Seq<String>) -> Seq<Seq<char>> {
    s.map_values(|x: String| x@)
}

/// The received peer addresses to connect to: those other than this node's
/// own address and not yet connected, in the order received.
pub open spec fn peers_to_connect(received: Seq<Seq<char>>, self_address: Seq<char>, known: Seq<Seq<char>>) -> Seq<Seq<char>>
    decreases received.len(),
{
    if received.len() == 0 {
        Seq::empty()
    } else {
        let r = peers_to_connect(received.drop_last(), self_address, known);
        let p = received.last();
        if p != self_address && !known.contains(p) {
            r.push(p)
        } else {
            r
        }
    }
}

/// Whether `s` is among `list`.
fn contains_string(list: &Vec<String>, s: &String) -> (res: bool)
    ensures
        res == strings_model(list@).contains(s@),
{
    let n = list.len();
    let mut i: usize = 0;
    while i < n
        invariant
            n == list@.len(),
            i <= n,
            forall|j: int| 0 <= j < i ==> strings_model(list@)[j] != s@,
        decreases n - i,
    {
        if list[i] == *s {
            assert(strings_model(list@)[i as int] == s@);
            return true;
        }
        i = i + 1;
    }
    false
}

/// Copies a list of strings.
fn copy_strings(list: &Vec<String>) -> (res: Vec<String>)
    ensures
        strings_model(res@) == strings_model(list@),
{
    let mut out: Vec<String> = Vec::new();
    let n = list.len();
    let mut i: usize = 0;
    while i < n
        invariant
            n == list@.len(),
            i <= n,
            out@.len() == i,
            forall|j: int| 0 <= j < i ==> #[trigger] out@[j]@ == list@[j]@,
        decreases n - i,
    {
        out.push(list[i].clone());
        i = i + 1;
    }
    assert(strings_model(out@) =~= strings_model(list@));
    out
}

/// The received peers to connect to.
pub fn select_new_peers(received: &Vec<String>, self_address: &String, known_peers: &Vec<String>) -> (res: Vec<String>)
    ensures
        strings_model(res@) == peers_to_connect(
            strings_model(received@),
            self_address@,
            strings_model(known_peers@),
        ),
{
    let ghost rs = strings_model(received@);
    let mut out: Vec<String> = Vec::new();
    let n = received.len();
    let mut i: usize = 0;
    while i < n
        invariant
            n == received@.len(),
            rs == strings_model(received@),
            i <= n,
            strings_model(out@) == peers_to_connect(rs.take(i as int), self_address@, strings_model(known_peers@)),
        decreases n - i,
    {
        let peer = &received[i];
        assert(rs.take(i + 1).drop_last() =~= rs.take(i as int));
        assert(rs.take(i + 1).last() == peer@);
        let ghost before = out@;
        if !(*peer == *self_address) && !contains_string(known_peers, peer) {
            out.push(peer.clone());
            assert(strings_model(out@) =~= strings_model(before).push(peer@));
        }
        i = i + 1;
    }
    assert(rs.take(n as int) =~= rs);
    out
}

/// What a mining node does after handling a message.
pub enum WorkerAction {
    /// Send this message to every connected peer but this node.
    Broadcast(Message),
    /// Answer the peer that sent the message.
    Reply(Message),
    /// Connect to these peers.
    Connect(Vec<String>),
    /// Nothing to do.
    Nothing,
    /// Validation is not defined on what was received; the handler stops.
    Abort,
}

/// Handles a message received by a mining node.
pub fn worker_handle_message(
    blockchain: &mut Blockchain,
    mempool: &mut Vec<Transaction>,
    message: Message,
    self_address: &String,
    known_peers: &Vec<String>,
) -> (res: WorkerAction)
    requires
        old(blockchain).wf(),
    ensures
        final(blockchain).wf(),
        match message {
            Message::Transaction(tx) => {
                &&& final(blockchain)@ == old(blockchain)@
                &&& transactions_model(final(mempool)@) == transactions_model(old(mempool)@).push(tx@)
                &&& res == WorkerAction::Broadcast(Message::BroadcastTransaction(tx))
            },
            Message::BroadcastTransaction(tx) => {
                &&& final(blockchain)@ == old(blockchain)@
                &&& if has_same_hash(transactions_model(old(mempool)@), tx@) {
                    res == WorkerAction::Nothing && final(mempool)@ == old(mempool)@
                } else {
                    &&& transactions_model(final(mempool)@) == transactions_model(old(mempool)@).push(tx@)
                    &&& res == WorkerAction::Broadcast(Message::BroadcastTransaction(tx))
                }
            },
            Message::NewBlock(block) => match block_validation(old(blockchain)@, block@) {
                Validation::Valid => {
                    &&& res == WorkerAction::Broadcast(Message::Block(block))
                    &&& final(blockchain)@.blocks == old(blockchain)@.blocks.push(block@)
                    &&& final(blockchain)@.utxo == apply_transactions(
                        old(blockchain)@.utxo,
                        block@.transactions,
                        block@.transactions.len(),
                    )
                    &&& transactions_model(final(mempool)@) == retain_not_included(
                        transactions_model(old(mempool)@),
                        tx_hashes(block@.transactions),
                    )
                },
                Validation::Invalid(_) => res == WorkerAction::Nothing && final(blockchain)@ == old(blockchain)@ && final(mempool)@ == old(mempool)@,
                Validation::Aborts => res == WorkerAction::Abort && final(blockchain)@ == old(blockchain)@ && final(mempool)@ == old(mempool)@,
            },
            Message::Block(block) => match block_validation(old(blockchain)@, block@) {
                Validation::Valid => {
                    &&& res == WorkerAction::Nothing
                    &&& final(blockchain)@.blocks == old(blockchain)@.blocks.push(block@)
                    &&& final(blockchain)@.utxo == apply_transactions(
                        old(blockchain)@.utxo,
                        block@.transactions,
                        block@.transactions.len(),
                    )
                    &&& transactions_model(final(mempool)@) == retain_not_included(
                        transactions_model(old(mempool)@),
                        tx_hashes(block@.transactions),
                    )
                },
                Validation::Invalid(_) => res == WorkerAction::Nothing && final(blockchain)@ == old(blockchain)@ && final(mempool)@ == old(mempool)@,
                Validation::Aborts => res == WorkerAction::Abort && final(blockchain)@ == old(blockchain)@ && final(mempool)@ == old(mempool)@,
            },
            Message::RequestPeers => {
                &&& final(blockchain)@ == old(blockchain)@
                &&& final(mempool)@ == old(mempool)@
                &&& res matches WorkerAction::Reply(Message::Peers(p)) && strings_model(p@)
                    == strings_model(known_peers@)
            },
            Message::Peers(received) => {
                &&& final(blockchain)@ == old(blockchain)@
                &&& final(mempool)@ == old(mempool)@
                &&& res matches WorkerAction::Connect(p) && strings_model(p@) == peers_to_connect(
                    strings_model(received@),
                    self_address@,
                    strings_model(known_peers@),
                )
            },
            Message::Ping => res == WorkerAction::Reply(Message::Pong) && final(blockchain)@ == old(blockchain)@ && final(mempool)@ == old(mempool)@,
            Message::Pong => res == WorkerAction::Nothing && final(blockchain)@ == old(blockchain)@
                && final(mempool)@ == old(mempool)@,
            Message::GetBlockchain => {
                &&& final(blockchain)@ == old(blockchain)@
                &&& final(mempool)@ == old(mempool)@
                &&& res matches WorkerAction::Reply(Message::BlockchainData(c)) && c@ == old(blockchain)@ && c.wf()
            },
            Message::BlockchainData(other) => {
                &&& res == WorkerAction::Nothing
                &&& final(mempool)@ == old(mempool)@
                &&& final(blockchain)@.utxo == old(blockchain)@.utxo
                &&& final(blockchain)@.blocks == if other@.blocks.len() > old(blockchain)@.blocks.len() {
                    other@.blocks
                } else {
                    old(blockchain)@.blocks
                }
            },
        },
{
    match message {
        Message::Transaction(tx) => {
            let ghost before = mempool@;
            mempool.push(tx.clone());
            assert(transactions_model(mempool@) =~= transactions_model(before).push(tx@));
            WorkerAction::Broadcast(Message::BroadcastTransaction(tx))
        },
        Message::BroadcastTransaction(tx) => {
            if mempool_contains(mempool, &tx) {
                WorkerAction::Nothing
            } else {
                let ghost before = mempool@;
                mempool.push(tx.clone());
                assert(transactions_model(mempool@) =~= transactions_model(before).push(tx@));
                WorkerAction::Broadcast(Message::BroadcastTransaction(tx))
            }
        },
        Message::NewBlock(block) => match handle_incoming_block(blockchain, mempool, &block) {
            BlockAcceptance::Accepted => WorkerAction::Broadcast(Message::Block(block)),
            BlockAcceptance::Rejected => WorkerAction::Nothing,
            BlockAcceptance::Aborts => WorkerAction::Abort,
        },
        Message::Block(block) => match handle_incoming_block(blockchain, mempool, &block) {
            BlockAcceptance::Accepted => WorkerAction::Nothing,
            BlockAcceptance::Rejected => WorkerAction::Nothing,
            BlockAcceptance::Aborts => WorkerAction::Abort,
        },
        Message::RequestPeers => WorkerAction::Reply(Message::Peers(copy_strings(known_peers))),
        Message::Peers(received) => WorkerAction::Connect(
            select_new_peers(&received, self_address, known_peers),
        ),
        Message::Ping => WorkerAction::Reply(Message::Pong),
        Message::Pong => WorkerAction::Nothing,
        Message::GetBlockchain => WorkerAction::Reply(Message::BlockchainData(blockchain.clone())),
        Message::BlockchainData(other) => {
            if other.blocks.len() > blockchain.blocks.len() {
                blockchain.blocks = other.blocks;
            }
            WorkerAction::Nothing
        },
    }
}

/// Takes every pending transaction for the next block, or `None` when the
/// mempool is empty (the miner then waits).
pub fn take_pending(mempool: &mut Vec<Transaction>) -> (res: Option<Vec<Transaction>>)
    ensures
        old(mempool)@.len() == 0 ==> res is None && final(mempool)@ == old(mempool)@,
        old(mempool)@.len() > 0 ==> (res matches Some(txs) && txs@ == old(mempool)@
            && final(mempool)@.len() == 0),
{
    if mempool.len() == 0 {
        return None;
    }
    let mut taken: Vec<Transaction> = Vec::new();
    std::mem::swap(&mut taken, mempool);
    Some(taken)
}

} // verus!
