//! The ledger engine: transactions, blocks, the chain, proof-of-work, chain
//! validation and conflict resolution over peer snapshots.

use vstd::prelude::*;

use crate::encoding::{spec_hex_digits, spec_i64_bytes, hex_bytes, i64_bytes, append_bytes};
use crate::hashing::{sha256_of, sha256};

verus! {

/// The failures an operation of the ledger can surface.
#[derive(Clone, Copy, Debug, PartialEq, Eq, Structural)]
pub enum BlockchainError {
    /// A block could not be hashed.
    HashFailed,
    /// The chain holds no block at all; initialization guarantees a genesis
    /// block, so this marks an invariant violation.
    NoGenesisBlock,
    /// Every 64-bit candidate was tried and none met the difficulty target.
    ProofSearchExhausted,
}

/// A fixed-size 32-byte digest; equality is byte-exact.
#[derive(Debug)]
pub struct BlockHash {
    bytes: Vec<u8>,
}

impl Clone for BlockHash {
    /// Clones the digest, byte for byte.
    fn clone(&self) -> (r: Self)
        ensures
            r@ == self@,
    {
        let n = self.bytes.len();
        let mut bytes: Vec<u8> = Vec::new();
        for i in 0..n
            invariant
                n == self.bytes.len(),
                bytes@ =~= self.bytes@.take(i as int),
        {
            bytes.push(self.bytes[i]);
        }
        proof {
            assert(bytes@ =~= self.bytes@);
        }
        BlockHash { bytes }
    }
}

impl View for BlockHash {
    type V = Seq<u8>;

    closed spec fn view(&self) -> Seq<u8> {
        self.bytes@
    }
}

impl BlockHash {
    /// A well-formed digest holds exactly 32 bytes.
    pub open spec fn wf(&self) -> bool {
        self@.len() == 32
    }

    /// The all-zero digest used as the genesis block's predecessor link.
    pub fn zero() -> (r: BlockHash)
        ensures
            r@ =~= Seq::new(32, |i: int| 0u8),
            r.wf(),
    {
        let mut bytes: Vec<u8> = Vec::new();
        for i in 0..32usize
            invariant
                bytes@ =~= Seq::new(i as nat, |j: int| 0u8),
        {
            bytes.push(0u8);
        }
        proof {
            assert(bytes@ =~= Seq::new(32, |i: int| 0u8));
        }
        BlockHash { bytes }
    }

    /// Wraps raw digest bytes; refused unless exactly 32 bytes are given.
    pub fn from_bytes(bytes: Vec<u8>) -> (r: Option<BlockHash>)
        ensures
            bytes@.len() == 32 ==> (r matches Some(h) && h@ == bytes@ && h.wf()),
            bytes@.len() != 32 ==> r is None,
    {
        if bytes.len() == 32 {
            Some(BlockHash { bytes })
        } else {
            None
        }
    }

    /// The digest bytes.
    pub fn bytes(&self) -> (r: &Vec<u8>)
        ensures
            r@ == self@,
    {
        &self.bytes
    }

    /// Byte-exact equality of two digests.
    pub fn equals(&self, other: &BlockHash) -> (r: bool)
        ensures
            r == (self@ == other@),
    {
        if self.bytes.len() != other.bytes.len() {
            proof {
                assert(self@ != other@);
            }
            return false;
        }
        let n = self.bytes.len();
        for i in 0..n
            invariant
                n == self.bytes.len() == other.bytes.len(),
                forall|j: int| 0 <= j < i ==> self@[j] == other@[j],
        {
            if self.bytes[i] != other.bytes[i] {
                proof {
                    assert(self@[i as int] != other@[i as int]);
                }
                return false;
            }
        }
        proof {
            assert(self@ =~= other@);
        }
        true
    }
}

/// A transfer of some amount from one party to another; immutable once
/// created, with no validation of the parties or the amount. The amount is
/// carried as the bit pattern of a 32-bit floating-point value, so the ledger
/// itself works on plain integers.
#[derive(Clone, Debug)]
pub struct Transaction {
    pub sender: String,
    pub recipient: String,
    pub amount_bits: u32,
}

impl Transaction {
    /// Builds a transaction from the two parties and the amount bits.
    pub fn new(sender: &str, recipient: &str, amount_bits: u32) -> (r: Transaction)
        ensures
            r.sender@ == sender@,
            r.recipient@ == recipient@,
            r.amount_bits == amount_bits,
    {
        Transaction { sender: sender.to_owned(), recipient: recipient.to_owned(), amount_bits }
    }
}

/// Whether two transactions carry the same parties and amount.
pub open spec fn tx_matches(a: Transaction, b: Transaction) -> bool {
    a.sender@ == b.sender@ && a.recipient@ == b.recipient@ && a.amount_bits == b.amount_bits
}

/// Whether two transaction sequences match element by element.
pub open spec fn txs_match(a: Seq<Transaction>, b: Seq<Transaction>) -> bool {
    a.len() == b.len() && forall|i: int| 0 <= i < a.len() ==> tx_matches(a[i], b[i])
}

/// An immutable sealed unit of the ledger: its 1-based position, the moment
/// it was sealed, the transactions sealed into it, the proof found for it,
/// and the digest of its predecessor.
#[derive(Clone, Debug)]
pub struct Block {
    pub index: u64,
    pub timestamp: i64,
    pub transactions: Vec<Transaction>,
    pub proof: u64,
    pub previous_hash: BlockHash,
}

/// A length-prefixed encoding of one string field: the byte length of its
/// UTF-8 form, little endian, then the bytes themselves.
pub open spec fn spec_str_field(s: Seq<char>) -> Seq<u8> {
    let bytes = vstd::utf8::encode_utf8(s);
    vstd::bytes::spec_u64_to_le_bytes(bytes.len() as u64) + bytes
}

/// The canonical encoding of one transaction: sender, recipient, amount bits.
pub open spec fn spec_tx_bytes(t: Transaction) -> Seq<u8> {
    spec_str_field(t.sender@) + spec_str_field(t.recipient@) + vstd::bytes::spec_u32_to_le_bytes(
        t.amount_bits,
    )
}

/// The concatenated canonical encodings of a transaction sequence, in order.
pub open spec fn spec_txs_bytes(ts: Seq<Transaction>) -> Seq<u8>
    decreases ts.len(),
{
    if ts.len() == 0 {
        Seq::empty()
    } else {
        spec_txs_bytes(ts.drop_last()) + spec_tx_bytes(ts.last())
    }
}

/// The canonical serialization of a block: every field in declaration order,
/// each variable-length part length-prefixed, so the encoding is a fixed,
/// stable function of the block's content.
pub open spec fn spec_block_bytes(b: Block) -> Seq<u8> {
    vstd::bytes::spec_u64_to_le_bytes(b.index) + spec_i64_bytes(b.timestamp)
        + vstd::bytes::spec_u64_to_le_bytes(b.transactions@.len() as u64) + spec_txs_bytes(
        b.transactions@,
    ) + vstd::bytes::spec_u64_to_le_bytes(b.proof) + vstd::bytes::spec_u64_to_le_bytes(
        b.previous_hash@.len() as u64,
    ) + b.previous_hash@
}

/// The digest that links a block to its successor: the SHA-256 digest of the
/// block's canonical serialization.
pub open spec fn spec_hash(b: Block) -> Seq<u8> {
    sha256_of(spec_block_bytes(b))
}

/// Appends the canonical encoding of one string field to `out`.
fn append_str_field(out: &mut Vec<u8>, s: &String)
    ensures
        final(out)@ == old(out)@ + spec_str_field(s@),
{
    let b: &[u8] = s.as_str().as_bytes();
    let len_le = vstd::bytes::u64_to_le_bytes(b.len() as u64);
    append_bytes(out, len_le.as_slice());
    append_bytes(out, b);
    proof {
        assert(out@ =~= old(out)@ + spec_str_field(s@));
    }
}

/// Appends the canonical encoding of one transaction to `out`.
fn append_tx_bytes(out: &mut Vec<u8>, t: &Transaction)
    ensures
        final(out)@ == old(out)@ + spec_tx_bytes(*t),
{
    append_str_field(out, &t.sender);
    append_str_field(out, &t.recipient);
    let amount_le = vstd::bytes::u32_to_le_bytes(t.amount_bits);
    append_bytes(out, amount_le.as_slice());
    proof {
        assert(out@ =~= old(out)@ + spec_tx_bytes(*t));
    }
}

/// The canonical serialization of a block, matching `spec_block_bytes`.
pub fn block_bytes(b: &Block) -> (r: Vec<u8>)
    ensures
        r@ == spec_block_bytes(*b),
{
    let mut out: Vec<u8> = Vec::new();
    let index_le = vstd::bytes::u64_to_le_bytes(b.index);
    append_bytes(&mut out, index_le.as_slice());
    let ts = i64_bytes(b.timestamp);
    append_bytes(&mut out, ts.as_slice());
    let count_le = vstd::bytes::u64_to_le_bytes(b.transactions.len() as u64);
    append_bytes(&mut out, count_le.as_slice());
    let ghost before_txs = out@;
    let n = b.transactions.len();
    for i in 0..n
        invariant
            n == b.transactions@.len(),
            out@ =~= before_txs + spec_txs_bytes(b.transactions@.take(i as int)),
    {
        append_tx_bytes(&mut out, &b.transactions[i]);
        proof {
            let taken = b.transactions@.take(i + 1);
            assert(taken.drop_last() =~= b.transactions@.take(i as int));
            assert(taken.last() == b.transactions@[i as int]);
            assert(spec_txs_bytes(taken) == spec_txs_bytes(taken.drop_last()) + spec_tx_bytes(
                taken.last(),
            ));
            assert(out@ =~= before_txs + spec_txs_bytes(taken));
        }
    }
    proof {
        assert(b.transactions@.take(n as int) =~= b.transactions@);
    }
    let proof_le = vstd::bytes::u64_to_le_bytes(b.proof);
    append_bytes(&mut out, proof_le.as_slice());
    let hash_bytes = b.previous_hash.bytes();
    let hash_len_le = vstd::bytes::u64_to_le_bytes(hash_bytes.len() as u64);
    append_bytes(&mut out, hash_len_le.as_slice());
    append_bytes(&mut out, hash_bytes.as_slice());
    proof {
        assert(out@ =~= spec_block_bytes(*b));
    }
    out
}

/// The digest of a block's canonical serialization.
pub fn block_hash(b: &Block) -> (h: BlockHash)
    ensures
        h@ == spec_hash(*b),
        h.wf(),
{
    let bytes = block_bytes(b);
    let digest = sha256(&bytes);
    BlockHash { bytes: digest }
}

/// The 128-bit proof-of-work guess: the previous proof in the high 64 bits,
/// the candidate in the low 64 bits.
pub open spec fn spec_guess(last_proof: u64, proof: u64) -> u128 {
    ((last_proof as u128) << 64) | (proof as u128)
}

/// Whether a candidate proof meets the fixed difficulty target: the digest of
/// the guess, rendered as lowercase hexadecimal, starts with two zero bytes.
pub open spec fn spec_valid_proof(last_proof: u64, proof: u64) -> bool {
    let d = sha256_of(spec_hex_digits(spec_guess(last_proof, proof)));
    d.len() >= 2 && d[0] == 0 && d[1] == 0
}

/// Whether block `i` of a chain is correctly linked to its predecessor: it
/// records the predecessor's digest and carries a proof valid against the
/// predecessor's proof.
pub open spec fn chain_link_ok(chain: Seq<Block>, i: int) -> bool {
    chain[i].previous_hash@ == spec_hash(chain[i - 1]) && spec_valid_proof(
        chain[i - 1].proof,
        chain[i].proof,
    )
}

/// Whether every adjacent pair of a chain is correctly linked. A chain of one
/// block, or none, is trivially valid; neither index monotonicity nor the
/// genesis content is checked here.
pub open spec fn spec_valid_chain(chain: Seq<Block>) -> bool {
    forall|i: int| 1 <= i < chain.len() ==> #[trigger] chain_link_ok(chain, i)
}

/// A valid chain stays valid when a block linked to its last block is pushed.
pub proof fn lemma_valid_chain_push(chain: Seq<Block>, nb: Block)
    requires
        spec_valid_chain(chain),
        chain.len() > 0,
        nb.previous_hash@ == spec_hash(chain.last()),
        spec_valid_proof(chain.last().proof, nb.proof),
    ensures
        spec_valid_chain(chain.push(nb)),
{
    let c2 = chain.push(nb);
    assert forall|i: int| 1 <= i < c2.len() implies #[trigger] chain_link_ok(c2, i) by {
        if i < chain.len() {
            assert(chain_link_ok(chain, i));
            assert(c2[i] == chain[i] && c2[i - 1] == chain[i - 1]);
        } else {
            assert(c2[i] == nb && c2[i - 1] == chain.last());
        }
    }
}

/// Whether two blocks carry the same content in every field.
pub open spec fn blocks_match(a: Block, b: Block) -> bool {
    a.index == b.index && a.timestamp == b.timestamp && txs_match(a.transactions@, b.transactions@)
        && a.proof == b.proof && a.previous_hash@ == b.previous_hash@
}

proof fn lemma_txs_bytes_match(a: Seq<Transaction>, b: Seq<Transaction>)
    requires
        txs_match(a, b),
    ensures
        spec_txs_bytes(a) == spec_txs_bytes(b),
    decreases a.len(),
{
    if a.len() > 0 {
        assert(tx_matches(a.last(), b.last()));
        assert forall|i: int| 0 <= i < a.len() - 1 implies tx_matches(
            a.drop_last()[i],
            b.drop_last()[i],
        ) by {
            assert(tx_matches(a[i], b[i]));
        }
        lemma_txs_bytes_match(a.drop_last(), b.drop_last());
    }
}

/// Law: hashing is deterministic — two blocks with the same content in every
/// field have the same canonical serialization, and so the same digest.
pub proof fn lemma_hash_deterministic(a: Block, b: Block)
    requires
        blocks_match(a, b),
    ensures
        spec_hash(a) == spec_hash(b),
{
    lemma_txs_bytes_match(a.transactions@, b.transactions@);
    assert(spec_block_bytes(a) == spec_block_bytes(b));
}

/// Law: a chain that is valid stops being valid when any single byte of any
/// non-genesis block's recorded predecessor digest is changed. `t` is block
/// `i` with byte `j` of its predecessor digest replaced by a different value.
pub proof fn lemma_tampered_link_invalid(chain: Seq<Block>, i: int, t: Block, j: int, b: u8)
    requires
        spec_valid_chain(chain),
        1 <= i < chain.len(),
        0 <= j < chain[i].previous_hash@.len(),
        b != chain[i].previous_hash@[j],
        t.previous_hash@ == chain[i].previous_hash@.update(j, b),
    ensures
        !spec_valid_chain(chain.update(i, t)),
{
    let c2 = chain.update(i, t);
    assert(chain_link_ok(chain, i));
    assert(c2[i].previous_hash@[j] == b);
    assert(c2[i].previous_hash@ != chain[i].previous_hash@);
    assert(c2[i - 1] == chain[i - 1]);
    assert(!chain_link_ok(c2, i));
}

/// The chains of a sequence of peer snapshots, as sequences of blocks.
pub open spec fn peer_views(peers: Seq<Vec<Block>>) -> Seq<Seq<Block>> {
    peers.map_values(|v: Vec<Block>| v@)
}

/// The outcome of reconciling a local chain against peer chains in order:
/// each peer chain that is strictly longer than the chain held at its turn,
/// and valid, replaces it; the flag records whether any replacement happened.
pub open spec fn spec_resolve(chain: Seq<Block>, peers: Seq<Seq<Block>>) -> (Seq<Block>, bool)
    decreases peers.len(),
{
    if peers.len() == 0 {
        (chain, false)
    } else {
        let wins = peers[0].len() > chain.len() && spec_valid_chain(peers[0]);
        let adopted = if wins {
            peers[0]
        } else {
            chain
        };
        let rest = spec_resolve(adopted, peers.drop_first());
        (rest.0, wins || rest.1)
    }
}

/// The ordered sequence of committed blocks, the pool of pending
/// transactions, and the registered peer addresses.
#[derive(Debug)]
pub struct Blockchain {
    pub chain: Vec<Block>,
    pub transactions: Vec<Transaction>,
    pub nodes: Vec<String>,
}

/// Relies on chrono::Utc::now and timestamp_millis: the current time in
/// milliseconds since the Unix epoch; nothing is assumed of the clock's
/// value.
#[verifier::external_body]
fn now_millis() -> i64 {
    chrono::Utc::now().timestamp_millis()
}

impl Blockchain {
    /// A well-formed ledger: never empty, and every block correctly linked to
    /// its predecessor.
    pub open spec fn wf(&self) -> bool {
        self.chain@.len() >= 1 && spec_valid_chain(self.chain@)
    }

    /// A fresh ledger holding only the genesis block: no transactions sealed,
    /// proof 100, an all-zero predecessor digest.
    pub fn new() -> (r: Blockchain)
        ensures
            r.wf(),
            r.chain@.len() == 1,
            r.chain@[0].index == 1,
            r.chain@[0].transactions@.len() == 0,
            r.chain@[0].proof == 100,
            r.chain@[0].previous_hash@ =~= Seq::new(32, |i: int| 0u8),
            r.transactions@.len() == 0,
            r.nodes@.len() == 0,
    {
        let mut ledger = Blockchain { chain: Vec::new(), transactions: Vec::new(), nodes: Vec::new() };
        let genesis_link = BlockHash::zero();
        ledger.new_block(&genesis_link, 100);
        ledger
    }

    /// Seals the whole pending pool into a new block stamped with the moment
    /// of sealing, linked to `previous_hash`, and carrying `proof`; the pool
    /// is drained in the same step.
    pub fn new_block(&mut self, previous_hash: &BlockHash, proof: u64)
        requires
            old(self).chain@.len() < u64::MAX,
        ensures
            final(self).chain@.len() == old(self).chain@.len() + 1,
            final(self).chain@.drop_last() =~= old(self).chain@,
            final(self).chain@.last().index == old(self).chain@.len() + 1,
            final(self).chain@.last().transactions@ == old(self).transactions@,
            final(self).chain@.last().proof == proof,
            final(self).chain@.last().previous_hash@ == previous_hash@,
            final(self).transactions@.len() == 0,
            final(self).nodes == old(self).nodes,
    {
        let mut trx: Vec<Transaction> = Vec::new();
        core::mem::swap(&mut trx, &mut self.transactions);
        let block = Block {
            index: self.chain.len() as u64 + 1,
            timestamp: now_millis(),
            transactions: trx,
            proof,
            previous_hash: previous_hash.clone(),
        };
        self.chain.push(block);
        proof {
            assert(self.chain@.drop_last() =~= old(self).chain@);
        }
    }

    /// Appends a transaction to the pending pool, in arrival order, with no
    /// validation or deduplication, and returns the advisory index the
    /// transaction is expected to land in: the last block's index plus one.
    pub fn new_transaction(&mut self, sender: &str, recipient: &str, amount_bits: u32) -> (idx:
        u64)
        requires
            old(self).chain@.len() >= 1,
            old(self).chain@.last().index < u64::MAX,
        ensures
            final(self).transactions@.len() == old(self).transactions@.len() + 1,
            final(self).transactions@.drop_last() =~= old(self).transactions@,
            final(self).transactions@.last().sender@ == sender@,
            final(self).transactions@.last().recipient@ == recipient@,
            final(self).transactions@.last().amount_bits == amount_bits,
            final(self).chain == old(self).chain,
            final(self).nodes == old(self).nodes,
            idx == old(self).chain@.last().index + 1,
    {
        self.transactions.push(Transaction::new(sender, recipient, amount_bits));
        proof {
            assert(self.transactions@.drop_last() =~= old(self).transactions@);
        }
        let last = self.chain.as_slice().last();
        match last {
            Some(block) => block.index + 1,
            None => {
                proof {
                    assert(false);
                }
                0
            },
        }
    }

    /// A mutable borrow of the last committed block, if any; `None` only on
    /// an empty chain.
    pub fn last_block_mut(&mut self) -> (r: Option<&mut Block>)
        ensures
            old(self).chain@.len() == 0 ==> r is None && final(self).chain@ == old(self).chain@,
            old(self).chain@.len() != 0 ==> r is Some && *r.unwrap() == old(self).chain@.last()
                && final(self).chain@ == old(self).chain@.update(
                old(self).chain@.len() - 1,
                *final(r.unwrap()),
            ),
            final(self).transactions == old(self).transactions,
            final(self).nodes == old(self).nodes,
    {
        self.chain.as_mut_slice().last_mut()
    }

    /// The last committed block, if any; `None` only on an empty chain.
    pub fn last_block(&self) -> (r: Option<&Block>)
        ensures
            self.chain@.len() == 0 ==> r is None,
            self.chain@.len() > 0 ==> (r matches Some(b) && *b == self.chain@.last()),
    {
        self.chain.as_slice().last()
    }

    /// The number of committed blocks.
    pub fn len(&self) -> (r: usize)
        ensures
            r == self.chain@.len(),
    {
        self.chain.len()
    }

    /// Registers a peer address; a bare string, not validated in any way.
    pub fn register_node(&mut self, node: &str)
        ensures
            final(self).nodes@.len() == old(self).nodes@.len() + 1,
            final(self).nodes@.drop_last() =~= old(self).nodes@,
            final(self).nodes@.last()@ == node@,
            final(self).chain == old(self).chain,
            final(self).transactions == old(self).transactions,
    {
        self.nodes.push(node.to_owned());
        proof {
            assert(self.nodes@.drop_last() =~= old(self).nodes@);
        }
    }

    /// The digest of a block's canonical serialization, exposed as a result
    /// for callers that treat hashing as fallible; it always succeeds.
    pub fn hash(block: &Block) -> (r: Result<BlockHash, BlockchainError>)
        ensures
            r matches Ok(h) && h@ == spec_hash(*block) && h.wf(),
    {
        Ok(block_hash(block))
    }

    /// Whether `proof` meets the difficulty target against `last_proof`.
    pub fn valid_proof(&self, last_proof: u64, proof: u64) -> (r: bool)
        ensures
            r == spec_valid_proof(last_proof, proof),
    {
        let guess: u128 = ((last_proof as u128) << 64) | (proof as u128);
        let rendered = hex_bytes(guess);
        let digest = sha256(&rendered);
        digest[0] == 0 && digest[1] == 0
    }

    /// Brute-force proof-of-work search: the smallest candidate meeting the
    /// difficulty target against `last_proof`, or `None` in the (practically
    /// unreachable) case that no 64-bit candidate meets it.
    pub fn proof_of_work(&self, last_proof: u64) -> (r: Option<u64>)
        ensures
            r matches Some(p) ==> spec_valid_proof(last_proof, p) && (forall|q: u64|
                q < p ==> !spec_valid_proof(last_proof, q)),
            r is None ==> forall|c: u64| !spec_valid_proof(last_proof, c),
    {
        let mut candidate: u64 = 0;
        loop
            invariant
                forall|q: u64| q < candidate ==> !spec_valid_proof(last_proof, q),
            decreases u64::MAX - candidate,
        {
            if self.valid_proof(last_proof, candidate) {
                return Some(candidate);
            }
            if candidate == u64::MAX {
                proof {
                    assert forall|c: u64| !spec_valid_proof(last_proof, c) by {
                        if c < u64::MAX {
                            assert(!spec_valid_proof(last_proof, c));
                        }
                    }
                }
                return None;
            }
            candidate = candidate + 1;
        }
    }

    /// Whether every adjacent pair of `chain` is correctly linked: each block
    /// must record its predecessor's digest and carry a proof valid against
    /// the predecessor's proof. Fails closed on the first broken link.
    pub fn valid_chain(&self, chain: &Vec<Block>) -> (r: bool)
        ensures
            r == spec_valid_chain(chain@),
    {
        let n = chain.len();
        if n == 0 {
            return true;
        }
        let mut i: usize = 1;
        while i < n
            invariant
                1 <= i <= n,
                n == chain@.len(),
                forall|j: int| 1 <= j < i ==> #[trigger] chain_link_ok(chain@, j),
            decreases n - i,
        {
            let h = block_hash(&chain[i - 1]);
            if !chain[i].previous_hash.equals(&h) {
                proof {
                    assert(!chain_link_ok(chain@, i as int));
                }
                return false;
            }
            if !self.valid_proof(chain[i - 1].proof, chain[i].proof) {
                proof {
                    assert(!chain_link_ok(chain@, i as int));
                }
                return false;
            }
            proof {
                assert(chain_link_ok(chain@, i as int));
            }
            i = i + 1;
        }
        true
    }

    /// Seals the pending pool into a new block: finds a proof against the
    /// last block's proof, links the new block to the last block's digest,
    /// and returns that digest. Fails with `NoGenesisBlock` on an empty
    /// chain, and with `ProofSearchExhausted` if no 64-bit candidate meets
    /// the difficulty target; in both cases the ledger is left unchanged.
    pub fn mine(&mut self) -> (r: Result<BlockHash, BlockchainError>)
        requires
            old(self).chain@.len() < u64::MAX,
        ensures
            old(self).chain@.len() == 0 ==> r == Err::<BlockHash, BlockchainError>(
                BlockchainError::NoGenesisBlock,
            ) && *final(self) == *old(self),
            r matches Ok(h) ==> {
                let pre = *old(self);
                let post = *final(self);
                &&& pre.chain@.len() > 0
                &&& h@ == spec_hash(pre.chain@.last())
                &&& post.chain@.len() == pre.chain@.len() + 1
                &&& post.chain@.drop_last() == pre.chain@
                &&& post.chain@.last().index == pre.chain@.len() + 1
                &&& post.chain@.last().transactions@ == pre.transactions@
                &&& spec_valid_proof(pre.chain@.last().proof, post.chain@.last().proof)
                &&& post.chain@.last().previous_hash@ == spec_hash(pre.chain@.last())
                &&& post.transactions@.len() == 0
                &&& post.nodes == pre.nodes
            },
            old(self).chain@.len() > 0 && (exists|c: u64|
                spec_valid_proof(old(self).chain@.last().proof, c)) ==> r is Ok,
            old(self).chain@.len() > 0 && !(exists|c: u64|
                spec_valid_proof(old(self).chain@.last().proof, c)) ==> r == Err::<
                BlockHash,
                BlockchainError,
            >(BlockchainError::ProofSearchExhausted) && *final(self) == *old(self),
            old(self).wf() ==> final(self).wf(),
    {
        if self.chain.len() == 0 {
            return Err(BlockchainError::NoGenesisBlock);
        }
        let last_proof: u64;
        let previous_hash: BlockHash;
        match self.chain.as_slice().last() {
            Some(last) => {
                last_proof = last.proof;
                previous_hash = block_hash(last);
            },
            None => {
                proof {
                    assert(false);
                }
                return Err(BlockchainError::NoGenesisBlock);
            },
        }
        let proof_found = self.proof_of_work(last_proof);
        match proof_found {
            Some(new_proof) => {
                let ghost pre_chain = self.chain@;
                self.new_block(&previous_hash, new_proof);
                proof {
                    assert(self.chain@.drop_last() =~= pre_chain);
                    assert(self.chain@ =~= pre_chain.push(self.chain@.last()));
                    if spec_valid_chain(pre_chain) {
                        lemma_valid_chain_push(pre_chain, self.chain@.last());
                    }
                }
                Ok(previous_hash)
            },
            None => Err(BlockchainError::ProofSearchExhausted),
        }
    }

    /// Reconciles the local chain against fetched peer snapshots, in their
    /// order: a peer chain strictly longer than the chain held at its turn,
    /// and valid, replaces it; shorter, equal-length or invalid ones are
    /// skipped. The pool and the peer list are untouched, the chain never
    /// shrinks, and the return value says whether any replacement happened.
    pub fn resolve_conflicts(&mut self, peer_chains: Vec<Vec<Block>>) -> (replaced: bool)
        ensures
            final(self).chain@ == spec_resolve(old(self).chain@, peer_views(peer_chains@)).0,
            replaced == spec_resolve(old(self).chain@, peer_views(peer_chains@)).1,
            final(self).chain@.len() >= old(self).chain@.len(),
            !replaced ==> final(self).chain@ == old(self).chain@,
            final(self).transactions == old(self).transactions,
            final(self).nodes == old(self).nodes,
            old(self).wf() ==> final(self).wf(),
    {
        let ghost all_peers = peer_views(peer_chains@);
        let mut rest = peer_chains;
        let mut replaced = false;
        loop
            invariant
                self.transactions == old(self).transactions,
                self.nodes == old(self).nodes,
                self.chain@.len() >= old(self).chain@.len(),
                spec_valid_chain(old(self).chain@) ==> spec_valid_chain(self.chain@),
                !replaced ==> self.chain@ == old(self).chain@,
                spec_resolve(old(self).chain@, all_peers) == ({
                    let r = spec_resolve(self.chain@, peer_views(rest@));
                    (r.0, replaced || r.1)
                }),
            ensures
                rest@.len() == 0,
            decreases rest@.len(),
        {
            if rest.len() == 0 {
                break;
            }
            let ghost pre_chain = self.chain@;
            let ghost pre_rest = peer_views(rest@);
            let peer = rest.remove(0);
            proof {
                assert(peer_views(rest@) =~= pre_rest.drop_first());
                assert(pre_rest[0] == peer@);
            }
            let wins = peer.len() > self.chain.len() && self.valid_chain(&peer);
            if wins {
                self.chain = peer;
                replaced = true;
            }
            proof {
                let step = spec_resolve(pre_chain, pre_rest);
                assert(step == {
                    let r = spec_resolve(self.chain@, peer_views(rest@));
                    ((r.0, (peer@.len() > pre_chain.len() && spec_valid_chain(peer@)) || r.1))
                });
            }
        }
        proof {
            assert(peer_views(rest@) =~= Seq::<Seq<Block>>::empty());
            assert(spec_resolve(self.chain@, peer_views(rest@)) == (self.chain@, false));
        }
        replaced
    }
}

} // verus!
