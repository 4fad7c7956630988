//! Blocks of documents and the hash-linked chain that holds them.

use crate::digest::fingerprint_of_text;
use crate::digest::fingerprint_text;
use crate::merkle_tree::merkle_root;
use crate::merkle_tree::proof_path;
use crate::merkle_tree::MerkleTree;
use crate::models::Document;
use crate::models::DocumentView;
use crate::models::VerificationResult;
use crate::models::VerificationResultView;
use crate::platform::utc_timestamp;
use crate::text::append_decimal;
use crate::text::append_signed_decimal;
use crate::text::decimal;
use crate::text::signed_decimal;
use crate::text::text_equal;
use crate::text::texts;
use vstd::prelude::*;

verus! {

/// What a list of documents records, in order.
pub open spec fn doc_views(documents: Seq<Document>) -> Seq<DocumentView> {
    Seq::new(documents.len(), |i: int| documents[i]@)
}

/// The content hashes of a list of documents, in order.
pub open spec fn doc_hashes(documents: Seq<DocumentView>) -> Seq<Seq<char>> {
    Seq::new(documents.len(), |i: int| documents[i].hash)
}

/// The digest that binds a block: the fingerprint of its index and its
/// timestamp in decimal, its predecessor's hash and its Merkle root, written
/// one after the other with nothing in between.
pub open spec fn block_digest(
    index: usize,
    timestamp: i64,
    previous_hash: Seq<char>,
    merkle_root: Seq<char>,
) -> Seq<char> {
    fingerprint_text(
        decimal(index as nat) + signed_decimal(timestamp as int) + previous_hash + merkle_root,
    )
}

/// A batch of documents under one Merkle root, bound to its place in the
/// chain by a hash over index, timestamp, predecessor and root.
#[derive(Debug)]
pub struct Block {
    pub index: usize,
    pub timestamp: i64,
    pub previous_hash: String,
    pub merkle_root: String,
    pub documents: Vec<Document>,
    pub hash: String,
}

/// What a block records, as plain values.
pub struct BlockView {
    pub index: usize,
    /// Creation time, in seconds since the Unix epoch.
    pub timestamp: i64,
    pub previous_hash: Seq<char>,
    pub merkle_root: Seq<char>,
    pub documents: Seq<DocumentView>,
    pub hash: Seq<char>,
}

impl BlockView {
    /// The stored hash is the digest of the four binding fields.
    pub open spec fn sealed(self) -> bool {
        self.hash == block_digest(self.index, self.timestamp, self.previous_hash, self.merkle_root)
    }

    /// The block that `documents` make at position `index` after a block
    /// with hash `previous_hash`, created at `timestamp`.
    pub open spec fn assemble(
        index: usize,
        timestamp: i64,
        previous_hash: Seq<char>,
        documents: Seq<DocumentView>,
    ) -> BlockView {
        let root = merkle_root(doc_hashes(documents));
        BlockView {
            index,
            timestamp,
            previous_hash,
            merkle_root: root,
            documents,
            hash: block_digest(index, timestamp, previous_hash, root),
        }
    }
}

impl View for Block {
    type V = BlockView;

    open spec fn view(&self) -> BlockView {
        BlockView {
            index: self.index,
            timestamp: self.timestamp,
            previous_hash: self.previous_hash@,
            merkle_root: self.merkle_root@,
            documents: doc_views(self.documents@),
            hash: self.hash@,
        }
    }
}

/// An independent copy of a list of documents.
pub fn copy_documents(documents: &Vec<Document>) -> (copy: Vec<Document>)
    ensures
        copy@ == documents@,
{
    let mut copy: Vec<Document> = Vec::new();
    let mut i: usize = 0;
    while i < documents.len()
        invariant
            i <= documents.len(),
            copy@ == documents@.take(i as int),
        decreases documents.len() - i,
    {
        copy.push(documents[i].clone());
        i += 1;
    }
    copy
}

/// The content hashes of `documents`, in order.
pub fn hashes_of(documents: &Vec<Document>) -> (hashes: Vec<String>)
    ensures
        texts(hashes@) == doc_hashes(doc_views(documents@)),
{
    let mut hashes: Vec<String> = Vec::new();
    let mut i: usize = 0;
    while i < documents.len()
        invariant
            i <= documents.len(),
            hashes.len() == i,
            forall|j: int| 0 <= j < i ==> (#[trigger] hashes@[j])@ == documents@[j].hash@,
        decreases documents.len() - i,
    {
        hashes.push(documents[i].hash.clone());
        i += 1;
    }
    hashes
}

impl Clone for Block {
    fn clone(&self) -> (copy: Self)
        ensures
            copy@ == self@,
    {
        Block {
            index: self.index,
            timestamp: self.timestamp,
            previous_hash: self.previous_hash.clone(),
            merkle_root: self.merkle_root.clone(),
            documents: copy_documents(&self.documents),
            hash: self.hash.clone(),
        }
    }
}

impl Block {
    /// Computes the digest that binds a block to its four fields.
    pub fn calculate_hash(
        index: usize,
        timestamp: i64,
        previous_hash: &str,
        merkle_root: &str,
    ) -> (hash: String)
        ensures
            hash@ == block_digest(index, timestamp, previous_hash@, merkle_root@),
    {
        let mut input = String::new();
        append_decimal(&mut input, index as u64);
        append_signed_decimal(&mut input, timestamp);
        input.append(previous_hash);
        input.append(merkle_root);
        assert(input@ =~= decimal(index as nat) + signed_decimal(timestamp as int) + previous_hash@
            + merkle_root@);
        fingerprint_of_text(input.as_str())
    }

    /// Assembles the block that `documents` make at position `index`, after
    /// a block with hash `previous_hash`, as created at `timestamp`.
    pub fn at_time(
        index: usize,
        previous_hash: String,
        documents: Vec<Document>,
        timestamp: i64,
    ) -> (block: Self)
        ensures
            block@ == BlockView::assemble(index, timestamp, previous_hash@, doc_views(documents@)),
            block.documents == documents,
    {
        let hashes = hashes_of(&documents);
        let merkle_tree = MerkleTree::new(hashes);
        let merkle_root = merkle_tree.root().clone();
        let hash = Self::calculate_hash(index, timestamp, previous_hash.as_str(), merkle_root.as_str());
        Block { index, timestamp, previous_hash, merkle_root, documents, hash }
    }

    /// Assembles the block that `documents` make at position `index`, after
    /// a block with hash `previous_hash`, created now. The timestamp is
    /// whatever the clock reads; everything else is fixed by the arguments.
    pub fn new(index: usize, previous_hash: String, documents: Vec<Document>) -> (block: Self)
        ensures
            block@ == BlockView::assemble(
                index,
                block@.timestamp,
                previous_hash@,
                doc_views(documents@),
            ),
            block.documents == documents,
    {
        let timestamp = utc_timestamp();
        Self::at_time(index, previous_hash, documents, timestamp)
    }
}

/// The sentinel that stands for the predecessor of the first block.
pub open spec fn genesis_marker() -> Seq<char> {
    seq!['0']
}

/// Block `i` of `chain` is sealed and names the hash of block `i - 1`.
pub open spec fn link_ok(chain: Seq<BlockView>, i: int) -> bool {
    &&& chain[i].sealed()
    &&& chain[i].previous_hash == chain[i - 1].hash
}

/// Every block after the first is sealed and linked to the one before it.
pub open spec fn chain_valid(chain: Seq<BlockView>) -> bool {
    forall|i: int| 1 <= i < chain.len() ==> link_ok(chain, i)
}

/// Whether one of the documents of `block` has the content hash `hash`.
pub open spec fn block_holds(block: BlockView, hash: Seq<char>) -> bool {
    doc_hashes(block.documents).contains(hash)
}

/// For each block of `chain` in order, whether it holds `hash`.
pub open spec fn holders(chain: Seq<BlockView>, hash: Seq<char>) -> Seq<bool> {
    Seq::new(chain.len(), |i: int| block_holds(chain[i], hash))
}

/// The position of the oldest block of `chain` that holds `hash`, if any
/// block does.
pub open spec fn first_holder(chain: Seq<BlockView>, hash: Seq<char>) -> Option<int> {
    holders(chain, hash).index_of_first(true)
}

/// Where a committed document with content hash `hash` is found: the index
/// recorded in the oldest block that holds it, with the inclusion proof of
/// its first occurrence among that block's documents. `None` when no block
/// holds it.
pub open spec fn inclusion(chain: Seq<BlockView>, hash: Seq<char>) -> Option<
    (usize, Seq<Seq<char>>),
> {
    match first_holder(chain, hash) {
        Some(b) => {
            let leaves = doc_hashes(chain[b].documents);
            Some((chain[b].index, proof_path(leaves, leaves.index_of_first(hash)->0)))
        },
        None => None,
    }
}

/// The answer to a lookup of `hash` in `chain`: where it is found, when
/// the block at the recorded index was created, and the inclusion proof.
pub open spec fn verification(chain: Seq<BlockView>, hash: Seq<char>) -> VerificationResultView {
    match inclusion(chain, hash) {
        Some((index, path)) => VerificationResultView::found(
            index,
            chain[index as int].timestamp as u64,
            path,
        ),
        None => VerificationResultView::missing(),
    }
}

/// The ledger: the chain of committed blocks and the queue of documents
/// that wait for the next commit.
#[derive(Debug)]
pub struct Blockchain {
    pub chain: Vec<Block>,
    pub pending_documents: Vec<Document>,
}

/// What a ledger holds, as plain values.
pub struct BlockchainView {
    /// The committed blocks, oldest first.
    pub chain: Seq<BlockView>,
    /// The documents that wait for the next commit, in order of arrival.
    pub pending_documents: Seq<DocumentView>,
}

/// What a list of blocks records, in order.
pub open spec fn block_views(blocks: Seq<Block>) -> Seq<BlockView> {
    Seq::new(blocks.len(), |i: int| blocks[i]@)
}

impl View for Blockchain {
    type V = BlockchainView;

    open spec fn view(&self) -> BlockchainView {
        BlockchainView {
            chain: block_views(self.chain@),
            pending_documents: doc_views(self.pending_documents@),
        }
    }
}

impl BlockchainView {
    /// The ledger at its start: one block without documents, created at
    /// `timestamp`, with the sentinel for a predecessor; nothing pending.
    pub open spec fn genesis(timestamp: i64) -> Self {
        BlockchainView {
            chain: seq![BlockView::assemble(0, timestamp, genesis_marker(), Seq::empty())],
            pending_documents: Seq::empty(),
        }
    }

    /// The ledger after `document` has joined the queue.
    pub open spec fn enqueue(self, document: DocumentView) -> Self {
        BlockchainView {
            chain: self.chain,
            pending_documents: self.pending_documents.push(document),
        }
    }

    /// The block that a commit at `timestamp` appends: all pending
    /// documents, numbered and linked after the last block.
    pub open spec fn next_block(self, timestamp: i64) -> BlockView {
        BlockView::assemble(
            (self.chain.last().index + 1) as usize,
            timestamp,
            self.chain.last().hash,
            self.pending_documents,
        )
    }

    /// The ledger after a commit at `timestamp`: unchanged where nothing is
    /// pending, and otherwise one block longer with an empty queue.
    pub open spec fn commit(self, timestamp: i64) -> Self {
        if self.pending_documents.len() == 0 {
            self
        } else {
            BlockchainView {
                chain: self.chain.push(self.next_block(timestamp)),
                pending_documents: Seq::empty(),
            }
        }
    }

    /// The ledger's invariant: the chain starts with a sealed first block
    /// that has no documents and the sentinel for a predecessor, each block
    /// records its own position, and every later block is sealed and linked.
    pub open spec fn wf(self) -> bool {
        &&& self.chain.len() >= 1
        &&& self.chain[0].previous_hash == genesis_marker()
        &&& self.chain[0].documents.len() == 0
        &&& self.chain[0].sealed()
        &&& forall|i: int| 0 <= i < self.chain.len() ==> (#[trigger] self.chain[i]).index == i
        &&& chain_valid(self.chain)
    }
}

impl Blockchain {
    /// A ledger that holds only its first block, created now.
    pub fn new() -> (ledger: Self)
        ensures
            ledger@ == BlockchainView::genesis(ledger@.chain[0].timestamp),
            ledger@.chain.len() == 1,
            ledger@.chain[0].previous_hash == genesis_marker(),
            ledger@.chain[0].documents.len() == 0,
            ledger@.pending_documents.len() == 0,
            chain_valid(ledger@.chain),
            ledger@.wf(),
    {
        proof {
            reveal_strlit("0");
        }
        let mut marker = String::new();
        marker.append("0");
        assert(marker@ =~= genesis_marker());
        let documents: Vec<Document> = Vec::new();
        assert(doc_views(documents@) =~= Seq::empty());
        let genesis_block = Block::new(0, marker, documents);
        let mut chain: Vec<Block> = Vec::new();
        chain.push(genesis_block);
        let ledger = Blockchain { chain, pending_documents: Vec::new() };
        assert(ledger@.chain =~= BlockchainView::genesis(ledger@.chain[0].timestamp).chain);
        ledger
    }

    /// Queues `document` for the next commit. The chain is left alone.
    pub fn add_document(&mut self, document: Document)
        ensures
            final(self)@ == old(self)@.enqueue(document@),
            final(self).chain == old(self).chain,
            old(self)@.wf() ==> final(self)@.wf(),
    {
        self.pending_documents.push(document);
        assert(doc_views(self.pending_documents@) =~= doc_views(old(self).pending_documents@).push(
            document@,
        ));
    }

    /// Commits every pending document, in order, as one new block after the
    /// last one, and returns a copy of that block. With nothing pending it
    /// returns `None` and changes nothing.
    pub fn mine_block(&mut self) -> (mined: Option<Block>)
        requires
            old(self)@.chain.len() >= 1,
            old(self)@.chain.last().index < usize::MAX,
        ensures
            match mined {
                None => old(self)@.pending_documents.len() == 0 && *final(self) == *old(self),
                Some(block) => {
                    &&& old(self)@.pending_documents.len() > 0
                    &&& block@ == old(self)@.next_block(block@.timestamp)
                    &&& final(self)@ == old(self)@.commit(block@.timestamp)
                },
            },
            chain_valid(final(self)@.chain) == chain_valid(old(self)@.chain),
            old(self)@.wf() ==> final(self)@.wf(),
    {
        if self.pending_documents.len() == 0 {
            return None;
        }
        let mut documents: Vec<Document> = Vec::new();
        std::mem::swap(&mut self.pending_documents, &mut documents);
        let previous_block = &self.chain[self.chain.len() - 1];
        let new_block = Block::new(
            previous_block.index + 1,
            previous_block.hash.clone(),
            documents,
        );
        self.chain.push(new_block.clone());
        proof {
            let before = old(self)@.chain;
            let after = self@.chain;
            assert(after =~= before.push(new_block@));
            assert(doc_views(self.pending_documents@) =~= Seq::empty());
            assert(chain_valid(before) ==> chain_valid(after)) by {
                if chain_valid(before) {
                    assert forall|i: int| 1 <= i < after.len() implies link_ok(after, i) by {
                        if i < before.len() {
                            assert(link_ok(before, i));
                        }
                    }
                }
            }
            assert(chain_valid(after) ==> chain_valid(before)) by {
                if chain_valid(after) {
                    assert forall|i: int| 1 <= i < before.len() implies link_ok(before, i) by {
                        assert(link_ok(after, i));
                    }
                }
            }
        }
        Some(new_block)
    }

    /// Whether every block after the first is sealed and linked to the one
    /// before it.
    pub fn is_valid(&self) -> (valid: bool)
        ensures
            valid == chain_valid(self@.chain),
    {
        let mut i: usize = 1;
        while i < self.chain.len()
            invariant
                1 <= i,
                forall|k: int| 1 <= k < i && k < self@.chain.len() ==> link_ok(self@.chain, k),
            decreases self.chain.len() - i,
        {
            let current = &self.chain[i];
            let previous = &self.chain[i - 1];
            let calculated_hash = Block::calculate_hash(
                current.index,
                current.timestamp,
                current.previous_hash.as_str(),
                current.merkle_root.as_str(),
            );
            if !text_equal(calculated_hash.as_str(), current.hash.as_str()) {
                assert(!link_ok(self@.chain, i as int));
                return false;
            }
            if !text_equal(current.previous_hash.as_str(), previous.hash.as_str()) {
                assert(!link_ok(self@.chain, i as int));
                return false;
            }
            i += 1;
        }
        true
    }

    /// Looks for a committed document with content hash `document_hash`,
    /// oldest block first. Where one is found, returns the index recorded in
    /// its block and the inclusion proof of the hash among that block's
    /// documents. Pending documents are not looked at.
    pub fn verify_document(&self, document_hash: &str) -> (found: Option<(usize, Vec<String>)>)
        ensures
            match (inclusion(self@.chain, document_hash@), found) {
                (Some((index, path)), Some((block_index, proof))) => block_index == index && texts(
                    proof@,
                ) == path,
                (None, None) => true,
                _ => false,
            },
            found is Some <==> exists|b: int|
                0 <= b < self@.chain.len() && block_holds(#[trigger] self@.chain[b], document_hash@),
    {
        let ghost held = holders(self@.chain, document_hash@);
        let mut b: usize = 0;
        while b < self.chain.len()
            invariant
                b <= self.chain.len(),
                held == holders(self@.chain, document_hash@),
                forall|k: int| 0 <= k < b ==> !block_holds(#[trigger] self@.chain[k], document_hash@),
            decreases self.chain.len() - b,
        {
            let block = &self.chain[b];
            let ghost leaves = doc_hashes(block@.documents);
            let mut d: usize = 0;
            while d < block.documents.len()
                invariant
                    b < self.chain.len(),
                    block == &self.chain@[b as int],
                    leaves == doc_hashes(block@.documents),
                    held == holders(self@.chain, document_hash@),
                    d <= block.documents.len(),
                    forall|k: int| 0 <= k < b ==> !block_holds(#[trigger] self@.chain[k], document_hash@),
                    forall|j: int| 0 <= j < d ==> leaves[j] != document_hash@,
                decreases block.documents.len() - d,
            {
                if text_equal(block.documents[d].hash.as_str(), document_hash) {
                    let hashes = hashes_of(&block.documents);
                    let merkle_tree = MerkleTree::new(hashes);
                    let proof = match merkle_tree.get_proof(document_hash) {
                        Some(proof) => proof,
                        None => Vec::new(),
                    };
                    proof {
                        assert(leaves[d as int] == document_hash@);
                        assert(held[b as int]);
                        held.index_of_first_ensures(true);
                        assert(held.index_of_first(true) == Some(b as int));
                        leaves.index_of_first_ensures(document_hash@);
                    }
                    return Some((block.index, proof));
                }
                d += 1;
            }
            b += 1;
        }
        proof {
            held.index_of_first_ensures(true);
        }
        None
    }

    /// A copy of everything the ledger holds, for reporting: the chain, the
    /// queue, and whether the chain is valid.
    pub fn snapshot(&self) -> (snap: (Vec<Block>, Vec<Document>, bool))
        ensures
            ({
                let (chain, pending, valid) = snap;
                &&& block_views(chain@) == self@.chain
                &&& doc_views(pending@) == self@.pending_documents
                &&& valid == chain_valid(self@.chain)
            }),
    {
        let mut chain: Vec<Block> = Vec::new();
        let mut i: usize = 0;
        while i < self.chain.len()
            invariant
                i <= self.chain.len(),
                chain.len() == i,
                forall|k: int| 0 <= k < i ==> (#[trigger] chain@[k])@ == self.chain@[k]@,
            decreases self.chain.len() - i,
        {
            chain.push(self.chain[i].clone());
            i += 1;
        }
        let pending = copy_documents(&self.pending_documents);
        let valid = self.is_valid();
        (chain, pending, valid)
    }

    /// Answers a lookup of `document_hash`: whether a committed document has
    /// it and, if so, the index its block records, the creation time of the
    /// block at that index, and the inclusion proof.
    pub fn verification_result(&self, document_hash: &str) -> (result: VerificationResult)
        requires
            match first_holder(self@.chain, document_hash@) {
                Some(b) => self@.chain[b].index < self@.chain.len(),
                None => true,
            },
        ensures
            result@ == verification(self@.chain, document_hash@),
    {
        match self.verify_document(document_hash) {
            Some((block_index, merkle_proof)) => {
                let block = &self.chain[block_index];
                VerificationResult::found(
                    block_index,
                    #[verifier::truncate]
                    (block.timestamp as u64),
                    merkle_proof,
                )
            },
            None => VerificationResult::missing(),
        }
    }
}

/// A chain of at most one block has nothing to check and is valid.
pub proof fn lemma_lone_block_is_valid(chain: Seq<BlockView>)
    requires
        chain.len() <= 1,
    ensures
        chain_valid(chain),
{
}

/// In a ledger that keeps its invariant every block after the first names
/// the hash of the block before it, and the chain is valid.
pub proof fn lemma_wf_ledger_is_linked(ledger: BlockchainView)
    requires
        ledger.wf(),
    ensures
        forall|i: int|
            1 <= i < ledger.chain.len() ==> (#[trigger] ledger.chain[i]).previous_hash
                == ledger.chain[i - 1].hash,
        chain_valid(ledger.chain),
{
    assert forall|i: int| 1 <= i < ledger.chain.len() implies (#[trigger] ledger.chain[i]).previous_hash
        == ledger.chain[i - 1].hash by {
        assert(link_ok(ledger.chain, i));
    }
}

/// The ledger keeps its invariant through every operation: it holds at the
/// start, and queueing a document or committing the queue preserves it.
pub proof fn lemma_operations_keep_wf(ledger: BlockchainView, document: DocumentView, timestamp: i64)
    requires
        ledger.wf(),
        ledger.chain.len() < usize::MAX,
    ensures
        BlockchainView::genesis(timestamp).wf(),
        ledger.enqueue(document).wf(),
        ledger.commit(timestamp).wf(),
{
    if ledger.pending_documents.len() > 0 {
        let after = ledger.commit(timestamp).chain;
        assert forall|i: int| 1 <= i < after.len() implies link_ok(after, i) by {
            if i < ledger.chain.len() {
                assert(link_ok(ledger.chain, i));
            }
        }
    }
}

/// A commit drains the queue: with documents pending, the ledger grows by
/// one block that holds exactly the pending documents in their order, and
/// the queue is empty afterwards. So two documents queued on an empty queue
/// and then committed make up the new block, first before second.
pub proof fn lemma_commit_drains_queue(
    ledger: BlockchainView,
    first: DocumentView,
    second: DocumentView,
    timestamp: i64,
)
    ensures
        ledger.pending_documents.len() > 0 ==> {
            &&& ledger.commit(timestamp).pending_documents.len() == 0
            &&& ledger.commit(timestamp).chain.len() == ledger.chain.len() + 1
            &&& ledger.commit(timestamp).chain.last().documents == ledger.pending_documents
        },
        ledger.pending_documents.len() == 0 ==> {
            &&& ledger.enqueue(first).enqueue(second).commit(timestamp).pending_documents.len() == 0
            &&& ledger.enqueue(first).enqueue(second).commit(timestamp).chain.last().documents
                == seq![first, second]
        },
{
}

/// A commit with nothing pending is a no-op: the ledger stays as it is.
pub proof fn lemma_empty_commit_is_no_op(ledger: BlockchainView, timestamp: i64)
    requires
        ledger.pending_documents.len() == 0,
    ensures
        ledger.commit(timestamp) == ledger,
{
}

/// The ledger reached from the start at `genesis_time` by committing
/// `batches` one after the other, batch `k` at time `times[k]`.
pub open spec fn after_commits(
    genesis_time: i64,
    batches: Seq<Seq<DocumentView>>,
    times: Seq<i64>,
) -> BlockchainView
    decreases batches.len(),
{
    if batches.len() == 0 {
        BlockchainView::genesis(genesis_time)
    } else {
        let before = after_commits(genesis_time, batches.drop_last(), times.drop_last());
        (BlockchainView { chain: before.chain, pending_documents: batches.last() }).commit(
            times.last(),
        )
    }
}

/// Chain-link integrity: however many batches are committed one after the
/// other, the ledger keeps its invariant, so each block after the first
/// names the hash of the block before it and the chain is valid.
pub proof fn lemma_sequential_commits_stay_linked(
    genesis_time: i64,
    batches: Seq<Seq<DocumentView>>,
    times: Seq<i64>,
)
    requires
        batches.len() == times.len(),
        batches.len() < usize::MAX,
    ensures
        after_commits(genesis_time, batches, times).wf(),
        after_commits(genesis_time, batches, times).chain.len() <= batches.len() + 1,
        chain_valid(after_commits(genesis_time, batches, times).chain),
        forall|i: int|
            1 <= i < after_commits(genesis_time, batches, times).chain.len() ==> (
            #[trigger] after_commits(genesis_time, batches, times).chain[i]).previous_hash
                == after_commits(genesis_time, batches, times).chain[i - 1].hash,
    decreases batches.len(),
{
    let ledger = after_commits(genesis_time, batches, times);
    if batches.len() > 0 {
        lemma_sequential_commits_stay_linked(genesis_time, batches.drop_last(), times.drop_last());
        let before = after_commits(genesis_time, batches.drop_last(), times.drop_last());
        let loaded = BlockchainView { chain: before.chain, pending_documents: batches.last() };
        lemma_operations_keep_wf(loaded, batches.last()[0], times.last());
    }
    lemma_wf_ledger_is_linked(ledger);
}

/// Tampering with a committed block is detected. Replace block `i` of a
/// valid chain, other than the first, by `forged`. The chain is no longer
/// valid if `forged` names another predecessor; or carries another hash,
/// unless it is the last block and was sealed again; or keeps the hash while
/// its binding fields now have another digest.
pub proof fn lemma_tampering_is_detected(chain: Seq<BlockView>, i: int, forged: BlockView)
    requires
        chain_valid(chain),
        1 <= i < chain.len(),
        ({
            ||| forged.previous_hash != chain[i].previous_hash
            ||| forged.hash != chain[i].hash && (i + 1 < chain.len() || !forged.sealed())
            ||| forged.hash == chain[i].hash && block_digest(
                forged.index,
                forged.timestamp,
                forged.previous_hash,
                forged.merkle_root,
            ) != block_digest(
                chain[i].index,
                chain[i].timestamp,
                chain[i].previous_hash,
                chain[i].merkle_root,
            )
        }),
    ensures
        !chain_valid(chain.update(i, forged)),
{
    let tampered = chain.update(i, forged);
    assert(link_ok(chain, i));
    if forged.previous_hash != chain[i].previous_hash {
        assert(!link_ok(tampered, i));
    } else if forged.hash != chain[i].hash && i + 1 < chain.len() {
        assert(link_ok(chain, i + 1));
        assert(!link_ok(tampered, i + 1));
    } else {
        assert(!link_ok(tampered, i));
    }
}

/// A chain that is not valid stays so whatever is appended to it.
pub proof fn lemma_broken_chain_stays_broken(chain: Seq<BlockView>, more: Seq<BlockView>)
    requires
        !chain_valid(chain),
    ensures
        !chain_valid(chain + more),
{
    let i = choose|i: int| 1 <= i < chain.len() && !link_ok(chain, i);
    assert(!link_ok(chain + more, i));
}

/// A hash that no committed block holds is not found, whatever documents
/// are pending.
pub proof fn lemma_pending_is_not_found(ledger: BlockchainView, hash: Seq<char>)
    requires
        forall|b: int| 0 <= b < ledger.chain.len() ==> !block_holds(#[trigger] ledger.chain[b], hash),
    ensures
        inclusion(ledger.chain, hash) is None,
        verification(ledger.chain, hash) == VerificationResultView::missing(),
{
    holders(ledger.chain, hash).index_of_first_ensures(true);
}

/// A ledger that keeps its invariant can always take the next commit: the
/// index its last block records is its position, which is below the largest
/// index there is.
pub proof fn lemma_wf_ledger_can_commit(ledger: &Blockchain)
    requires
        ledger@.wf(),
    ensures
        ledger@.chain.len() >= 1,
        ledger@.chain.last().index < usize::MAX,
{
    assert(ledger@.chain.len() == ledger.chain.len());
}

/// A ledger that keeps its invariant can answer every lookup: the index
/// recorded in a block that holds the hash is that block's position.
pub proof fn lemma_wf_ledger_can_answer(ledger: BlockchainView, hash: Seq<char>)
    requires
        ledger.wf(),
    ensures
        match first_holder(ledger.chain, hash) {
            Some(b) => 0 <= b < ledger.chain.len() && ledger.chain[b].index == b,
            None => true,
        },
{
    holders(ledger.chain, hash).index_of_first_ensures(true);
}

} // verus!
