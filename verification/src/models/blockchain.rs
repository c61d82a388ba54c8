//! The chain of blocks: its construction, growth and validation.

use crate::clock::{now_millis, timestamp_from_millis};
use crate::encoding::{has_leading_zeros, starts_with_zeros};
use crate::digest::sha256_collides;
use crate::models::block::{lemma_changed_block_is_unsealed, Block, BlockView};
use vstd::prelude::*;

verus! {

/// Why a block is refused or a chain is found broken.
#[derive(Debug, Clone, Copy, PartialEq, Eq)]
pub enum ChainError {
    /// The block does not continue the chain: its index is not the chain's
    /// length, or its previous hash is not the hash of the block before it.
    InvalidLinkage,
    /// The block's hash does not meet the difficulty; on appending, also that
    /// it is not the hash of the block's content.
    InvalidProof,
    /// The hash stored in a block of the chain is not the hash of its content.
    HashMismatch,
}

/// An append-only sequence of mined blocks and the difficulty they were mined
/// at.
#[derive(Debug)]
pub struct Blockchain {
    /// Number of leading zeros a block hash must have.
    pub difficulty: usize,
    /// The blocks, genesis first.
    pub chain: Vec<Block>,
}

/// The mathematical content of a [`Blockchain`].
pub ghost struct ChainView {
    pub difficulty: nat,
    pub blocks: Seq<BlockView>,
}

impl View for Blockchain {
    type V = ChainView;

    open spec fn view(&self) -> ChainView {
        ChainView {
            difficulty: self.difficulty as nat,
            blocks: self.chain@.map_values(|b: Block| b@),
        }
    }
}

impl Clone for Blockchain {
    fn clone(&self) -> (copy: Blockchain)
        ensures
            copy@ == self@,
    {
        let mut chain: Vec<Block> = Vec::new();
        let mut i: usize = 0;
        while i < self.chain.len()
            invariant
                i <= self.chain@.len(),
                chain@.len() == i,
                forall|k: int| 0 <= k < i ==> chain@[k]@ == self.chain@[k]@,
            decreases self.chain@.len() - i,
        {
            chain.push(self.chain[i].clone());
            i += 1;
        }
        let copy = Blockchain { difficulty: self.difficulty, chain };
        assert(copy@.blocks =~= self@.blocks);
        copy
    }
}

impl ChainView {
    /// The hash the next block must name as its predecessor's: the hash of the
    /// last block, or the empty text where there is none.
    pub open spec fn tail_hash(self) -> Seq<char> {
        if self.blocks.len() == 0 {
            Seq::empty()
        } else {
            self.blocks.last().hash
        }
    }

    /// The unmined block that would continue this chain.
    pub open spec fn candidate(self, timestamp: u64) -> BlockView {
        BlockView::unmined(self.blocks.len() as u64, timestamp, self.tail_hash())
    }

    /// Whether block `i` names the hash of block `i - 1` as its predecessor's.
    /// The genesis block has no predecessor to name.
    pub open spec fn linked(self, i: int) -> bool {
        i > 0 ==> self.blocks[i].previous_hash == self.blocks[i - 1].hash
    }

    /// What is wrong with block `i`, if anything: first its link, then its
    /// stored hash, then the difficulty.
    pub open spec fn fault_at(self, i: int) -> Option<ChainError> {
        if !self.linked(i) {
            Some(ChainError::InvalidLinkage)
        } else if self.blocks[i].hash != self.blocks[i].content_hash() {
            Some(ChainError::HashMismatch)
        } else if !has_leading_zeros(self.blocks[i].hash, self.difficulty) {
            Some(ChainError::InvalidProof)
        } else {
            None
        }
    }

    /// Chain integrity: every block but the first is linked to the one before
    /// it, and every block stores the hash of its content, which meets the
    /// difficulty.
    pub open spec fn is_valid(self) -> bool {
        forall|i: int|
            0 <= i < self.blocks.len() ==> self.linked(i) && (#[trigger] self.blocks[i]).is_sealed(
                self.difficulty,
            )
    }

    /// A valid chain that starts with a genesis block and numbers its blocks by
    /// position.
    pub open spec fn well_formed(self) -> bool {
        &&& self.blocks.len() > 0
        &&& self.blocks[0].previous_hash == Seq::<char>::empty()
        &&& forall|i: int| 0 <= i < self.blocks.len() ==> (#[trigger] self.blocks[i]).index == i
        &&& self.is_valid()
    }

    /// The verdict on appending `block`: it must continue the chain and be
    /// sealed at the chain's difficulty.
    pub open spec fn verdict(self, block: BlockView) -> Result<(), ChainError> {
        if block.index != self.blocks.len() || block.previous_hash != self.tail_hash() {
            Err(ChainError::InvalidLinkage)
        } else if !block.is_sealed(self.difficulty) {
            Err(ChainError::InvalidProof)
        } else {
            Ok(())
        }
    }

    /// The chain after an attempt to append `block`: longer by that block if
    /// it is accepted, unchanged if not.
    pub open spec fn after_append(self, block: BlockView) -> ChainView {
        if self.verdict(block) is Ok {
            ChainView { blocks: self.blocks.push(block), ..self }
        } else {
            self
        }
    }

    /// The chain after attempts to append each of `blocks` in turn.
    pub open spec fn after_appends(self, blocks: Seq<BlockView>) -> ChainView
        decreases blocks.len(),
    {
        if blocks.len() == 0 {
            self
        } else {
            self.after_appends(blocks.drop_last()).after_append(blocks.last())
        }
    }

    /// This chain with block `i` replaced by `block`.
    pub open spec fn with_block(self, i: int, block: BlockView) -> ChainView {
        ChainView { blocks: self.blocks.update(i, block), ..self }
    }

    /// Whether this is the chain of one genesis block made at `timestamp`:
    /// index 0, no previous hash, and the first nonce from 1 on whose hash
    /// meets the difficulty.
    pub open spec fn is_fresh(self, timestamp: u64) -> bool {
        let start = BlockView::unmined(0, timestamp, Seq::empty());
        &&& self.blocks.len() == 1
        &&& start.first_working_nonce(self.blocks[0].proof_of_work, self.difficulty)
        &&& self.blocks[0] == start.with_nonce(self.blocks[0].proof_of_work).sealed()
    }
}

impl Blockchain {
    /// A chain of one genesis block, stamped with the current time and mined
    /// at `difficulty`. `None` if no proof of work exists for it.
    pub fn new(difficulty: usize) -> (made: Option<Blockchain>)
        ensures
            made matches Some(c) ==> {
                &&& c@.difficulty == difficulty
                &&& c@.is_fresh(c@.blocks[0].timestamp)
                &&& c@.blocks[0].index == 0
                &&& c@.blocks[0].previous_hash == Seq::<char>::empty()
                &&& c@.well_formed()
            },
            made is None ==> exists|timestamp: u64| #[trigger]
                BlockView::unmined(0, timestamp, Seq::empty()).no_working_nonce(difficulty as nat),
            difficulty == 0 ==> made is Some,
    {
        Blockchain::with_genesis_timestamp(difficulty, timestamp_from_millis(now_millis()))
    }

    /// A chain of one genesis block, created at `timestamp` and mined at
    /// `difficulty`: index 0, an empty previous hash, and the first nonce
    /// from 1 on whose hash meets the difficulty. `None` if there is no such
    /// nonce.
    pub fn with_genesis_timestamp(difficulty: usize, timestamp: u64) -> (made: Option<Blockchain>)
        ensures
            made matches Some(c) ==> {
                &&& c@.difficulty == difficulty
                &&& c@.is_fresh(timestamp)
                &&& c@.blocks[0].index == 0
                &&& c@.blocks[0].previous_hash == Seq::<char>::empty()
                &&& c@.well_formed()
            },
            made is None <==> BlockView::unmined(0, timestamp, Seq::empty()).no_working_nonce(
                difficulty as nat,
            ),
            difficulty == 0 ==> made is Some,
    {
        let mut genesis = Block::with_timestamp(0, timestamp, String::new());
        if !genesis.mine(difficulty) {
            return None;
        }
        let mut chain: Vec<Block> = Vec::new();
        chain.push(genesis);
        let made = Blockchain { difficulty, chain };
        assert(made@.blocks =~= seq![genesis@]);
        Some(made)
    }

    /// The unmined block that would continue this chain, stamped with the
    /// current time. It is not added to the chain: mine it, then append it.
    pub fn add_block(&self) -> (block: Block)
        ensures
            block@ == self@.candidate(block.timestamp),
    {
        self.add_block_at(timestamp_from_millis(now_millis()))
    }

    /// The unmined block that would continue this chain, created at
    /// `timestamp`: its index is the chain's length and its previous hash is
    /// the hash of the last block.
    pub fn add_block_at(&self, timestamp: u64) -> (block: Block)
        ensures
            block@ == self@.candidate(timestamp),
    {
        let len = self.chain.len();
        let previous_hash = if len == 0 {
            String::new()
        } else {
            self.chain[len - 1].hash.clone()
        };
        Block::with_timestamp(len as u64, timestamp, previous_hash)
    }

    /// Appends `block` if it continues the chain and is sealed at the chain's
    /// difficulty; otherwise leaves the chain as it is and says why.
    pub fn append(&mut self, block: Block) -> (result: Result<(), ChainError>)
        ensures
            result == old(self)@.verdict(block@),
            final(self)@ == old(self)@.after_append(block@),
            old(self)@.is_valid() ==> final(self)@.is_valid(),
            old(self)@.well_formed() ==> final(self)@.well_formed(),
    {
        let len = self.chain.len();
        assert(len > 0 ==> self@.blocks.last() == self.chain@[len - 1]@);
        assert(block.previous_hash@.len() == 0 ==> block.previous_hash@ =~= Seq::empty());
        let continues = block.index == len as u64 && if len == 0 {
            block.previous_hash.as_str().is_empty()
        } else {
            block.previous_hash == self.chain[len - 1].hash
        };
        if !continues {
            return Err(ChainError::InvalidLinkage);
        }
        if !block.is_sealed(self.difficulty) {
            return Err(ChainError::InvalidProof);
        }
        self.chain.push(block);
        proof {
            assert(self@.blocks =~= old(self)@.blocks.push(block@));
            if old(self)@.is_valid() {
                lemma_append_keeps_valid(old(self)@, block@);
            }
        }
        Ok(())
    }

    /// The first block that breaks the chain's integrity, with what is wrong
    /// with it; `None` if the chain is valid.
    pub fn find_fault(&self) -> (fault: Option<(usize, ChainError)>)
        ensures
            fault is None <==> self@.is_valid(),
            fault matches Some((i, e)) ==> i < self@.blocks.len() && self@.fault_at(i as int)
                == Some(e) && forall|j: int| 0 <= j < i ==> self@.fault_at(j) is None,
    {
        let mut i: usize = 0;
        while i < self.chain.len()
            invariant
                i <= self.chain@.len(),
                forall|j: int| 0 <= j < i ==> self@.fault_at(j) is None,
            decreases self.chain@.len() - i,
        {
            let block = &self.chain[i];
            assert(self@.blocks[i as int] == block@);
            if i > 0 && !(block.previous_hash == self.chain[i - 1].hash) {
                return Some((i, ChainError::InvalidLinkage));
            }
            let expected = block.generate_block_hash();
            if !(block.hash == expected) {
                return Some((i, ChainError::HashMismatch));
            }
            if !starts_with_zeros(block.hash.as_str(), self.difficulty) {
                return Some((i, ChainError::InvalidProof));
            }
            i += 1;
        }
        proof {
            assert forall|k: int| 0 <= k < self@.blocks.len() implies self@.linked(k)
                && (#[trigger] self@.blocks[k]).is_sealed(self@.difficulty) by {
                assert(self@.fault_at(k) is None);
            }
        }
        None
    }

    /// Whether the chain is intact: every block but the first names the hash
    /// of the one before it, and every block stores the hash of its content,
    /// which meets the difficulty.
    pub fn is_valid(&self) -> (ok: bool)
        ensures
            ok == self@.is_valid(),
    {
        self.find_fault().is_none()
    }
}

/// Appending keeps a valid chain valid, whether the block is accepted or not.
pub proof fn lemma_append_keeps_valid(chain: ChainView, block: BlockView)
    requires
        chain.is_valid(),
    ensures
        chain.after_append(block).is_valid(),
        chain.well_formed() ==> chain.after_append(block).well_formed(),
{
    let after = chain.after_append(block);
    if chain.verdict(block) is Ok {
        assert forall|i: int| 0 <= i < after.blocks.len() implies after.linked(i)
            && (#[trigger] after.blocks[i]).is_sealed(after.difficulty) by {
            if i < chain.blocks.len() {
                assert(after.blocks[i] == chain.blocks[i]);
                assert(chain.linked(i));
            }
        }
    }
}

/// However many blocks are offered to a valid chain, and whichever of them it
/// accepts, the chain stays valid.
pub proof fn lemma_appends_keep_valid(chain: ChainView, blocks: Seq<BlockView>)
    requires
        chain.is_valid(),
    ensures
        chain.after_appends(blocks).is_valid(),
        chain.well_formed() ==> chain.after_appends(blocks).well_formed(),
    decreases blocks.len(),
{
    if blocks.len() > 0 {
        lemma_appends_keep_valid(chain, blocks.drop_last());
        lemma_append_keeps_valid(chain.after_appends(blocks.drop_last()), blocks.last());
    }
}

/// A freshly made chain starts with a genesis block of index 0 and no previous
/// hash, and is valid.
pub proof fn lemma_fresh_chain_is_well_formed(chain: ChainView, timestamp: u64)
    requires
        chain.is_fresh(timestamp),
    ensures
        chain.blocks[0].index == 0,
        chain.blocks[0].previous_hash == Seq::<char>::empty(),
        chain.well_formed(),
{
}

/// A freshly made chain stays valid under any appends.
pub proof fn lemma_grown_chain_is_valid(chain: ChainView, timestamp: u64, blocks: Seq<BlockView>)
    requires
        chain.is_fresh(timestamp),
    ensures
        chain.after_appends(blocks).well_formed(),
{
    lemma_appends_keep_valid(chain, blocks);
}

/// A candidate for a chain, mined with a nonce that meets the chain's
/// difficulty, is accepted by that chain.
pub proof fn lemma_mined_candidate_is_accepted(chain: ChainView, timestamp: u64, nonce: u64)
    requires
        chain.blocks.len() <= u64::MAX,
        chain.candidate(timestamp).nonce_works(nonce, chain.difficulty),
    ensures
        chain.verdict(chain.candidate(timestamp).with_nonce(nonce).sealed()) is Ok,
{
}

/// A block whose index is not the chain's length, or whose previous hash is
/// not the hash of the chain's last block, is refused for its linkage, and the
/// chain is left as it was.
pub proof fn lemma_unlinked_block_is_refused(chain: ChainView, block: BlockView)
    requires
        block.index != chain.blocks.len() || block.previous_hash != chain.tail_hash(),
    ensures
        chain.verdict(block) == Err::<(), ChainError>(ChainError::InvalidLinkage),
        chain.after_append(block) == chain,
{
}

/// Changing the hash stored in any block of a valid chain breaks the chain.
pub proof fn lemma_changed_hash_is_detected(chain: ChainView, i: int, hash: Seq<char>)
    requires
        chain.is_valid(),
        0 <= i < chain.blocks.len(),
        hash != chain.blocks[i].hash,
    ensures
        !chain.with_block(i, BlockView { hash, ..chain.blocks[i] }).is_valid(),
{
    let changed = chain.with_block(i, BlockView { hash, ..chain.blocks[i] });
    assert(chain.blocks[i].is_sealed(chain.difficulty));
    assert(!changed.blocks[i].is_sealed(changed.difficulty));
}

/// Changing the previous hash stored in any block but the genesis of a valid
/// chain breaks the chain.
pub proof fn lemma_changed_link_is_detected(chain: ChainView, i: int, previous_hash: Seq<char>)
    requires
        chain.is_valid(),
        0 < i < chain.blocks.len(),
        previous_hash != chain.blocks[i].previous_hash,
    ensures
        !chain.with_block(i, BlockView { previous_hash, ..chain.blocks[i] }).is_valid(),
{
    let changed = chain.with_block(i, BlockView { previous_hash, ..chain.blocks[i] });
    assert(chain.blocks[i].is_sealed(chain.difficulty) && chain.linked(i));
    assert(!changed.linked(i));
    assert(changed.is_valid() ==> changed.blocks[i].is_sealed(changed.difficulty));
}

/// Changing any single field of any block of a valid chain breaks the chain:
/// more generally, any change that keeps the stored hash or keeps the content.
/// The one way out is a collision of SHA-256 on the old and the new hashed
/// bytes.
pub proof fn lemma_changed_block_is_detected(chain: ChainView, i: int, block: BlockView)
    requires
        chain.is_valid(),
        0 <= i < chain.blocks.len(),
        block != chain.blocks[i],
        block.hash == chain.blocks[i].hash || block.same_content(chain.blocks[i]),
        !sha256_collides(chain.blocks[i].hash_input(), block.hash_input()),
    ensures
        !chain.with_block(i, block).is_valid(),
{
    let changed = chain.with_block(i, block);
    assert(chain.blocks[i].is_sealed(chain.difficulty));
    assert(changed.is_valid() ==> changed.blocks[i].is_sealed(changed.difficulty));
    lemma_changed_block_is_unsealed(chain.blocks[i], block);
}

/// A block that was mined for another tail is refused, and so is the same
/// block with its previous hash set to the chain's tail but not mined again.
/// The one way out is a collision of SHA-256 on the two hashed bytes.
pub proof fn lemma_repointed_block_is_refused(chain: ChainView, block: BlockView)
    requires
        block.hash == block.content_hash(),
        block.previous_hash != chain.tail_hash(),
        !sha256_collides(
            block.hash_input(),
            (BlockView { previous_hash: chain.tail_hash(), ..block }).hash_input(),
        ),
    ensures
        chain.verdict(block) is Err,
        chain.verdict(BlockView { previous_hash: chain.tail_hash(), ..block }) is Err,
        chain.after_append(block) == chain,
        chain.after_append(BlockView { previous_hash: chain.tail_hash(), ..block }) == chain,
{
    lemma_changed_block_is_unsealed(block, BlockView { previous_hash: chain.tail_hash(), ..block });
}

} // verus!
