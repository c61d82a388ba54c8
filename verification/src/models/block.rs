//! A block of the ledger and the search for its proof of work.

use crate::clock::{now_millis, timestamp_from_millis};
use crate::digest::{
    json_string, lemma_json_string_is_injective, quote_json, sha256, sha256_collides,
    sha256_digest,
};
use crate::encoding::{
    decimal, has_leading_zeros, hex, lemma_decimal_is_delimited, lemma_hex_is_injective,
    push_decimal, push_hex, starts_with_zeros,
};
use vstd::prelude::*;
use vstd::string::*;
use vstd::utf8::{encode_utf8, encode_utf8_decode_utf8};

verus! {

/// One record of the ledger.
#[derive(Debug)]
pub struct Block {
    /// Position in the chain; the genesis block has index 0.
    pub index: u64,
    /// Creation time, in milliseconds since the Unix epoch.
    pub timestamp: u64,
    /// The nonce found by mining.
    pub proof_of_work: u64,
    /// Hash of the preceding block; empty for the genesis block.
    pub previous_hash: String,
    /// Hash of this block's content; empty until the block is mined.
    pub hash: String,
}

/// The mathematical content of a [`Block`].
pub ghost struct BlockView {
    pub index: u64,
    pub timestamp: u64,
    pub proof_of_work: u64,
    pub previous_hash: Seq<char>,
    pub hash: Seq<char>,
}

impl View for Block {
    type V = BlockView;

    open spec fn view(&self) -> BlockView {
        BlockView {
            index: self.index,
            timestamp: self.timestamp,
            proof_of_work: self.proof_of_work,
            previous_hash: self.previous_hash@,
            hash: self.hash@,
        }
    }
}

/// The text that is hashed for a block: a JSON object with the five fields in
/// a fixed order, the numbers in decimal, the previous hash as the JSON string
/// literal `quoted_previous_hash`, and the hash field empty.
pub open spec fn record_text(
    index: u64,
    timestamp: u64,
    proof_of_work: u64,
    quoted_previous_hash: Seq<char>,
) -> Seq<char> {
    "{\"index\":"@ + decimal(index as nat) + ",\"timestamp\":"@ + decimal(timestamp as nat)
        + ",\"proof_of_work\":"@ + decimal(proof_of_work as nat) + ",\"previous_hash\":"@
        + quoted_previous_hash + ",\"hash\":\"\"}"@
}

impl BlockView {
    /// A block that has not been mined: no proof of work and no hash.
    pub open spec fn unmined(index: u64, timestamp: u64, previous_hash: Seq<char>) -> BlockView {
        BlockView { index, timestamp, proof_of_work: 0, previous_hash, hash: Seq::empty() }
    }

    /// The text whose digest is this block's hash. The stored hash is not part
    /// of it.
    pub open spec fn canonical_text(self) -> Seq<char> {
        record_text(
            self.index,
            self.timestamp,
            self.proof_of_work,
            json_string(self.previous_hash),
        )
    }

    /// The bytes that are hashed: the canonical text in UTF-8.
    pub open spec fn hash_input(self) -> Seq<u8> {
        encode_utf8(self.canonical_text())
    }

    /// The hash that this block's content determines: the SHA-256 digest of the
    /// hashed bytes, as 64 lowercase hexadecimal digits.
    pub open spec fn content_hash(self) -> Seq<char> {
        hex(sha256(self.hash_input()))
    }

    /// Whether two blocks agree in all that is hashed: index, timestamp, proof
    /// of work and previous hash.
    pub open spec fn same_content(self, other: BlockView) -> bool {
        &&& self.index == other.index
        &&& self.timestamp == other.timestamp
        &&& self.proof_of_work == other.proof_of_work
        &&& self.previous_hash == other.previous_hash
    }

    /// This block with its proof of work replaced by `nonce`.
    pub open spec fn with_nonce(self, nonce: u64) -> BlockView {
        BlockView { proof_of_work: nonce, ..self }
    }

    /// This block with the hash its content determines.
    pub open spec fn sealed(self) -> BlockView {
        BlockView { hash: self.content_hash(), ..self }
    }

    /// What holds of a block at all times: it stores no hash yet, or the hash
    /// of its content.
    pub open spec fn well_formed(self) -> bool {
        self.hash.len() == 0 || self.hash == self.content_hash()
    }

    /// Whether the stored hash is the one the content determines and begins
    /// with `difficulty` zeros.
    pub open spec fn is_sealed(self, difficulty: nat) -> bool {
        &&& self.hash == self.content_hash()
        &&& has_leading_zeros(self.hash, difficulty)
    }

    /// Whether this block's content hash would meet `difficulty` with `nonce`
    /// as its proof of work.
    pub open spec fn nonce_works(self, nonce: u64, difficulty: nat) -> bool {
        has_leading_zeros(self.with_nonce(nonce).content_hash(), difficulty)
    }

    /// Whether `nonce` is the first one after the current proof of work that
    /// meets `difficulty`.
    pub open spec fn first_working_nonce(self, nonce: u64, difficulty: nat) -> bool {
        &&& self.proof_of_work < nonce
        &&& self.nonce_works(nonce, difficulty)
        &&& forall|n: u64|
            self.proof_of_work < n < nonce ==> !#[trigger] self.nonce_works(n, difficulty)
    }

    /// Whether no nonce after the current proof of work meets `difficulty`.
    pub open spec fn no_working_nonce(self, difficulty: nat) -> bool {
        forall|n: u64| self.proof_of_work < n ==> !#[trigger] self.nonce_works(n, difficulty)
    }
}

impl Clone for Block {
    fn clone(&self) -> (copy: Block)
        ensures
            copy@ == self@,
    {
        Block {
            index: self.index,
            timestamp: self.timestamp,
            proof_of_work: self.proof_of_work,
            previous_hash: self.previous_hash.clone(),
            hash: self.hash.clone(),
        }
    }
}

/// Assembles the text that is hashed for a block from its numbers and the JSON
/// string literal of its previous hash.
pub fn assemble_record(
    index: u64,
    timestamp: u64,
    proof_of_work: u64,
    quoted_previous_hash: &str,
) -> (text: String)
    ensures
        text@ == record_text(index, timestamp, proof_of_work, quoted_previous_hash@),
{
    let mut text = String::new();
    text.append("{\"index\":");
    push_decimal(&mut text, index);
    text.append(",\"timestamp\":");
    push_decimal(&mut text, timestamp);
    text.append(",\"proof_of_work\":");
    push_decimal(&mut text, proof_of_work);
    text.append(",\"previous_hash\":");
    text.append(quoted_previous_hash);
    text.append(",\"hash\":\"\"}");
    text
}

impl Block {
    /// A fresh, unmined block stamped with the current time.
    pub fn new(index: u64, previous_hash: String) -> (block: Block)
        ensures
            block.index == index,
            block.proof_of_work == 0,
            block.previous_hash@ == previous_hash@,
            block.hash@ == Seq::<char>::empty(),
            block@.well_formed(),
    {
        Block::with_timestamp(index, timestamp_from_millis(now_millis()), previous_hash)
    }

    /// A fresh, unmined block with the given creation time.
    pub fn with_timestamp(index: u64, timestamp: u64, previous_hash: String) -> (block: Block)
        ensures
            block@ == BlockView::unmined(index, timestamp, previous_hash@),
            block@.well_formed(),
    {
        Block { index, timestamp, proof_of_work: 0, previous_hash, hash: String::new() }
    }

    /// The text that is hashed for this block.
    pub fn canonical_text(&self) -> (text: String)
        ensures
            text@ == self@.canonical_text(),
    {
        let quoted = quote_json(self.previous_hash.as_str());
        assemble_record(self.index, self.timestamp, self.proof_of_work, quoted.as_str())
    }

    /// Computes the hash that this block's content determines. The stored hash
    /// plays no part in it.
    pub fn generate_block_hash(&self) -> (hash: String)
        ensures
            hash@ == self@.content_hash(),
            hash@.len() == 64,
    {
        let text = self.canonical_text();
        let digest = sha256_digest(text.as_str().as_bytes());
        let mut hash = String::new();
        push_hex(&mut hash, digest.as_slice());
        hash
    }

    /// Whether the stored hash is the hash of this block's content and begins
    /// with `difficulty` zeros.
    pub fn is_sealed(&self, difficulty: usize) -> (ok: bool)
        ensures
            ok == self@.is_sealed(difficulty as nat),
    {
        let expected = self.generate_block_hash();
        self.hash == expected && starts_with_zeros(self.hash.as_str(), difficulty)
    }

    /// Searches for a proof of work. The counter is advanced before each
    /// attempt, so the first nonce tried is one past the current value, and the
    /// search stops at the first nonce whose hash begins with `difficulty`
    /// zeros; at difficulty 0 that is the first attempt. The search gives up,
    /// and returns `false`, once the counter has reached `u64::MAX`.
    pub fn mine(&mut self, difficulty: usize) -> (found: bool)
        ensures
            found ==> old(self)@.first_working_nonce(final(self).proof_of_work, difficulty as nat),
            found ==> final(self)@ == old(self)@.with_nonce(final(self).proof_of_work).sealed(),
            found ==> final(self)@.is_sealed(difficulty as nat),
            !found ==> old(self)@.no_working_nonce(difficulty as nat),
            !found ==> final(self)@ == (if old(self).proof_of_work == u64::MAX {
                old(self)@
            } else {
                old(self)@.with_nonce(u64::MAX).sealed()
            }),
            difficulty == 0 && old(self).proof_of_work < u64::MAX ==> found
                && final(self).proof_of_work == old(self).proof_of_work + 1,
            difficulty > 64 ==> !found,
            old(self)@.well_formed() ==> final(self)@.well_formed(),
    {
        let ghost start = self@;
        let mut found = false;
        while !found && self.proof_of_work < u64::MAX
            invariant
                self@.with_nonce(start.proof_of_work) == (BlockView { hash: self@.hash, ..start }),
                start.proof_of_work <= self.proof_of_work,
                self.proof_of_work == start.proof_of_work ==> self@.hash == start.hash && !found,
                self.proof_of_work > start.proof_of_work ==> self@.hash == self@.content_hash()
                    && self@.hash.len() == 64,
                found == (self.proof_of_work > start.proof_of_work && start.nonce_works(
                    self.proof_of_work,
                    difficulty as nat,
                )),
                forall|n: u64|
                    start.proof_of_work < n < self.proof_of_work ==> !#[trigger] start.nonce_works(
                        n,
                        difficulty as nat,
                    ),
            decreases u64::MAX - self.proof_of_work + (if found { 0int } else { 1int }),
        {
            self.proof_of_work += 1;
            self.hash = self.generate_block_hash();
            found = starts_with_zeros(self.hash.as_str(), difficulty);
        }
        proof {
            if difficulty == 0 && start.proof_of_work < u64::MAX {
                assert(start.nonce_works((start.proof_of_work + 1) as u64, 0));
            }
        }
        found
    }
}

/// Two blocks that agree in index, timestamp, proof of work and previous hash
/// have the same content hash, whatever hashes they store.
pub proof fn lemma_content_hash_is_determined(a: BlockView, b: BlockView)
    requires
        a.same_content(b),
    ensures
        a.content_hash() == b.content_hash(),
{
}

/// At difficulty 0 every nonce works, so the first attempt succeeds.
pub proof fn lemma_zero_difficulty_first_attempt(block: BlockView)
    requires
        block.proof_of_work < u64::MAX,
    ensures
        block.first_working_nonce((block.proof_of_work + 1) as u64, 0),
{
}

/// Cancels a common key in front of two numerals: `key`, a numeral and a rest
/// that starts with a comma.
proof fn lemma_numeric_field(key: Seq<char>, a: nat, rest_a: Seq<char>, b: nat, rest_b: Seq<char>)
    requires
        key + (decimal(a) + rest_a) == key + (decimal(b) + rest_b),
        rest_a.len() > 0 && rest_a[0] == ',',
        rest_b.len() > 0 && rest_b[0] == ',',
    ensures
        a == b,
        rest_a == rest_b,
{
    let (left, right) = (decimal(a) + rest_a, decimal(b) + rest_b);
    assert(left =~= (key + left).skip(key.len() as int));
    assert(right =~= (key + right).skip(key.len() as int));
    lemma_decimal_is_delimited(a, rest_a, b, rest_b);
}

/// The keys that follow a number in the hashed text start with a comma.
proof fn lemma_keys_start_with_comma()
    ensures
        ",\"timestamp\":"@.len() > 0 && ",\"timestamp\":"@[0] == ',',
        ",\"proof_of_work\":"@.len() > 0 && ",\"proof_of_work\":"@[0] == ',',
        ",\"previous_hash\":"@.len() > 0 && ",\"previous_hash\":"@[0] == ',',
{
    reveal_strlit(",\"timestamp\":");
    reveal_strlit(",\"proof_of_work\":");
    reveal_strlit(",\"previous_hash\":");
}

/// Concatenation may be bracketed either way.
proof fn lemma_concat_is_associative(a: Seq<char>, b: Seq<char>, c: Seq<char>)
    ensures
        (a + b) + c == a + (b + c),
{
    assert((a + b) + c =~= a + (b + c));
}

/// The hashed text, bracketed from the right: each key in front of all that
/// follows it.
proof fn lemma_record_text_from_the_right(
    index: u64,
    timestamp: u64,
    proof_of_work: u64,
    quoted: Seq<char>,
)
    ensures
        record_text(index, timestamp, proof_of_work, quoted) == "{\"index\":"@ + (decimal(
            index as nat,
        ) + (",\"timestamp\":"@ + (decimal(timestamp as nat) + (",\"proof_of_work\":"@ + (decimal(
            proof_of_work as nat,
        ) + (",\"previous_hash\":"@ + (quoted + ",\"hash\":\"\"}"@))))))),
{
    let (k1, k2, k3) = ("{\"index\":"@, ",\"timestamp\":"@, ",\"proof_of_work\":"@);
    let (k4, k5) = (",\"previous_hash\":"@, ",\"hash\":\"\"}"@);
    let (i, t, p) = (decimal(index as nat), decimal(timestamp as nat), decimal(proof_of_work as nat));
    let from_q = quoted + k5;
    let from_k4 = k4 + from_q;
    let from_p = p + from_k4;
    let from_k3 = k3 + from_p;
    let from_t = t + from_k3;
    let from_k2 = k2 + from_t;
    lemma_concat_is_associative(k1 + i + k2 + t + k3 + p + k4, quoted, k5);
    lemma_concat_is_associative(k1 + i + k2 + t + k3 + p, k4, from_q);
    lemma_concat_is_associative(k1 + i + k2 + t + k3, p, from_k4);
    lemma_concat_is_associative(k1 + i + k2 + t, k3, from_p);
    lemma_concat_is_associative(k1 + i + k2, t, from_k3);
    lemma_concat_is_associative(k1 + i, k2, from_t);
    lemma_concat_is_associative(k1, i, from_k2);
}

/// The hashed text can be read back: two of them are equal only if they were
/// assembled from the same numbers and the same quoted previous hash.
pub proof fn lemma_record_text_is_unambiguous(
    index_a: u64,
    timestamp_a: u64,
    proof_of_work_a: u64,
    quoted_a: Seq<char>,
    index_b: u64,
    timestamp_b: u64,
    proof_of_work_b: u64,
    quoted_b: Seq<char>,
)
    requires
        record_text(index_a, timestamp_a, proof_of_work_a, quoted_a) == record_text(
            index_b,
            timestamp_b,
            proof_of_work_b,
            quoted_b,
        ),
    ensures
        index_a == index_b,
        timestamp_a == timestamp_b,
        proof_of_work_a == proof_of_work_b,
        quoted_a == quoted_b,
{
    lemma_keys_start_with_comma();
    lemma_record_text_from_the_right(index_a, timestamp_a, proof_of_work_a, quoted_a);
    lemma_record_text_from_the_right(index_b, timestamp_b, proof_of_work_b, quoted_b);
    let (k1, k2, k3) = ("{\"index\":"@, ",\"timestamp\":"@, ",\"proof_of_work\":"@);
    let (k4, k5) = (",\"previous_hash\":"@, ",\"hash\":\"\"}"@);
    let (end_a, end_b) = (quoted_a + k5, quoted_b + k5);
    let (from_k4_a, from_k4_b) = (k4 + end_a, k4 + end_b);
    let from_k3_a = k3 + (decimal(proof_of_work_a as nat) + from_k4_a);
    let from_k3_b = k3 + (decimal(proof_of_work_b as nat) + from_k4_b);
    let from_k2_a = k2 + (decimal(timestamp_a as nat) + from_k3_a);
    let from_k2_b = k2 + (decimal(timestamp_b as nat) + from_k3_b);
    lemma_numeric_field(k1, index_a as nat, from_k2_a, index_b as nat, from_k2_b);
    lemma_numeric_field(k2, timestamp_a as nat, from_k3_a, timestamp_b as nat, from_k3_b);
    lemma_numeric_field(k3, proof_of_work_a as nat, from_k4_a, proof_of_work_b as nat, from_k4_b);
    assert(quoted_a == quoted_b) by {
        assert(end_a =~= from_k4_a.skip(k4.len() as int));
        assert(end_b =~= from_k4_b.skip(k4.len() as int));
        assert(quoted_a =~= end_a.take(end_a.len() - k5.len()));
        assert(quoted_b =~= end_b.take(end_b.len() - k5.len()));
    }
}

/// The bytes that are hashed tell blocks apart: two blocks have the same
/// bytes only if they agree in index, timestamp, proof of work and previous
/// hash.
pub proof fn lemma_hash_input_tells_content_apart(a: BlockView, b: BlockView)
    requires
        a.hash_input() == b.hash_input(),
    ensures
        a.same_content(b),
{
    encode_utf8_decode_utf8(a.canonical_text());
    encode_utf8_decode_utf8(b.canonical_text());
    lemma_record_text_is_unambiguous(
        a.index,
        a.timestamp,
        a.proof_of_work,
        json_string(a.previous_hash),
        b.index,
        b.timestamp,
        b.proof_of_work,
        json_string(b.previous_hash),
    );
    lemma_json_string_is_injective(a.previous_hash, b.previous_hash);
}

/// Two blocks that differ in index, timestamp, proof of work or previous hash
/// have different content hashes, unless SHA-256 gives their different hashed
/// bytes the same digest.
pub proof fn lemma_changed_content_changes_hash(a: BlockView, b: BlockView)
    requires
        !a.same_content(b),
        !sha256_collides(a.hash_input(), b.hash_input()),
    ensures
        a.content_hash() != b.content_hash(),
{
    if a.content_hash() == b.content_hash() {
        lemma_hex_is_injective(sha256(a.hash_input()), sha256(b.hash_input()));
        lemma_hash_input_tells_content_apart(a, b);
    }
}

/// A block that stores the hash of its content no longer does once its
/// content is changed and the stored hash kept, or the stored hash is changed
/// and the content kept; a change of any single field is one of the two. The
/// one way out is a collision of SHA-256 on the old and the new hashed bytes.
pub proof fn lemma_changed_block_is_unsealed(before: BlockView, after: BlockView)
    requires
        before.hash == before.content_hash(),
        after != before,
        after.hash == before.hash || after.same_content(before),
        !sha256_collides(before.hash_input(), after.hash_input()),
    ensures
        after.hash != after.content_hash(),
{
    if after.same_content(before) {
        lemma_content_hash_is_determined(after, before);
    } else {
        lemma_changed_content_changes_hash(before, after);
    }
}

} // verus!
