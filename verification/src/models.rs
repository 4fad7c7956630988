//! Documents as the ledger records them, and the answer to a lookup.

use crate::digest::fingerprint;
use crate::digest::fingerprint_of;
use crate::digest::hex_digits;
use crate::platform::random_id;
use crate::platform::unix_seconds;
use crate::text::texts;
use vstd::prelude::*;

verus! {

/// The shape of a version-4 identifier in hyphenated lowercase form: 36
/// characters in groups of 8, 4, 4, 4 and 12 hexadecimal digits with
/// hyphens between them, where the third group starts with `4` and the
/// fourth with `8`, `9`, `a` or `b`.
pub open spec fn is_v4_id(id: Seq<char>) -> bool {
    &&& id.len() == 36
    &&& forall|i: int|
        0 <= i < 36 ==> if i == 8 || i == 13 || i == 18 || i == 23 {
            id[i] == '-'
        } else {
            hex_digits().contains(#[trigger] id[i])
        }
    &&& id[14] == '4'
    &&& id[19] == '8' || id[19] == '9' || id[19] == 'a' || id[19] == 'b'
}

/// An uploaded document as the ledger records it: who it is, and the
/// fingerprint of what it holds. The content itself is not kept.
#[derive(Debug)]
pub struct Document {
    pub id: String,
    pub filename: String,
    pub hash: String,
    pub timestamp: u64,
    pub block_index: Option<usize>,
}

/// What a document records, as plain values.
pub struct DocumentView {
    pub id: Seq<char>,
    pub filename: Seq<char>,
    /// The fingerprint of the content.
    pub hash: Seq<char>,
    /// Capture time, in seconds since the Unix epoch.
    pub timestamp: u64,
    pub block_index: Option<usize>,
}

impl View for Document {
    type V = DocumentView;

    open spec fn view(&self) -> DocumentView {
        DocumentView {
            id: self.id@,
            filename: self.filename@,
            hash: self.hash@,
            timestamp: self.timestamp,
            block_index: self.block_index,
        }
    }
}

impl Clone for Document {
    fn clone(&self) -> (copy: Self)
        ensures
            copy == *self,
    {
        Document {
            id: self.id.clone(),
            filename: self.filename.clone(),
            hash: self.hash.clone(),
            timestamp: self.timestamp,
            block_index: self.block_index,
        }
    }
}

impl Document {
    /// The record for `content` captured at `timestamp` under `id`: its hash
    /// is the fingerprint of the content, and no block is assigned.
    pub open spec fn captured(
        id: Seq<char>,
        filename: Seq<char>,
        content: Seq<u8>,
        timestamp: u64,
    ) -> DocumentView {
        DocumentView { id, filename, hash: fingerprint(content), timestamp, block_index: None }
    }

    /// Records `content` under a given identifier and capture time.
    pub fn with_identity(
        id: String,
        filename: String,
        content: &[u8],
        timestamp: u64,
    ) -> (doc: Self)
        ensures
            doc@ == Self::captured(id@, filename@, content@, timestamp),
            doc@.hash.len() == 64,
    {
        let hash = fingerprint_of(content);
        Document { id, filename, hash, timestamp, block_index: None }
    }

    /// Records `content` under a fresh random identifier, captured now. The
    /// identifier and the capture time are whatever the system supplies;
    /// everything else is fixed by the arguments.
    pub fn new(filename: String, content: &[u8]) -> (doc: Self)
        ensures
            doc@ == Self::captured(doc@.id, filename@, content@, doc@.timestamp),
            is_v4_id(doc@.id),
            doc@.hash.len() == 64,
    {
        let timestamp = unix_seconds();
        let id = random_id();
        Self::with_identity(id, filename, content, timestamp)
    }
}

/// The answer to the question whether a document has been committed.
#[derive(Debug)]
pub struct VerificationResult {
    pub exists: bool,
    pub block_index: Option<usize>,
    pub timestamp: Option<u64>,
    pub merkle_proof: Option<Vec<String>>,
}

/// What a lookup answers, as plain values.
pub struct VerificationResultView {
    pub exists: bool,
    pub block_index: Option<usize>,
    pub timestamp: Option<u64>,
    pub merkle_proof: Option<Seq<Seq<char>>>,
}

impl View for VerificationResult {
    type V = VerificationResultView;

    open spec fn view(&self) -> VerificationResultView {
        VerificationResultView {
            exists: self.exists,
            block_index: self.block_index,
            timestamp: self.timestamp,
            merkle_proof: match self.merkle_proof {
                Some(proof) => Some(texts(proof@)),
                None => None,
            },
        }
    }
}

impl VerificationResultView {
    /// The answer for a document found in the block at `block_index`.
    pub open spec fn found(block_index: usize, timestamp: u64, proof: Seq<Seq<char>>) -> Self {
        VerificationResultView {
            exists: true,
            block_index: Some(block_index),
            timestamp: Some(timestamp),
            merkle_proof: Some(proof),
        }
    }

    /// The answer for a document that no block holds.
    pub open spec fn missing() -> Self {
        VerificationResultView {
            exists: false,
            block_index: None,
            timestamp: None,
            merkle_proof: None,
        }
    }
}

impl VerificationResult {
    /// The answer for a document found in the block at `block_index`, which
    /// was created at `timestamp`, with its inclusion proof.
    pub fn found(block_index: usize, timestamp: u64, merkle_proof: Vec<String>) -> (result: Self)
        ensures
            result@ == VerificationResultView::found(block_index, timestamp, texts(merkle_proof@)),
    {
        VerificationResult {
            exists: true,
            block_index: Some(block_index),
            timestamp: Some(timestamp),
            merkle_proof: Some(merkle_proof),
        }
    }

    /// The answer for a document that no block holds.
    pub fn missing() -> (result: Self)
        ensures
            result@ == VerificationResultView::missing(),
    {
        VerificationResult { exists: false, block_index: None, timestamp: None, merkle_proof: None }
    }
}

/// Documents captured from the same content carry the same hash, whatever
/// their names, identifiers and capture times.
pub proof fn lemma_same_content_same_hash(
    content: Seq<u8>,
    id_a: Seq<char>,
    filename_a: Seq<char>,
    timestamp_a: u64,
    id_b: Seq<char>,
    filename_b: Seq<char>,
    timestamp_b: u64,
)
    ensures
        Document::captured(id_a, filename_a, content, timestamp_a).hash == Document::captured(
            id_b,
            filename_b,
            content,
            timestamp_b,
        ).hash,
{
}

} // verus!
