//! The indexing pipeline: per-file decisions, content hashing and statistics.

pub mod db;

use crate::models::Language;
use crate::parser::{get_parser, parse_in, ParseResult, Parser};
use crate::text::str_eq;
use sha2::Digest;
use vstd::prelude::*;
use vstd::string::StringSliceAdditionalSpecFns;

verus! {

/// The SHA-256 digest of `data`.
pub uninterp spec fn sha256(data: Seq<u8>) -> Seq<u8>;

/// `sha2::Sha256::digest`: the digest is a function of the data alone and is
/// 32 bytes long; the hash function itself is not restated here.
#[verifier::external_body]
fn sha256_digest(data: &[u8]) -> (r: Vec<u8>)
    ensures
        r@ == sha256(data@),
        r@.len() == 32,
{
    sha2::Sha256::digest(data).to_vec()
}

/// The lower-case hexadecimal digit for `d < 16`.
pub open spec fn hex_digit(d: u8) -> char {
    if d < 10 {
        ((d + 48) as u32) as char
    } else {
        ((d + 87) as u32) as char
    }
}

/// Two lower-case hexadecimal digits per byte.
pub open spec fn hex_lower(data: Seq<u8>) -> Seq<char>
    decreases data.len(),
{
    if data.len() == 0 {
        Seq::empty()
    } else {
        hex_lower(data.drop_last()) + seq![
            hex_digit(data.last() / 16),
            hex_digit(data.last() % 16),
        ]
    }
}

/// `hex::encode`: two lower-case hexadecimal digits per byte, in order.
#[verifier::external_body]
fn hex_encode(data: &[u8]) -> (r: String)
    ensures
        r@ == hex_lower(data@),
{
    hex::encode(data)
}

/// The hash stored for a file's content: the hex-encoded SHA-256 of its UTF-8 bytes.
pub open spec fn content_hash(content: Seq<char>) -> Seq<char> {
    hex_lower(sha256(vstd::utf8::encode_utf8(content)))
}

/// The hash stored for a file's content: the hex-encoded SHA-256 of its UTF-8 bytes.
pub fn compute_hash(content: &str) -> (r: String)
    ensures
        r@ == content_hash(content@),
        r@.len() == 64,
{
    let digest = sha256_digest(content.as_bytes());
    let r = hex_encode(digest.as_slice());
    proof {
        lemma_hex_len(digest@);
    }
    r
}

proof fn lemma_hex_len(data: Seq<u8>)
    ensures
        hex_lower(data).len() == 2 * data.len(),
    decreases data.len(),
{
    if data.len() > 0 {
        lemma_hex_len(data.drop_last());
    }
}

/// What happened to one file during indexing.
#[derive(Debug, Clone, Copy, PartialEq, Eq)]
pub enum IndexFileResult {
    /// Parsed and stored, with this many symbols.
    New(usize),
    /// Its hash matched the stored one.
    Unchanged,
    /// Larger than the size limit.
    Skipped,
}

/// What to do with one file before parsing it.
#[derive(Debug, Clone, Copy, PartialEq, Eq, Structural)]
pub enum IndexDecision {
    /// Larger than the size limit.
    Skip,
    /// Same hash as stored.
    Unchanged,
    /// Parse and store it.
    Index,
}

/// The decision for a file of `content_len` bytes with hash `hash`, when the
/// index holds `existing` for it and files above `max_file_size_kb` KiB are skipped.
pub open spec fn index_decision(
    content_len: nat,
    max_file_size_kb: u64,
    hash: Seq<char>,
    existing: Option<Seq<char>>,
) -> IndexDecision {
    if content_len > ((max_file_size_kb * 1024) as usize) {
        IndexDecision::Skip
    } else if existing == Some(hash) {
        IndexDecision::Unchanged
    } else {
        IndexDecision::Index
    }
}

/// Law (incremental indexing): a file within the size limit whose content
/// hashes to the stored hash is left alone, and one whose hash differs from
/// the stored one (or that has none stored) is indexed again.
pub proof fn lemma_incremental_indexing(
    content: Seq<char>,
    content_len: nat,
    max_file_size_kb: u64,
    existing: Option<Seq<char>>,
)
    requires
        content_len <= ((max_file_size_kb * 1024) as usize),
    ensures
        existing == Some(content_hash(content)) ==> index_decision(
            content_len,
            max_file_size_kb,
            content_hash(content),
            existing,
        ) == IndexDecision::Unchanged,
        existing != Some(content_hash(content)) ==> index_decision(
            content_len,
            max_file_size_kb,
            content_hash(content),
            existing,
        ) == IndexDecision::Index,
{
}

/// Decides whether a file is skipped for size, unchanged, or to be indexed.
pub fn decide_index(
    content: &str,
    max_file_size_kb: u64,
    hash: &str,
    existing: Option<&str>,
) -> (d: IndexDecision)
    requires
        max_file_size_kb <= u64::MAX / 1024,
    ensures
        d == index_decision(
            (content.spec_bytes().len() as usize) as nat,
            max_file_size_kb,
            hash@,
            match existing {
                Some(e) => Some(e@),
                None => None,
            },
        ),
{
    let max_size = (max_file_size_kb * 1024) as usize;
    if content.len() > max_size {
        return IndexDecision::Skip;
    }
    match existing {
        Some(e) => if str_eq(e, hash) {
            IndexDecision::Unchanged
        } else {
            IndexDecision::Index
        },
        None => IndexDecision::Index,
    }
}

/// Counts of what happened while indexing a project.
#[derive(Debug, Clone)]
pub struct IndexStats {
    pub files_indexed: usize,
    pub files_unchanged: usize,
    pub files_skipped: usize,
    pub files_failed: usize,
    pub symbols_found: usize,
}

impl Default for IndexStats {
    fn default() -> (s: Self)
        ensures
            s.files_indexed == 0,
            s.files_unchanged == 0,
            s.files_skipped == 0,
            s.files_failed == 0,
            s.symbols_found == 0,
    {
        IndexStats {
            files_indexed: 0,
            files_unchanged: 0,
            files_skipped: 0,
            files_failed: 0,
            symbols_found: 0,
        }
    }
}

/// `a + b`, held at `usize::MAX`.
pub open spec fn sat_add(a: usize, b: usize) -> usize {
    if a + b > usize::MAX {
        usize::MAX
    } else {
        (a + b) as usize
    }
}

impl IndexStats {
    /// Counts the outcome of one file; `None` is a failure.  Counts stop at `usize::MAX`.
    pub fn record(&mut self, outcome: Option<IndexFileResult>)
        ensures
            match outcome {
                Some(IndexFileResult::New(n)) => {
                    &&& final(self).files_indexed == sat_add(old(self).files_indexed, 1)
                    &&& final(self).symbols_found == sat_add(old(self).symbols_found, n)
                    &&& final(self).files_unchanged == old(self).files_unchanged
                    &&& final(self).files_skipped == old(self).files_skipped
                    &&& final(self).files_failed == old(self).files_failed
                },
                Some(IndexFileResult::Unchanged) => {
                    &&& final(self).files_unchanged == sat_add(old(self).files_unchanged, 1)
                    &&& final(self).files_indexed == old(self).files_indexed
                    &&& final(self).symbols_found == old(self).symbols_found
                    &&& final(self).files_skipped == old(self).files_skipped
                    &&& final(self).files_failed == old(self).files_failed
                },
                Some(IndexFileResult::Skipped) => {
                    &&& final(self).files_skipped == sat_add(old(self).files_skipped, 1)
                    &&& final(self).files_indexed == old(self).files_indexed
                    &&& final(self).symbols_found == old(self).symbols_found
                    &&& final(self).files_unchanged == old(self).files_unchanged
                    &&& final(self).files_failed == old(self).files_failed
                },
                None => {
                    &&& final(self).files_failed == sat_add(old(self).files_failed, 1)
                    &&& final(self).files_indexed == old(self).files_indexed
                    &&& final(self).symbols_found == old(self).symbols_found
                    &&& final(self).files_unchanged == old(self).files_unchanged
                    &&& final(self).files_skipped == old(self).files_skipped
                },
            },
    {
        match outcome {
            Some(IndexFileResult::New(n)) => {
                self.files_indexed = self.files_indexed.saturating_add(1);
                self.symbols_found = self.symbols_found.saturating_add(n);
            },
            Some(IndexFileResult::Unchanged) => {
                self.files_unchanged = self.files_unchanged.saturating_add(1);
            },
            Some(IndexFileResult::Skipped) => {
                self.files_skipped = self.files_skipped.saturating_add(1);
            },
            None => {
                self.files_failed = self.files_failed.saturating_add(1);
            },
        }
    }
}

/// The number of symbols a single-file reindex reports for an outcome.
pub fn single_file_count(outcome: IndexFileResult) -> (n: usize)
    ensures
        n == match outcome {
            IndexFileResult::New(k) => k,
            _ => 0,
        },
{
    match outcome {
        IndexFileResult::New(k) => k,
        IndexFileResult::Unchanged => 0,
        IndexFileResult::Skipped => 0,
    }
}

/// What indexing does with one file, decided before anything is stored.
pub enum FilePlan {
    /// Larger than the size limit.
    Skip,
    /// Its hash matches the stored one.
    Unchanged,
    /// Store the file under `hash`, with what parsing it yields.
    Store { hash: String, result: ParseResult },
}

/// The plan for a file of `content` in `language` at `path`, when files above
/// `max_file_size_kb` KiB are skipped and the index holds `existing` as its
/// hash: skip it, leave it, or store its hash and parse result.
pub fn plan_file(
    content: &str,
    path: &str,
    language: Language,
    max_file_size_kb: u64,
    existing: Option<&str>,
) -> (p: FilePlan)
    requires
        max_file_size_kb <= u64::MAX / 1024,
    ensures
        match index_decision(
            (content.spec_bytes().len() as usize) as nat,
            max_file_size_kb,
            content_hash(content@),
            match existing {
                Some(e) => Some(e@),
                None => None,
            },
        ) {
            IndexDecision::Skip => p is Skip,
            IndexDecision::Unchanged => p is Unchanged,
            IndexDecision::Index => p matches FilePlan::Store { hash, result } && hash@
                == content_hash(content@) && result@ == parse_in(language, content@),
        },
{
    let hash = compute_hash(content);
    match decide_index(content, max_file_size_kb, hash.as_str(), existing) {
        IndexDecision::Skip => FilePlan::Skip,
        IndexDecision::Unchanged => FilePlan::Unchanged,
        IndexDecision::Index => {
            let parser = get_parser(language);
            let result = parser.parse(content, path);
            FilePlan::Store { hash, result }
        },
    }
}

} // verus!
