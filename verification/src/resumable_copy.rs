//! Decisions of a resumable copy: whether a file is large enough to copy
//! in checkpointed chunks, whether a checkpoint left by an interrupted copy
//! can be resumed, when to write the next checkpoint, where checkpoints
//! are kept, and what a finished copy reports. The caller does the reading,
//! writing and hashing of files, and asks these functions at each step.

use crate::binary_diff::{hex_encode, hex_of};
use crate::types::Blake3Hash;
use crate::text::{concat_str, push_str};
use vstd::prelude::*;

verus! {

/// Size of the chunks a copy reads and writes.
pub const CHUNK_SIZE: usize = 4 * 1024 * 1024;

/// A checkpoint is written after this many bytes.
pub const CHECKPOINT_INTERVAL: u64 = 100 * 1024 * 1024;

/// Files of at least this size are copied with checkpoints.
pub const RESUMABLE_THRESHOLD: u64 = 50 * 1024 * 1024;

/// Checkpoint of a resumable copy.
#[derive(Debug, Clone)]
pub struct CopyCheckpoint {
    /// Source file path.
    pub source: String,
    /// Destination file path.
    pub destination: String,
    /// Total file size in bytes.
    pub total_size: u64,
    /// Bytes copied so far.
    pub bytes_copied: u64,
    /// Source file hash.
    pub source_hash: Blake3Hash,
    /// Hash of the bytes copied so far.
    pub partial_hash: Blake3Hash,
    /// Time of the checkpoint, in seconds since the Unix epoch.
    pub timestamp: u64,
}

/// Result of a resumable copy.
#[derive(Debug, Clone)]
pub struct ResumableResult {
    pub success: bool,
    pub bytes_copied: u64,
    pub resumed: bool,
    pub verified: bool,
    pub source_hash: Blake3Hash,
    pub dest_hash: Blake3Hash,
    pub error: Option<String>,
}

/// A resumable copy engine, keeping its checkpoints in `checkpoint_dir`.
#[derive(Debug, Clone)]
pub struct ResumableCopy {
    pub checkpoint_dir: String,
}

/// The next step of deciding where a copy starts.
#[derive(Debug, Clone, Copy, PartialEq, Eq, Structural)]
pub enum ResumeStep {
    /// Find out whether the destination exists.
    CheckDestination,
    /// Find out the destination's size.
    ReadDestinationSize,
    /// Hash the first `bytes` bytes of the destination.
    HashDestinationPrefix(u64),
    /// Start copying at byte `start`; the checkpoint is kept when valid.
    Decided { start: u64, checkpoint_valid: bool },
}

/// Message of a copy whose destination does not hash like its source.
pub const VERIFY_FAILED: &'static str = "Hash verification failed";

pub const CHECKPOINT_PREFIX: &'static str = "checkpoint_";
pub const CHECKPOINT_SUFFIX: &'static str = ".json";
pub const PATH_JOINER: &'static str = "->";

/// Starting afresh, dropping the checkpoint.
pub open spec fn fresh() -> ResumeStep {
    ResumeStep::Decided { start: 0, checkpoint_valid: false }
}

/// Whether a file of `total_size` bytes is copied with checkpoints.
pub fn needs_resumable(total_size: u64) -> (res: bool)
    ensures
        res == (total_size >= RESUMABLE_THRESHOLD),
{
    total_size >= RESUMABLE_THRESHOLD
}

/// The first step: with no checkpoint, or one for a file of another size,
/// start afresh; otherwise look at the destination.
pub fn plan_resume(total_size: u64, checkpoint: &Option<CopyCheckpoint>) -> (res: ResumeStep)
    ensures
        res == match checkpoint {
            Some(cp) => if cp.total_size == total_size {
                ResumeStep::CheckDestination
            } else {
                fresh()
            },
            None => fresh(),
        },
{
    match checkpoint {
        Some(cp) => if cp.total_size == total_size {
            ResumeStep::CheckDestination
        } else {
            ResumeStep::Decided { start: 0, checkpoint_valid: false }
        },
        None => ResumeStep::Decided { start: 0, checkpoint_valid: false },
    }
}

/// After finding out whether the destination exists: without it, start
/// afresh; otherwise read its size.
pub fn after_destination_check(dest_exists: bool) -> (res: ResumeStep)
    ensures
        res == if dest_exists {
            ResumeStep::ReadDestinationSize
        } else {
            fresh()
        },
{
    if dest_exists {
        ResumeStep::ReadDestinationSize
    } else {
        ResumeStep::Decided { start: 0, checkpoint_valid: false }
    }
}

/// After reading the destination's size: unless it is what the checkpoint
/// copied, start afresh; otherwise hash that many bytes of it.
pub fn after_destination_size(checkpoint: &CopyCheckpoint, dest_size: u64) -> (res: ResumeStep)
    ensures
        res == if dest_size == checkpoint.bytes_copied {
            ResumeStep::HashDestinationPrefix(checkpoint.bytes_copied)
        } else {
            fresh()
        },
{
    if dest_size == checkpoint.bytes_copied {
        ResumeStep::HashDestinationPrefix(checkpoint.bytes_copied)
    } else {
        ResumeStep::Decided { start: 0, checkpoint_valid: false }
    }
}

/// Whether two hashes are equal.
pub fn hashes_equal(a: &Blake3Hash, b: &Blake3Hash) -> (res: bool)
    ensures
        res == (a.0@ == b.0@),
{
    for i in 0..32usize
        invariant
            forall|k: int| 0 <= k < i ==> a.0@[k] == b.0@[k],
    {
        if a.0[i] != b.0[i] {
            return false;
        }
    }
    assert(a.0@ =~= b.0@);
    true
}

/// After hashing the destination's prefix: resume from the checkpoint when
/// the hash is the checkpoint's, else start afresh.
pub fn after_prefix_hash(checkpoint: &CopyCheckpoint, prefix_hash: &Blake3Hash) -> (res: ResumeStep)
    ensures
        res == if prefix_hash.0@ == checkpoint.partial_hash.0@ {
            (ResumeStep::Decided { start: checkpoint.bytes_copied, checkpoint_valid: true })
        } else {
            fresh()
        },
{
    if hashes_equal(prefix_hash, &checkpoint.partial_hash) {
        ResumeStep::Decided { start: checkpoint.bytes_copied, checkpoint_valid: true }
    } else {
        ResumeStep::Decided { start: 0, checkpoint_valid: false }
    }
}

/// Whether an old destination is removed before copying: when starting
/// afresh over an existing file.
pub fn removes_old_destination(start: u64, dest_exists: bool) -> (res: bool)
    ensures
        res == (start == 0 && dest_exists),
{
    start == 0 && dest_exists
}

/// Whether a checkpoint is written after `bytes_copied` bytes, the last
/// one having been written at `last_checkpoint`.
pub fn checkpoint_due(bytes_copied: u64, last_checkpoint: u64) -> (res: bool)
    requires
        last_checkpoint <= bytes_copied,
    ensures
        res == (bytes_copied - last_checkpoint >= CHECKPOINT_INTERVAL),
{
    bytes_copied - last_checkpoint >= CHECKPOINT_INTERVAL
}

/// The report of a finished checkpointed copy: successful and verified
/// exactly when the destination hashes like the source.
pub fn finish_copy(bytes_copied: u64, resumed: bool, source_hash: Blake3Hash, dest_hash: Blake3Hash) -> (res: ResumableResult)
    ensures
        res.bytes_copied == bytes_copied,
        res.resumed == resumed,
        res.source_hash == source_hash,
        res.dest_hash == dest_hash,
        res.success == (source_hash.0@ == dest_hash.0@),
        res.verified == res.success,
        res.success ==> res.error is None,
        !res.success ==> (res.error matches Some(m) && m@ == VERIFY_FAILED@),
{
    let verified = hashes_equal(&source_hash, &dest_hash);
    if verified {
        ResumableResult { success: true, bytes_copied, resumed, verified: true, source_hash, dest_hash, error: None }
    } else {
        ResumableResult {
            success: false,
            bytes_copied,
            resumed,
            verified: false,
            source_hash,
            dest_hash,
            error: Some(VERIFY_FAILED.to_owned()),
        }
    }
}

/// The report of a plain copy of a small file: successful, not resumed,
/// verified when the destination hashes like the source.
pub fn regular_copy_result(bytes_copied: u64, source_hash: Blake3Hash, dest_hash: Blake3Hash) -> (res: ResumableResult)
    ensures
        res.success,
        res.bytes_copied == bytes_copied,
        !res.resumed,
        res.verified == (source_hash.0@ == dest_hash.0@),
        res.source_hash == source_hash,
        res.dest_hash == dest_hash,
        res.error is None,
{
    let verified = hashes_equal(&source_hash, &dest_hash);
    ResumableResult { success: true, bytes_copied, resumed: false, verified, source_hash, dest_hash, error: None }
}

/// What `blake3::hash` gives for `data`: its 32-byte BLAKE3 digest.
pub uninterp spec fn blake3_of(data: Seq<u8>) -> Seq<u8>;

/// The BLAKE3 digest of `data`, by `blake3::hash`. Claimed: the bytes are
/// the named result `blake3_of` of the data.
#[verifier::external_body]
pub(crate) fn blake3_hash(data: &[u8]) -> (res: [u8; 32])
    ensures
        res@ == blake3_of(data@),
{
    *blake3::hash(data).as_bytes()
}

/// The name of the checkpoint file of a copy from `source` to `dest`:
/// `checkpoint_`, the hexadecimal of the first 16 bytes of the BLAKE3 hash
/// of `source->dest` (in UTF-8), and `.json`.
pub fn checkpoint_file_name(source: &str, dest: &str) -> (res: String)
    ensures
        res@ == CHECKPOINT_PREFIX@ + hex_of(
            blake3_of(vstd::utf8::encode_utf8(source@ + PATH_JOINER@ + dest@)).take(16),
        ) + CHECKPOINT_SUFFIX@,
{
    let mut combined = concat_str(source, PATH_JOINER);
    push_str(&mut combined, dest);
    let digest = blake3_hash(combined.as_str().as_bytes());
    let mut first: Vec<u8> = Vec::new();
    for i in 0..16usize
        invariant
            first@ == digest@.take(i as int),
            digest@.len() == 32,
    {
        first.push(digest[i]);
        assert(first@ =~= digest@.take(i + 1));
    }
    let hex = hex_encode(first.as_slice());
    let mut name = concat_str(CHECKPOINT_PREFIX, hex.as_str());
    push_str(&mut name, CHECKPOINT_SUFFIX);
    name
}

impl ResumableCopy {
    pub fn new(checkpoint_dir: String) -> (res: Self)
        ensures
            res.checkpoint_dir == checkpoint_dir,
    {
        ResumableCopy { checkpoint_dir }
    }
}

} // verus!
