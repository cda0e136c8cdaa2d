//! Decisions of file operations (copy, move, delete, timestamp sync): what
//! a dry run reports, when a verified copy is retried or given up, which
//! rename failures fall back to copy and delete, and which files a
//! bidirectional synchronisation copies where. The caller touches the file
//! system and reports back at each step.

use crate::resumable_copy::hashes_equal;
use crate::text::{decimal, push_decimal, push_str, string_from_chars, chars_of};
use crate::types::{Blake3Hash, FileEntry, FileEntryModel};
use vstd::prelude::*;

verus! {

/// File operation types.
#[derive(Debug, Clone, Copy, PartialEq, Eq, Structural)]
pub enum FileOperation {
    Copy,
    Move,
    Delete,
    TouchTimestamp,
}

/// Result of a file operation.
#[derive(Debug, Clone)]
pub struct OperationResult {
    pub source: String,
    pub destination: Option<String>,
    pub operation: FileOperation,
    pub success: bool,
    pub error: Option<String>,
    pub bytes_processed: u64,
    /// Source file hash (if verification was enabled).
    pub source_hash: Option<Blake3Hash>,
    /// Destination file hash (if verification was enabled).
    pub dest_hash: Option<Blake3Hash>,
    /// Whether the copy was verified successfully.
    pub verified: bool,
    /// Number of retry attempts made (if verification failed).
    pub retries: u32,
}

/// An operation result with its texts as character sequences.
pub struct OperationModel {
    pub source: Seq<char>,
    pub destination: Option<Seq<char>>,
    pub operation: FileOperation,
    pub success: bool,
    pub error: Option<Seq<char>>,
    pub bytes_processed: u64,
    pub source_hash: Option<Blake3Hash>,
    pub dest_hash: Option<Blake3Hash>,
    pub verified: bool,
    pub retries: u32,
}

/// The character sequence of an optional string.
pub open spec fn opt_text(s: Option<String>) -> Option<Seq<char>> {
    match s {
        Some(t) => Some(t@),
        None => None,
    }
}

/// The character sequence of an optional string slice.
pub open spec fn opt_str(s: Option<&str>) -> Option<Seq<char>> {
    match s {
        Some(t) => Some(t@),
        None => None,
    }
}

impl View for OperationResult {
    type V = OperationModel;

    open spec fn view(&self) -> OperationModel {
        OperationModel {
            source: self.source@,
            destination: opt_text(self.destination),
            operation: self.operation,
            success: self.success,
            error: opt_text(self.error),
            bytes_processed: self.bytes_processed,
            source_hash: self.source_hash,
            dest_hash: self.dest_hash,
            verified: self.verified,
            retries: self.retries,
        }
    }
}

/// A successful operation on `source` (and `dest`) over `bytes` bytes,
/// unverified and without hashes.
pub open spec fn plain_outcome(op: FileOperation, source: Seq<char>, dest: Option<Seq<char>>, bytes: u64) -> OperationModel {
    OperationModel {
        source,
        destination: dest,
        operation: op,
        success: true,
        error: None,
        bytes_processed: bytes,
        source_hash: None,
        dest_hash: None,
        verified: false,
        retries: 0,
    }
}

/// File operations engine.
pub struct FileOperations {
    dry_run: bool,
    use_trash: bool,
    verify_copies: bool,
    max_retries: u32,
}

/// How a copy begins.
#[derive(Debug, Clone, Copy, PartialEq, Eq, Structural)]
pub enum CopyStart {
    /// Nothing is touched: report the dry run.
    DryRun,
    /// Create the destination's directory, hash the source, then copy.
    HashSourceThenCopy,
    /// Create the destination's directory, then copy.
    Copy,
}

/// What follows a copy attempt.
pub enum CopyStep {
    /// The copy is over, with this result.
    Done(OperationResult),
    /// Remove the destination and copy again; this many retries were made.
    Retry(u32),
}

/// A file a bidirectional synchronisation copies: from the left side when
/// `from_left`, else from the right, with the paths relative to each root.
#[derive(Debug, Clone)]
pub struct PlannedCopy {
    pub from_left: bool,
    pub source: String,
    pub dest: String,
}

pub const NONE_TEXT: &'static str = "None";
pub const HASH_OPEN: &'static str = "Some(Blake3Hash([";
pub const HASH_CLOSE: &'static str = "]))";
pub const LIST_SEP: &'static str = ", ";
pub const MISMATCH_OPEN: &'static str = "Hash mismatch after ";
pub const MISMATCH_SOURCE: &'static str = " retries (source: ";
pub const MISMATCH_DEST: &'static str = ", dest: ";
pub const MISMATCH_CLOSE: &'static str = ")";

/// The error number of a rename across file systems (`EXDEV` on Unix).
pub const CROSS_DEVICE_ERROR: i32 = 18;

/// Hashes of files above this size are read in large buffers.
pub const LARGE_FILE_SIZE: u64 = 10 * 1024 * 1024;

pub const LARGE_BUFFER: usize = 1024 * 1024;
pub const SMALL_BUFFER: usize = 64 * 1024;

/// The bytes as decimal numbers separated by `", "`.
pub open spec fn byte_list(s: Seq<u8>) -> Seq<char>
    decreases s.len(),
{
    if s.len() == 0 {
        Seq::empty()
    } else if s.len() == 1 {
        decimal(s[0] as nat)
    } else {
        byte_list(s.drop_last()) + LIST_SEP@ + decimal(s.last() as nat)
    }
}

/// An optional hash as its debug text: `None`, or
/// `Some(Blake3Hash([b0, b1, ...]))`.
pub open spec fn hash_debug(h: Option<Blake3Hash>) -> Seq<char> {
    match h {
        Some(x) => HASH_OPEN@ + byte_list(x.0@) + HASH_CLOSE@,
        None => NONE_TEXT@,
    }
}

/// The message of a verified copy given up after `retries` retries.
pub open spec fn mismatch_message(retries: u32, source: Option<Blake3Hash>, dest: Option<Blake3Hash>) -> Seq<char> {
    MISMATCH_OPEN@ + decimal(retries as nat) + MISMATCH_SOURCE@ + hash_debug(source) + MISMATCH_DEST@
        + hash_debug(dest) + MISMATCH_CLOSE@
}

/// The copies a bidirectional synchronisation makes: for a file on both
/// sides, from the newer side to the other (none when equally old); for a
/// file only on the left, to the right under the same path.
pub open spec fn bidirectional_plan(files: Seq<(FileEntryModel, Option<FileEntryModel>)>) -> Seq<(bool, Seq<char>, Seq<char>)>
    decreases files.len(),
{
    if files.len() == 0 {
        Seq::empty()
    } else {
        let prev = bidirectional_plan(files.drop_last());
        let (l, r) = files.last();
        match r {
            Some(re) => if l.modified > re.modified {
                prev.push((true, l.path, re.path))
            } else if re.modified > l.modified {
                prev.push((false, re.path, l.path))
            } else {
                prev
            },
            None => prev.push((true, l.path, l.path)),
        }
    }
}

/// The models of a list of file pairs.
pub open spec fn pairs_model(v: Seq<(FileEntry, Option<FileEntry>)>) -> Seq<(FileEntryModel, Option<FileEntryModel>)> {
    v.map_values(|p: (FileEntry, Option<FileEntry>)| (p.0@, crate::types::opt_entry_view(p.1)))
}

/// The models of planned copies.
pub open spec fn copies_model(v: Seq<PlannedCopy>) -> Seq<(bool, Seq<char>, Seq<char>)> {
    v.map_values(|c: PlannedCopy| (c.from_left, c.source@, c.dest@))
}

/// A new `String` with the characters of `s`.
fn owned(s: &str) -> (res: String)
    ensures
        res@ == s@,
{
    string_from_chars(chars_of(s).as_slice())
}

/// Appends the bytes as decimal numbers separated by `", "`.
fn push_byte_list(s: &mut String, bytes: &[u8; 32])
    ensures
        final(s)@ == old(s)@ + byte_list(bytes@),
{
    let ghost start = s@;
    for i in 0..32usize
        invariant
            bytes@.len() == 32,
            s@ == start + byte_list(bytes@.take(i as int)),
    {
        let ghost before = s@;
        if i > 0 {
            push_str(s, LIST_SEP);
        }
        push_decimal(s, bytes[i] as usize);
        proof {
            let t = bytes@.take(i + 1);
            assert(t.drop_last() =~= bytes@.take(i as int));
            assert(t.last() == bytes@[i as int]);
            if i == 0 {
                assert(bytes@.take(0) =~= Seq::<u8>::empty());
                assert(s@ =~= start + byte_list(t));
            } else {
                assert(s@ =~= start + byte_list(t));
            }
        }
    }
    assert(bytes@.take(32) =~= bytes@);
}

/// Appends the debug text of an optional hash.
fn push_hash_debug(s: &mut String, h: &Option<Blake3Hash>)
    ensures
        final(s)@ == old(s)@ + hash_debug(*h),
{
    match h {
        Some(x) => {
            let ghost start = s@;
            push_str(s, HASH_OPEN);
            push_byte_list(s, &x.0);
            push_str(s, HASH_CLOSE);
            assert(s@ =~= start + (HASH_OPEN@ + byte_list(x.0@) + HASH_CLOSE@));
        },
        None => push_str(s, NONE_TEXT),
    }
}

/// The message of a verified copy given up after `retries` retries.
fn mismatch_text(retries: u32, source: &Option<Blake3Hash>, dest: &Option<Blake3Hash>) -> (res: String)
    ensures
        res@ == mismatch_message(retries, *source, *dest),
{
    let mut m = owned(MISMATCH_OPEN);
    push_decimal(&mut m, retries as usize);
    push_str(&mut m, MISMATCH_SOURCE);
    push_hash_debug(&mut m, source);
    push_str(&mut m, MISMATCH_DEST);
    push_hash_debug(&mut m, dest);
    push_str(&mut m, MISMATCH_CLOSE);
    m
}

/// A new optional `String` with the characters of `s`.
fn owned_opt(s: Option<&str>) -> (res: Option<String>)
    ensures
        opt_text(res) == opt_str(s),
{
    match s {
        Some(t) => Some(owned(t)),
        None => None,
    }
}

impl FileOperations {
    /// Whether operations only report what they would do.
    pub closed spec fn is_dry_run(&self) -> bool {
        self.dry_run
    }

    /// Whether deletions move files to the trash.
    pub closed spec fn uses_trash(&self) -> bool {
        self.use_trash
    }

    /// Whether copies are verified by hashing.
    pub closed spec fn verifies_copies(&self) -> bool {
        self.verify_copies
    }

    /// How many failed verifications end a copy.
    pub closed spec fn retry_limit(&self) -> u32 {
        self.max_retries
    }

    pub fn new(dry_run: bool, use_trash: bool) -> (res: Self)
        ensures
            res.is_dry_run() == dry_run,
            res.uses_trash() == use_trash,
            !res.verifies_copies(),
            res.retry_limit() == 0,
    {
        FileOperations { dry_run, use_trash, verify_copies: false, max_retries: 0 }
    }

    pub fn with_verification(dry_run: bool, use_trash: bool, verify: bool, max_retries: u32) -> (res: Self)
        ensures
            res.is_dry_run() == dry_run,
            res.uses_trash() == use_trash,
            res.verifies_copies() == verify,
            res.retry_limit() == max_retries,
    {
        FileOperations { dry_run, use_trash, verify_copies: verify, max_retries }
    }

    /// Whether operations only report what they would do.
    pub fn dry_run(&self) -> (res: bool)
        ensures
            res == self.is_dry_run(),
    {
        self.dry_run
    }

    /// Whether deletions move files to the trash.
    pub fn use_trash(&self) -> (res: bool)
        ensures
            res == self.uses_trash(),
    {
        self.use_trash
    }

    /// What a dry run reports for an operation: success, nothing processed.
    pub fn dry_run_result(op: FileOperation, source: &str, dest: Option<&str>) -> (res: OperationResult)
        ensures
            res@ == plain_outcome(op, source@, opt_str(dest), 0),
    {
        OperationResult {
            source: owned(source),
            destination: owned_opt(dest),
            operation: op,
            success: true,
            error: None,
            bytes_processed: 0,
            source_hash: None,
            dest_hash: None,
            verified: false,
            retries: 0,
        }
    }

    /// How a copy begins: a dry run touches nothing; a verified copy hashes
    /// the source first.
    pub fn copy_start(&self) -> (res: CopyStart)
        ensures
            res == if self.is_dry_run() {
                CopyStart::DryRun
            } else if self.verifies_copies() {
                CopyStart::HashSourceThenCopy
            } else {
                CopyStart::Copy
            },
    {
        if self.dry_run {
            CopyStart::DryRun
        } else if self.verify_copies {
            CopyStart::HashSourceThenCopy
        } else {
            CopyStart::Copy
        }
    }

    /// After copy attempt number `retries + 1` wrote `bytes` bytes (and,
    /// when copies are verified, the source and destination were hashed):
    /// an unverified copy is done; a verified one is done when the hashes
    /// agree, is retried while fewer than the limit of retries were made,
    /// and fails with the hashes in its message once the limit is reached.
    pub fn after_copy(
        &self,
        source: &str,
        dest: &str,
        bytes: u64,
        hashes: Option<(Blake3Hash, Blake3Hash)>,
        retries: u32,
    ) -> (res: CopyStep)
        requires
            hashes is Some <==> self.verifies_copies(),
            retries < u32::MAX,
        ensures
            match hashes {
                None => res matches CopyStep::Done(r) && r@ == plain_outcome(
                    FileOperation::Copy,
                    source@,
                    Some(dest@),
                    bytes,
                ),
                Some((sh, dh)) => if sh.0@ == dh.0@ {
                    res matches CopyStep::Done(r) && r@ == (OperationModel {
                        verified: true,
                        source_hash: Some(sh),
                        dest_hash: Some(dh),
                        retries,
                        ..plain_outcome(FileOperation::Copy, source@, Some(dest@), bytes)
                    })
                } else if retries + 1 >= self.retry_limit() {
                    res matches CopyStep::Done(r) && r@ == (OperationModel {
                        success: false,
                        error: Some(mismatch_message((retries + 1) as u32, Some(sh), Some(dh))),
                        source_hash: Some(sh),
                        dest_hash: Some(dh),
                        retries: (retries + 1) as u32,
                        ..plain_outcome(FileOperation::Copy, source@, Some(dest@), bytes)
                    })
                } else {
                    res == CopyStep::Retry((retries + 1) as u32)
                },
            },
    {
        match hashes {
            None => CopyStep::Done(
                OperationResult {
                    source: owned(source),
                    destination: Some(owned(dest)),
                    operation: FileOperation::Copy,
                    success: true,
                    error: None,
                    bytes_processed: bytes,
                    source_hash: None,
                    dest_hash: None,
                    verified: false,
                    retries: 0,
                },
            ),
            Some((sh, dh)) => {
                if hashes_equal(&sh, &dh) {
                    CopyStep::Done(
                        OperationResult {
                            source: owned(source),
                            destination: Some(owned(dest)),
                            operation: FileOperation::Copy,
                            success: true,
                            error: None,
                            bytes_processed: bytes,
                            source_hash: Some(sh),
                            dest_hash: Some(dh),
                            verified: true,
                            retries,
                        },
                    )
                } else {
                    let r = retries + 1;
                    if r >= self.max_retries {
                        let msg = mismatch_text(r, &Some(sh), &Some(dh));
                        CopyStep::Done(
                            OperationResult {
                                source: owned(source),
                                destination: Some(owned(dest)),
                                operation: FileOperation::Copy,
                                success: false,
                                error: Some(msg),
                                bytes_processed: bytes,
                                source_hash: Some(sh),
                                dest_hash: Some(dh),
                                verified: false,
                                retries: r,
                            },
                        )
                    } else {
                        CopyStep::Retry(r)
                    }
                }
            },
        }
    }

    /// Whether a failed rename with this error number is retried as a copy
    /// followed by a delete: only across file systems.
    pub fn is_cross_device(code: Option<i32>) -> (res: bool)
        ensures
            res == (code == Some(CROSS_DEVICE_ERROR)),
    {
        match code {
            Some(c) => c == CROSS_DEVICE_ERROR,
            None => false,
        }
    }

    /// The result of a file of `bytes` bytes moved from `source` to `dest`.
    pub fn moved(source: &str, dest: &str, bytes: u64) -> (res: OperationResult)
        ensures
            res@ == plain_outcome(FileOperation::Move, source@, Some(dest@), bytes),
    {
        OperationResult {
            source: owned(source),
            destination: Some(owned(dest)),
            operation: FileOperation::Move,
            success: true,
            error: None,
            bytes_processed: bytes,
            source_hash: None,
            dest_hash: None,
            verified: false,
            retries: 0,
        }
    }

    /// The result of deleting (or moving to the trash) a file of `bytes`
    /// bytes.
    pub fn deleted(path: &str, bytes: u64) -> (res: OperationResult)
        ensures
            res@ == plain_outcome(FileOperation::Delete, path@, None, bytes),
    {
        OperationResult {
            source: owned(path),
            destination: None,
            operation: FileOperation::Delete,
            success: true,
            error: None,
            bytes_processed: bytes,
            source_hash: None,
            dest_hash: None,
            verified: false,
            retries: 0,
        }
    }

    /// The result of giving `dest` the modification time of `source`.
    pub fn touched(source: &str, dest: &str) -> (res: OperationResult)
        ensures
            res@ == plain_outcome(FileOperation::TouchTimestamp, source@, Some(dest@), 0),
    {
        OperationResult {
            source: owned(source),
            destination: Some(owned(dest)),
            operation: FileOperation::TouchTimestamp,
            success: true,
            error: None,
            bytes_processed: 0,
            source_hash: None,
            dest_hash: None,
            verified: false,
            retries: 0,
        }
    }

    /// The result of an operation that failed with `error`.
    pub fn failed(op: FileOperation, source: &str, dest: Option<&str>, error: &str) -> (res: OperationResult)
        ensures
            res@ == (OperationModel { success: false, error: Some(error@), ..plain_outcome(op, source@, opt_str(dest), 0) }),
    {
        OperationResult {
            source: owned(source),
            destination: owned_opt(dest),
            operation: op,
            success: false,
            error: Some(owned(error)),
            bytes_processed: 0,
            source_hash: None,
            dest_hash: None,
            verified: false,
            retries: 0,
        }
    }

    /// The size of the buffer a file of `file_size` bytes is hashed with.
    pub fn hash_buffer_size(file_size: u64) -> (res: usize)
        ensures
            res == if file_size > LARGE_FILE_SIZE {
                LARGE_BUFFER
            } else {
                SMALL_BUFFER
            },
    {
        if file_size > LARGE_FILE_SIZE {
            LARGE_BUFFER
        } else {
            SMALL_BUFFER
        }
    }

    /// The copies a bidirectional synchronisation of `files` makes, in
    /// order: for a file on both sides, from the newer side to the other
    /// (none when equally old); for a file only on the left, to the right.
    pub fn plan_bidirectional(files: &Vec<(FileEntry, Option<FileEntry>)>) -> (res: Vec<PlannedCopy>)
        ensures
            copies_model(res@) == bidirectional_plan(pairs_model(files@)),
    {
        let n = files.len();
        let ghost fm = pairs_model(files@);
        let mut out: Vec<PlannedCopy> = Vec::new();
        for i in 0..n
            invariant
                n == files@.len(),
                fm == pairs_model(files@),
                copies_model(out@) == bidirectional_plan(fm.take(i as int)),
        {
            proof {
                assert(fm.take(i + 1).drop_last() =~= fm.take(i as int));
                assert(fm.take(i + 1).last() == fm[i as int]);
            }
            let ghost before = copies_model(out@);
            let l = &files[i].0;
            match &files[i].1 {
                Some(r) => {
                    if l.modified > r.modified {
                        out.push(PlannedCopy { from_left: true, source: owned(l.path.as_str()), dest: owned(r.path.as_str()) });
                        assert(copies_model(out@) =~= before.push((true, l.path@, r.path@)));
                    } else if r.modified > l.modified {
                        out.push(PlannedCopy { from_left: false, source: owned(r.path.as_str()), dest: owned(l.path.as_str()) });
                        assert(copies_model(out@) =~= before.push((false, r.path@, l.path@)));
                    }
                },
                None => {
                    out.push(PlannedCopy { from_left: true, source: owned(l.path.as_str()), dest: owned(l.path.as_str()) });
                    assert(copies_model(out@) =~= before.push((true, l.path@, l.path@)));
                },
            }
        }
        assert(fm.take(n as int) =~= fm);
        out
    }
}

} // verus!
