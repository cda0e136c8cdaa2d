//! Shared data types: file entries, comparison nodes and statuses, cache
//! keys, configuration, and the results of a three-way merge.
//!
//! Paths are held as text and modification times as signed nanoseconds
//! since the Unix epoch (negative before it).

use vstd::prelude::*;

verus! {

/// A file or directory entry.
#[derive(Debug, Clone)]
pub struct FileEntry {
    pub path: String,
    pub size: u64,
    /// Modification time, in nanoseconds since the Unix epoch.
    pub modified: i128,
    pub is_dir: bool,
}

/// The parts of a [`FileEntry`] that the comparison rules read, with the
/// path as a character sequence.
pub struct FileEntryModel {
    pub path: Seq<char>,
    pub size: u64,
    pub modified: i128,
    pub is_dir: bool,
}

impl View for FileEntry {
    type V = FileEntryModel;

    open spec fn view(&self) -> FileEntryModel {
        FileEntryModel { path: self.path@, size: self.size, modified: self.modified, is_dir: self.is_dir }
    }
}

/// The optional entry as an optional model.
pub open spec fn opt_entry_view(e: Option<FileEntry>) -> Option<FileEntryModel> {
    match e {
        Some(x) => Some(x@),
        None => None,
    }
}

impl FileEntry {
    /// A copy of this entry.
    pub fn duplicate(&self) -> (res: Self)
        ensures
            res@ == self@,
    {
        FileEntry {
            path: crate::text::string_from_chars(crate::text::chars_of(self.path.as_str()).as_slice()),
            size: self.size,
            modified: self.modified,
            is_dir: self.is_dir,
        }
    }
}

/// A copy of an optional entry.
pub fn duplicate_opt(e: &Option<FileEntry>) -> (res: Option<FileEntry>)
    ensures
        opt_entry_view(res) == opt_entry_view(*e),
{
    match e {
        Some(x) => Some(x.duplicate()),
        None => None,
    }
}

/// Metadata for a file or directory.
#[derive(Debug, Clone, Copy)]
pub struct FileMetadata {
    pub size: u64,
    /// Modification time, in nanoseconds since the Unix epoch.
    pub modified: i128,
    pub is_dir: bool,
    pub is_symlink: bool,
}

/// Status of a file comparison.
#[derive(Debug, Clone, Copy, PartialEq, Eq, Structural)]
pub enum DiffStatus {
    /// Files are identical.
    Same,
    /// Files differ in content.
    Different,
    /// File exists only on the left side.
    OrphanLeft,
    /// File exists only on the right side.
    OrphanRight,
    /// Files have the same size but have not been fully compared yet.
    Unchecked,
}

/// A node of the diff tree, aligning the files of the left and right sides.
#[derive(Debug, Clone)]
pub struct DiffNode {
    pub relative_path: String,
    pub left: Option<FileEntry>,
    pub right: Option<FileEntry>,
    pub status: DiffStatus,
}

/// Status of a three-way file comparison.
#[derive(Debug, Clone, Copy, PartialEq, Eq, Structural)]
pub enum ThreeWayDiffStatus {
    /// All three versions are identical.
    AllSame,
    /// Left differs from base (right same as base).
    LeftChanged,
    /// Right differs from base (left same as base).
    RightChanged,
    /// Both left and right differ from base.
    BothChanged,
    /// File exists only in base.
    BaseOnly,
    /// File exists only in left.
    LeftOnly,
    /// File exists only in right.
    RightOnly,
    /// File exists in left and right but not base.
    BothAdded,
    /// File exists in base and left only.
    BaseAndLeft,
    /// File exists in base and right only.
    BaseAndRight,
}

/// A node of a three-way diff tree.
#[derive(Debug, Clone)]
pub struct ThreeWayDiffNode {
    pub relative_path: String,
    pub base: Option<FileEntry>,
    pub left: Option<FileEntry>,
    pub right: Option<FileEntry>,
    pub status: ThreeWayDiffStatus,
}

/// Hash result for a file.
#[derive(Debug, Clone)]
pub struct FileHash {
    pub full_hash: Option<String>,
    pub partial_hash: Option<String>,
}

/// Key of the hash cache: a file's path, modification time and size.
#[derive(Debug, Clone)]
pub struct CacheKey {
    pub path: String,
    /// Modification time, in nanoseconds since the Unix epoch.
    pub modified: i128,
    pub size: u64,
}

/// A saved session profile for quick-loading comparisons.
#[derive(Debug, Clone)]
pub struct SessionProfile {
    /// Profile name.
    pub name: String,
    /// Left path for comparison.
    pub left_path: String,
    /// Right path for comparison.
    pub right_path: String,
    /// Custom ignore patterns for this profile.
    pub ignore_patterns: Vec<String>,
    /// Last time this profile was used (Unix timestamp).
    pub last_used: u64,
}

/// Application configuration.
#[derive(Debug, Clone)]
pub struct AppConfig {
    /// Ignore patterns (e.g., "*.o", "node_modules/").
    pub ignore_patterns: Vec<String>,
    /// Whether to follow symbolic links.
    pub follow_symlinks: bool,
    /// Whether to use hash verification.
    pub use_hash_verification: bool,
    /// Cache directory.
    pub cache_dir: Option<String>,
    /// Enable portable mode (config alongside binary).
    pub portable_mode: bool,
    /// Saved session profiles.
    pub profiles: Vec<SessionProfile>,
}

impl Default for AppConfig {
    fn default() -> (res: Self)
        ensures
            res.ignore_patterns@.len() == 0,
            !res.follow_symlinks,
            !res.use_hash_verification,
            res.cache_dir is None,
            !res.portable_mode,
            res.profiles@.len() == 0,
    {
        AppConfig {
            ignore_patterns: Vec::new(),
            follow_symlinks: false,
            use_hash_verification: false,
            cache_dir: None,
            portable_mode: false,
            profiles: Vec::new(),
        }
    }
}

/// A loaded configuration with where it lives.
#[derive(Debug, Clone)]
pub struct LoadedConfig {
    pub config: AppConfig,
    pub path: String,
    pub exists: bool,
    pub portable: bool,
}

/// The version number (bits 76 to 79) of a UUID given as a `u128`.
pub open spec fn uuid_version(bits: u128) -> u128 {
    (bits / 0x1_0000_0000_0000_0000_000) % 16
}

/// The variant (bits 62 and 63) of a UUID given as a `u128`.
pub open spec fn uuid_variant(bits: u128) -> u128 {
    (bits / 0x4000_0000_0000_0000) % 4
}

/// A random UUID by `uuid::Uuid::new_v4`, as its 128 bits
/// (`Uuid::as_u128`). Claimed: it is a version 4 UUID of the RFC 4122
/// variant; its other bits are random and nothing is claimed of them.
#[verifier::external_body]
fn random_uuid_v4() -> (res: u128)
    ensures
        uuid_version(res) == 4,
        uuid_variant(res) == 2,
{
    uuid::Uuid::new_v4().as_u128()
}

/// A session identifier: a random (version 4) UUID, held as its 128 bits.
#[derive(Debug, Clone, Copy, PartialEq, Eq, Structural)]
pub struct SessionId(pub u128);

impl SessionId {
    /// A new random session identifier.
    pub fn new() -> (res: Self)
        ensures
            uuid_version(res.0) == 4,
            uuid_variant(res.0) == 2,
    {
        SessionId(random_uuid_v4())
    }
}

impl Default for SessionId {
    fn default() -> (res: Self)
        ensures
            uuid_version(res.0) == 4,
            uuid_variant(res.0) == 2,
    {
        Self::new()
    }
}

/// BLAKE3 hash value (32 bytes).
#[derive(Debug, Clone, Copy, PartialEq, Eq, Hash)]
pub struct Blake3Hash(pub [u8; 32]);

impl Blake3Hash {
    /// The bytes of the hash.
    pub fn as_bytes(&self) -> (res: &[u8; 32])
        ensures
            res == &self.0,
    {
        &self.0
    }

    /// The hash as lowercase hexadecimal text.
    pub fn to_hex(&self) -> (res: String)
        ensures
            res@ == crate::binary_diff::hex_of(self.0@),
    {
        crate::binary_diff::hex_encode(&self.0)
    }
}

/// Kind of a merge conflict.
#[derive(Debug, Clone, Copy, PartialEq, Eq, Structural)]
pub enum ConflictType {
    /// One side holds a directory where another holds a file.
    TypeConflict,
    /// Both sides modified the file differently.
    BothModified,
    /// Both sides added the file with different content.
    BothAdded,
    /// One side modified the file, the other deleted it.
    ModifyDelete,
}

/// How a merged path is resolved.
#[derive(Debug, Clone, Copy, PartialEq, Eq, Structural)]
pub enum MergeResolution {
    UseBase,
    UseLeft,
    UseRight,
    AutoMerged,
    ManualRequired,
}

/// Which version a resolved path takes.
#[derive(Debug, Clone, Copy, PartialEq, Eq, Structural)]
pub enum MergeSource {
    Base,
    Left,
    Right,
    Merged,
}

/// A conflict that needs a manual decision.
#[derive(Debug, Clone)]
pub struct MergeConflict {
    pub path: String,
    pub conflict_type: ConflictType,
    pub base: Option<FileEntry>,
    pub left: Option<FileEntry>,
    pub right: Option<FileEntry>,
}

/// The outcome of merging one path.
#[derive(Debug, Clone)]
pub struct MergeResult {
    pub path: String,
    pub resolution: MergeResolution,
    pub conflict: Option<MergeConflict>,
    pub resolved_source: Option<MergeSource>,
}

/// Whether a loaded configuration must be written out before use: when
/// no file held it yet, so that the defaults it holds are saved.
pub fn ensure_config(loaded: &LoadedConfig) -> (res: bool)
    ensures
        res == !loaded.exists,
{
    !loaded.exists
}

/// A non-fatal problem met while scanning (a vanished file, a denied
/// directory), with the path it concerns.
#[derive(Debug, Clone)]
pub struct ScanWarning {
    pub path: String,
    pub message: String,
}

/// What a scan found: its entries and any warnings.
#[derive(Debug)]
pub struct ScanOutcome {
    pub entries: Vec<FileEntry>,
    pub warnings: Vec<ScanWarning>,
}

impl Default for ScanOutcome {
    fn default() -> (res: Self)
        ensures
            res.entries@.len() == 0,
            res.warnings@.len() == 0,
    {
        ScanOutcome { entries: Vec::new(), warnings: Vec::new() }
    }
}

} // verus!
