//! Recognising file kinds by their extension (compared in lowercase) or
//! by their name, and choosing how to compare a file.

use crate::paths::{extension, file_name, path_extension, path_file_name};
use crate::text::{ends_with, lowercase_of, one_of, string_from_chars, to_lowercase};
use vstd::prelude::*;

verus! {

/// Whether the extension of `path`, in lowercase, is one of `names`.
pub open spec fn extension_in(path: Seq<char>, names: Seq<&str>) -> bool {
    match extension(path) {
        Some(e) => exists|i: int| 0 <= i < names.len() && (#[trigger] names[i])@ == lowercase_of(e),
        None => false,
    }
}

/// Whether the extension of `path`, in lowercase, is one of `names`.
pub fn has_extension_in(path: &str, names: &[&str]) -> (res: bool)
    ensures
        res == extension_in(path@, names@),
{
    match path_extension(path) {
        Some(e) => {
            let ext = string_from_chars(e.as_slice());
            let lower = to_lowercase(ext.as_str());
            one_of(lower.as_str(), names)
        },
        None => false,
    }
}

/// Extensions of text files.
pub const TEXT_EXTENSIONS: [&'static str; 46] = [
    "txt", "md", "markdown", "rst", "log", "rs", "toml", "yaml", "yml", "json", "xml", "html",
    "htm", "css", "js", "ts", "tsx", "jsx", "c", "cpp", "cc", "cxx", "h", "hpp", "hxx", "cs",
    "java", "py", "rb", "go", "php", "pl", "sh", "bash", "zsh", "fish", "sql", "conf", "cfg",
    "ini", "properties", "cmake", "make", "dockerfile", "gitignore", "gitattributes",
];

/// Extensions of Parquet files.
pub const PARQUET_EXTENSIONS: [&'static str; 2] = ["parquet", "pq"];

/// Whether a file is likely a text file, by its extension.
pub fn is_text_file(path: &str) -> (res: bool)
    ensures
        res == extension_in(path@, TEXT_EXTENSIONS@),
{
    has_extension_in(path, &TEXT_EXTENSIONS)
}

/// Whether a file is a Parquet file, by its extension.
pub fn is_parquet_file(path: &str) -> (res: bool)
    ensures
        res == extension_in(path@, PARQUET_EXTENSIONS@),
{
    has_extension_in(path, &PARQUET_EXTENSIONS)
}

/// Kind of an archive a scan can read.
#[derive(Debug, Clone, Copy, PartialEq, Eq, Structural)]
pub enum ArchiveKind {
    Zip,
    Tar,
    SevenZ,
}

/// The archive kind a lowercase file name ends with.
pub open spec fn archive_kind_of(name: Seq<char>) -> Option<ArchiveKind> {
    if ends_with(name, ".zip"@) {
        Some(ArchiveKind::Zip)
    } else if ends_with(name, ".tar"@) || ends_with(name, ".tar.gz"@) || ends_with(name, ".tgz"@) {
        Some(ArchiveKind::Tar)
    } else if ends_with(name, ".7z"@) {
        Some(ArchiveKind::SevenZ)
    } else {
        None
    }
}

/// The archive kind a file name (already in lowercase) ends with.
pub fn archive_kind_of_name(name: &str) -> (res: Option<ArchiveKind>)
    ensures
        res == archive_kind_of(name@),
{
    let cs = crate::text::chars_of(name);
    if crate::text::has_suffix(cs.as_slice(), crate::text::chars_of(".zip").as_slice()) {
        Some(ArchiveKind::Zip)
    } else if crate::text::has_suffix(cs.as_slice(), crate::text::chars_of(".tar").as_slice())
        || crate::text::has_suffix(cs.as_slice(), crate::text::chars_of(".tar.gz").as_slice())
        || crate::text::has_suffix(cs.as_slice(), crate::text::chars_of(".tgz").as_slice()) {
        Some(ArchiveKind::Tar)
    } else if crate::text::has_suffix(cs.as_slice(), crate::text::chars_of(".7z").as_slice()) {
        Some(ArchiveKind::SevenZ)
    } else {
        None
    }
}

/// The archive kind of a path, from its file name in lowercase.
pub fn detect_archive_kind(path: &str) -> (res: Option<ArchiveKind>)
    ensures
        res == match file_name(path@) {
            Some(n) => archive_kind_of(lowercase_of(n)),
            None => None,
        },
{
    match path_file_name(path) {
        Some(n) => {
            let name = string_from_chars(n.as_slice());
            let lower = to_lowercase(name.as_str());
            archive_kind_of_name(lower.as_str())
        },
        None => None,
    }
}

} // verus!
