//! Logic of the command-line tool that does not touch the file system:
//! its self-description, choosing and trimming file diffs, and the scan
//! report.

pub mod capabilities;
pub mod diff_file;
pub mod scan_report;
pub mod copy_paths;
