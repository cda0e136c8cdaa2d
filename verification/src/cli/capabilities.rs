//! The description of what the command-line tool offers: its commands with
//! their flags, its exit codes, and the schema versions of its output.

use vstd::prelude::*;

verus! {

/// A command of the tool.
#[derive(Debug, Clone)]
pub struct CommandCapability {
    pub name: String,
    pub description: String,
    pub supports_json: bool,
    pub supports_progress: bool,
    pub flags: Vec<String>,
}

/// An exit code of the tool and what it means.
#[derive(Debug, Clone)]
pub struct ExitCodeCapability {
    pub code: i32,
    pub meaning: String,
}

/// What the tool offers.
#[derive(Debug, Clone)]
pub struct CapabilitiesReport {
    pub schema_version: String,
    pub cli_version: String,
    pub scan_json_schema_versions: Vec<String>,
    pub commands: Vec<CommandCapability>,
    pub exit_codes: Vec<ExitCodeCapability>,
    pub notes: Vec<String>,
}

/// Version of this report's schema.
pub const SCHEMA_VERSION: &'static str = "1.0.0";
/// Version of the tool.
pub const CLI_VERSION: &'static str = "0.1.0";
/// Version of the scan command's JSON output schema.
pub const SCAN_JSON_SCHEMA: &'static str = "1.1.0";

pub const CMD_SCAN: &'static str = "scan";
pub const CMD_SYNC: &'static str = "sync";
pub const CMD_COPY: &'static str = "copy";
pub const CMD_DIFF_FILE: &'static str = "diff-file";
pub const CMD_READ: &'static str = "read";
pub const CMD_CAPABILITIES: &'static str = "capabilities";

pub const DESC_SCAN: &'static str = "Scan and compare two directories or supported archives";
pub const DESC_SYNC: &'static str = "Synchronize two directories using comparison results";
pub const DESC_COPY: &'static str = "Copy selected relative paths between left and right directories";
pub const DESC_DIFF_FILE: &'static str = "Compute one file-level diff by mode (text/binary/image/etc)";
pub const DESC_READ: &'static str = "Read one file from a side and export to stdout or --out";
pub const DESC_CAPABILITIES: &'static str = "Print supported commands, flags, schemas, and exit codes";

pub const SCAN_FLAGS: [&'static str; 13] = [
    "--json",
    "--diff-only",
    "--ignore",
    "--follow-symlinks",
    "--verify-hashes/--no-verify-hashes",
    "--columns",
    "--text-diff",
    "--image-diff",
    "--csv-diff",
    "--excel-diff",
    "--json-diff",
    "--yaml-diff",
    "--parquet-diff",
];

pub const SYNC_FLAGS: [&'static str; 8] = [
    "--direction",
    "--dry-run",
    "--delete-mode",
    "--conflict",
    "--ignore",
    "--follow-symlinks",
    "--verify-hashes/--no-verify-hashes",
    "--json",
];

pub const COPY_FLAGS: [&'static str; 5] = ["--direction", "--path", "--paths-file", "--dry-run", "--json"];

pub const DIFF_FILE_FLAGS: [&'static str; 9] = [
    "--path",
    "--mode",
    "--json",
    "--ignore-whitespace",
    "--ignore-case",
    "--regex-rule",
    "--image-exif",
    "--image-tolerance",
    "--max-binary-ranges",
];

pub const READ_FLAGS: [&'static str; 3] = ["--side", "--path", "--out"];

pub const CAPABILITIES_FLAGS: [&'static str; 1] = ["--json"];

pub const EXIT_SUCCESS: &'static str = "Success: no differences found, or non-scan command completed";
pub const EXIT_FAILURE: &'static str = "Failure: invalid input, runtime error, or parse error";
pub const EXIT_DIFFERENCES: &'static str = "Success with differences found (scan command)";

pub const NOTE_PROGRESS: &'static str = "Progress indicators are emitted only when output is not JSON and stderr is a terminal.";
pub const NOTE_SCHEMAS: &'static str = "Scan JSON schema versions are listed in scan_json_schema_versions.";

/// Model of a command: name, description, JSON support, progress support,
/// flags.
pub type CommandModel = (Seq<char>, Seq<char>, bool, bool, Seq<Seq<char>>);

pub open spec fn texts(v: Seq<&str>) -> Seq<Seq<char>> {
    v.map_values(|s: &str| s@)
}

pub open spec fn strings_view(v: Seq<String>) -> Seq<Seq<char>> {
    v.map_values(|s: String| s@)
}

pub open spec fn command_view(c: CommandCapability) -> CommandModel {
    (c.name@, c.description@, c.supports_json, c.supports_progress, strings_view(c.flags@))
}

pub open spec fn commands_view(v: Seq<CommandCapability>) -> Seq<CommandModel> {
    v.map_values(|c: CommandCapability| command_view(c))
}

pub open spec fn exit_codes_view(v: Seq<ExitCodeCapability>) -> Seq<(i32, Seq<char>)> {
    v.map_values(|e: ExitCodeCapability| (e.code, e.meaning@))
}

/// The commands of the tool, in order.
pub open spec fn expected_commands() -> Seq<CommandModel> {
    seq![
        (CMD_SCAN@, DESC_SCAN@, true, true, texts(SCAN_FLAGS@)),
        (CMD_SYNC@, DESC_SYNC@, true, false, texts(SYNC_FLAGS@)),
        (CMD_COPY@, DESC_COPY@, true, false, texts(COPY_FLAGS@)),
        (CMD_DIFF_FILE@, DESC_DIFF_FILE@, true, false, texts(DIFF_FILE_FLAGS@)),
        (CMD_READ@, DESC_READ@, false, false, texts(READ_FLAGS@)),
        (CMD_CAPABILITIES@, DESC_CAPABILITIES@, true, false, texts(CAPABILITIES_FLAGS@)),
    ]
}

/// The exit codes of the tool, in order.
pub open spec fn expected_exit_codes() -> Seq<(i32, Seq<char>)> {
    seq![(0i32, EXIT_SUCCESS@), (1i32, EXIT_FAILURE@), (2i32, EXIT_DIFFERENCES@)]
}

/// Strings holding the given texts.
fn strings_of(names: &[&str]) -> (res: Vec<String>)
    ensures
        strings_view(res@) == texts(names@),
{
    let mut out: Vec<String> = Vec::new();
    let n = names.len();
    for i in 0..n
        invariant
            n == names@.len(),
            strings_view(out@) == texts(names@).take(i as int),
    {
        let s = names[i].to_owned();
        let ghost before = out@;
        out.push(s);
        assert(strings_view(out@) =~= strings_view(before).push(s@));
        assert(strings_view(out@) =~= texts(names@).take(i + 1));
    }
    assert(texts(names@).take(n as int) =~= texts(names@));
    out
}

fn command(name: &str, description: &str, json: bool, progress: bool, flags: &[&str]) -> (res: CommandCapability)
    ensures
        command_view(res) == (name@, description@, json, progress, texts(flags@)),
{
    CommandCapability {
        name: name.to_owned(),
        description: description.to_owned(),
        supports_json: json,
        supports_progress: progress,
        flags: strings_of(flags),
    }
}

/// The description of what the tool offers.
pub fn build_capabilities_report() -> (res: CapabilitiesReport)
    ensures
        res.schema_version@ == SCHEMA_VERSION@,
        res.cli_version@ == CLI_VERSION@,
        strings_view(res.scan_json_schema_versions@) == seq![SCAN_JSON_SCHEMA@],
        commands_view(res.commands@) == expected_commands(),
        exit_codes_view(res.exit_codes@) == expected_exit_codes(),
        strings_view(res.notes@) == seq![NOTE_PROGRESS@, NOTE_SCHEMAS@],
{
    let mut commands: Vec<CommandCapability> = Vec::new();
    commands.push(command(CMD_SCAN, DESC_SCAN, true, true, &SCAN_FLAGS));
    commands.push(command(CMD_SYNC, DESC_SYNC, true, false, &SYNC_FLAGS));
    commands.push(command(CMD_COPY, DESC_COPY, true, false, &COPY_FLAGS));
    commands.push(command(CMD_DIFF_FILE, DESC_DIFF_FILE, true, false, &DIFF_FILE_FLAGS));
    commands.push(command(CMD_READ, DESC_READ, false, false, &READ_FLAGS));
    commands.push(command(CMD_CAPABILITIES, DESC_CAPABILITIES, true, false, &CAPABILITIES_FLAGS));
    assert(commands_view(commands@) =~= expected_commands());
    let mut exit_codes: Vec<ExitCodeCapability> = Vec::new();
    exit_codes.push(ExitCodeCapability { code: 0, meaning: EXIT_SUCCESS.to_owned() });
    exit_codes.push(ExitCodeCapability { code: 1, meaning: EXIT_FAILURE.to_owned() });
    exit_codes.push(ExitCodeCapability { code: 2, meaning: EXIT_DIFFERENCES.to_owned() });
    assert(exit_codes_view(exit_codes@) =~= expected_exit_codes());
    let mut schemas: Vec<String> = Vec::new();
    schemas.push(SCAN_JSON_SCHEMA.to_owned());
    assert(strings_view(schemas@) =~= seq![SCAN_JSON_SCHEMA@]);
    let mut notes: Vec<String> = Vec::new();
    notes.push(NOTE_PROGRESS.to_owned());
    notes.push(NOTE_SCHEMAS.to_owned());
    assert(strings_view(notes@) =~= seq![NOTE_PROGRESS@, NOTE_SCHEMAS@]);
    CapabilitiesReport {
        schema_version: SCHEMA_VERSION.to_owned(),
        cli_version: CLI_VERSION.to_owned(),
        scan_json_schema_versions: schemas,
        commands,
        exit_codes,
        notes,
    }
}

} // verus!
