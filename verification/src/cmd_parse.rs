//! A conservative risk classifier for shell commands: only recognised
//! read-only verbs skip operator confirmation, everything else asks for it.

use crate::text::{
    contains_char, contains_char_from, has_prefix_str, lemma_trim_start_contains, starts_with,
    str_chars, trim_start_bound, trim_start_spec,
};
use vstd::prelude::*;

verus! {

/// The risk class of a command: `Read` runs without confirmation, `Write`
/// and `Unknown` require the operator's approval.
#[derive(Debug, PartialEq, Eq, Structural)]
pub enum CmdKind {
    Read,
    Write,
    Unknown,
}

/// The module-import prefix that is always treated as safe.
pub open spec fn import_prefix() -> Seq<char> {
    "Import-Module"@
}

/// The classification rules, checked in order on the command with its leading
/// white space removed: the import prefix is read-only; a piped command is
/// never classified; retrieval verbs read; mutation verbs write; everything
/// else is unknown.
pub open spec fn classify_spec(cmd: Seq<char>) -> CmdKind {
    let t = trim_start_spec(cmd);
    if starts_with(t, import_prefix()) {
        CmdKind::Read
    } else if contains_char(t, '|') {
        CmdKind::Unknown
    } else if starts_with(t, "Get-"@) || starts_with(t, "Select-"@) || starts_with(t, "Read-"@) {
        CmdKind::Read
    } else if starts_with(t, "Set-"@) || starts_with(t, "New-"@) || starts_with(t, "Add-"@)
        || starts_with(t, "Remove-"@) || starts_with(t, "Update-"@) || starts_with(
        t,
        "Write-"@,
    ) {
        CmdKind::Write
    } else {
        CmdKind::Unknown
    }
}

/// Classifies a command by its leading verb, after left-trimming white space.
pub fn classify_cmd(cmd: &str) -> (k: CmdKind)
    ensures
        k == classify_spec(cmd@),
{
    let v = str_chars(cmd);
    let lo = trim_start_bound(&v);
    if has_prefix_str(&v, lo, "Import-Module") {
        CmdKind::Read
    } else if contains_char_from(&v, lo, '|') {
        CmdKind::Unknown
    } else if has_prefix_str(&v, lo, "Get-") || has_prefix_str(&v, lo, "Select-") || has_prefix_str(
        &v,
        lo,
        "Read-",
    ) {
        CmdKind::Read
    } else if has_prefix_str(&v, lo, "Set-") || has_prefix_str(&v, lo, "New-") || has_prefix_str(
        &v,
        lo,
        "Add-",
    ) || has_prefix_str(&v, lo, "Remove-") || has_prefix_str(&v, lo, "Update-") || has_prefix_str(
        &v,
        lo,
        "Write-",
    ) {
        CmdKind::Write
    } else {
        CmdKind::Unknown
    }
}

/// A command that contains a pipe character is never classified, whatever its
/// leading verb, unless the always-safe import prefix claimed it first.
pub proof fn lemma_piped_commands_unknown(cmd: Seq<char>)
    requires
        contains_char(cmd, '|'),
        !starts_with(trim_start_spec(cmd), import_prefix()),
    ensures
        classify_spec(cmd) == CmdKind::Unknown,
{
    lemma_trim_start_contains(cmd, '|');
}

/// A command that begins with the import prefix is read-only, even where a
/// mutation verb or a pipe appears later in the string.
pub proof fn lemma_import_prefix_reads(cmd: Seq<char>)
    requires
        starts_with(trim_start_spec(cmd), import_prefix()),
    ensures
        classify_spec(cmd) == CmdKind::Read,
{
}

} // verus!
