//! The outside programs the poster leans on (`rar`, `mediainfo`): what a
//! missing or failing program turns into.

use vstd::prelude::*;

use crate::text::{lossy_string, lossy_text, push_chars};

verus! {

/// The text of the error when no `rar` program is found.
pub open spec fn rar_missing_text() -> Seq<char> {
    "rar not found in PATH. Install the official RAR CLI from https://rarlab.com/download.htm\n(Note: it is not redistributable, so pesto cannot bundle it.)"@
}

/// The `rar` program to compress with, given where the search of `PATH`
/// found it; without one, the error that says where to get it.
pub fn compress_with_rar(found: Option<std::path::PathBuf>) -> (r: Result<std::path::PathBuf, String>)
    ensures
        found is Some ==> (r matches Ok(p) && Some(p) == found),
        found is None ==> (r matches Err(m) && m@ == rar_missing_text()),
{
    match found {
        Some(p) => Ok(p),
        None => {
            let mut m = String::new();
            push_chars(
                &mut m,
                "rar not found in PATH. Install the official RAR CLI from https://rarlab.com/download.htm\n(Note: it is not redistributable, so pesto cannot bundle it.)",
            );
            Err(m)
        },
    }
}

/// The text of the error when no `mediainfo` program is found.
pub open spec fn mediainfo_missing_text() -> Seq<char> {
    "mediainfo not found in PATH — falling back to directory listing for .nfo.\nInstall with: apt install mediainfo (or brew install media-info)"@
}

/// The error when no `mediainfo` program is found.
pub fn mediainfo_missing() -> (m: String)
    ensures
        m@ == mediainfo_missing_text(),
{
    let mut m = String::new();
    push_chars(
        &mut m,
        "mediainfo not found in PATH — falling back to directory listing for .nfo.\nInstall with: apt install mediainfo (or brew install media-info)",
    );
    m
}

/// The report of a `mediainfo` run: its output as text (invalid UTF-8
/// replaced) when it succeeded, else the error that it failed.
pub fn mediainfo_report(success: bool, stdout: &[u8]) -> (r: Result<String, String>)
    ensures
        success ==> (r matches Ok(t) && t@ == lossy_text(stdout@)),
        !success ==> (r matches Err(m) && m@ == "mediainfo exited non-zero"@),
{
    if !success {
        let mut m = String::new();
        push_chars(&mut m, "mediainfo exited non-zero");
        return Err(m);
    }
    Ok(lossy_string(stdout))
}

} // verus!
