use std::path::PathBuf;

use pesto::tools::{compress_with_rar, mediainfo_missing, mediainfo_report};

#[test]
fn rar_found_or_explained() {
    assert_eq!(compress_with_rar(Some(PathBuf::from("/usr/bin/rar"))), Ok(PathBuf::from("/usr/bin/rar")));
    let err = compress_with_rar(None).unwrap_err();
    assert_eq!(
        err,
        "rar not found in PATH. Install the official RAR CLI from https://rarlab.com/download.htm\n(Note: it is not redistributable, so pesto cannot bundle it.)"
    );
}

#[test]
fn mediainfo_outcomes() {
    assert_eq!(mediainfo_report(true, b"General\nFormat : MKV\n"), Ok("General\nFormat : MKV\n".to_string()));
    assert_eq!(mediainfo_report(true, &[0x41, 0xff, 0x42]), Ok("A\u{fffd}B".to_string()));
    assert_eq!(mediainfo_report(false, b"x"), Err("mediainfo exited non-zero".to_string()));
    assert!(mediainfo_missing().starts_with("mediainfo not found in PATH"));
}
