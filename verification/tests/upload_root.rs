use std::path::PathBuf;

use pesto::upload::{upload_root, InputFile};

fn inputs(names: &[&str]) -> Vec<InputFile> {
    names
        .iter()
        .map(|n| InputFile {
            path: PathBuf::from(n),
            name: n.to_string(),
        })
        .collect()
}

#[test]
fn upload_root_finds_a_single_shared_directory() {
    assert_eq!(
        upload_root(&inputs(&["Show/ep01.bin", "Show/extras/clip.bin"])),
        Some("Show".to_string())
    );
}

#[test]
fn upload_root_is_none_for_loose_or_mixed_inputs() {
    assert_eq!(upload_root(&inputs(&["a.bin"])), None);
    assert_eq!(upload_root(&inputs(&["A/x.bin", "B/y.bin"])), None);
    assert_eq!(upload_root(&inputs(&["Show/ep01.bin", "loose.bin"])), None);
}

#[test]
fn upload_root_of_no_inputs_is_none() {
    assert_eq!(upload_root(&inputs(&[])), None);
}

#[test]
fn upload_root_splits_at_the_first_slash() {
    assert_eq!(
        upload_root(&inputs(&["Show/S01/e1.bin", "Show/S02/e1.bin"])),
        Some("Show".to_string())
    );
    assert_eq!(upload_root(&inputs(&["/abs.bin"])), Some(String::new()));
}
