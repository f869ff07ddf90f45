use std::path::PathBuf;

use pesto::upload::{upload_summary, InputFile};

fn inputs(names: &[&str]) -> Vec<InputFile> {
    names
        .iter()
        .map(|n| InputFile {
            path: PathBuf::from(n),
            name: n.to_string(),
        })
        .collect()
}

#[test]
fn loose_files_have_no_subfolders() {
    let files = inputs(&["a.bin", "b.bin"]);
    assert_eq!(upload_summary(&files, &[Some(10), Some(5)]), (2, 0, 15));
}

#[test]
fn root_folder_is_not_a_subfolder() {
    let files = inputs(&["Show/ep01.bin", "Show/ep02.bin"]);
    assert_eq!(upload_summary(&files, &[Some(1), None]), (2, 0, 1));
}

#[test]
fn nested_folders_are_counted_once() {
    let files = inputs(&[
        "Show/ep01.bin",
        "Show/extras/clip.bin",
        "Show/extras/more/deep.bin",
        "Show/extras/other.bin",
        "Show/S02/e1.bin",
    ]);
    let sizes = [Some(100), Some(200), None, Some(300), Some(400)];
    // Subfolders: Show/extras, Show/extras/more, Show/S02.
    assert_eq!(upload_summary(&files, &sizes), (5, 3, 1000));
}

#[test]
fn empty_upload() {
    assert_eq!(upload_summary(&[], &[]), (0, 0, 0));
}

#[test]
fn empty_components_follow_the_prefix_rule() {
    // "a//f": the folder path grows to "a/" (it holds a slash).
    let files = inputs(&["a//f"]);
    assert_eq!(upload_summary(&files, &[None]), (1, 1, 0));
}
