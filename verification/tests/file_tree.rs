use pesto::file_tree::{FileTree, ListedEntry, NameTone, PathSet};
use pesto::path::FsPath;

fn path(parts: &[&[u8]]) -> FsPath {
    FsPath {
        parts: parts.iter().map(|p| p.to_vec()).collect(),
    }
}

fn entry(name: &[u8], is_dir: bool) -> ListedEntry {
    ListedEntry {
        name: name.to_vec(),
        is_dir,
    }
}

fn parts_of(p: &FsPath) -> Vec<Vec<u8>> {
    p.parts.clone()
}

fn listing_names(t: &FileTree) -> Vec<Vec<u8>> {
    t.items
        .iter()
        .map(|p| p.parts.last().cloned().unwrap_or_default())
        .collect()
}

fn sample_listing() -> Vec<ListedEntry> {
    vec![
        entry(b"zeta.txt", false),
        entry(b"Alpha", true),
        entry(b".hidden", false),
        entry(b"beta.mkv", false),
        entry(b".config", true),
        entry(b"music", true),
        entry(&[0xff, 0xfe], false),
    ]
}

#[test]
fn new_lists_directories_first_then_files_by_name_without_hidden() {
    let t = FileTree::new(path(&[b"home", b"u"]), Some(sample_listing()));
    assert_eq!(
        listing_names(&t),
        vec![b"Alpha".to_vec(), b"music".to_vec(), b"beta.mkv".to_vec(), b"zeta.txt".to_vec()]
    );
    assert_eq!(t.selected, 0);
    assert!(!t.show_hidden);
    assert_eq!(t.marked_count(), 0);
    assert_eq!(parts_of(&t.items[0]), vec![b"home".to_vec(), b"u".to_vec(), b"Alpha".to_vec()]);
}

#[test]
fn unreadable_directory_gives_an_empty_listing() {
    let t = FileTree::new(path(&[b"x"]), None);
    assert!(t.items.is_empty());
    assert_eq!(t.get_selected().map(parts_of), None);
}

#[test]
fn toggle_hidden_shows_hidden_and_non_utf8_names() {
    let mut t = FileTree::new(path(&[b"home"]), Some(sample_listing()));
    t.toggle_hidden(Some(sample_listing()));
    assert!(t.show_hidden);
    assert_eq!(
        listing_names(&t),
        vec![
            b".config".to_vec(),
            b"Alpha".to_vec(),
            b"music".to_vec(),
            b".hidden".to_vec(),
            b"beta.mkv".to_vec(),
            b"zeta.txt".to_vec(),
            vec![0xff, 0xfe],
        ]
    );
    t.toggle_hidden(Some(sample_listing()));
    assert!(!t.show_hidden);
    assert_eq!(t.items.len(), 4);
}

#[test]
fn select_next_and_previous_wrap_around() {
    let mut t = FileTree::new(path(&[]), Some(vec![entry(b"a", false), entry(b"b", false), entry(b"c", false)]));
    t.select_previous();
    assert_eq!(t.selected, 2);
    t.select_next();
    assert_eq!(t.selected, 0);
    t.select_next();
    t.select_next();
    assert_eq!(t.selected, 2);
    assert_eq!(parts_of(t.get_selected().unwrap()), vec![b"c".to_vec()]);
}

#[test]
fn previous_undoes_next_on_every_row() {
    let mut t = FileTree::new(path(&[]), Some(vec![entry(b"a", false), entry(b"b", false), entry(b"c", false)]));
    for start in 0..3 {
        t.selected = start;
        t.select_next();
        t.select_previous();
        assert_eq!(t.selected, start);
        t.select_previous();
        t.select_next();
        assert_eq!(t.selected, start);
    }
}

#[test]
fn cursor_moves_do_nothing_on_an_empty_listing() {
    let mut t = FileTree::new(path(&[b"e"]), Some(vec![]));
    t.select_next();
    assert_eq!(t.selected, 0);
    t.select_previous();
    assert_eq!(t.selected, 0);
    t.toggle_mark();
    assert_eq!(t.marked_count(), 0);
}

#[test]
fn toggle_mark_marks_and_advances() {
    let mut t = FileTree::new(path(&[b"d"]), Some(vec![entry(b"a", false), entry(b"b", false)]));
    t.toggle_mark();
    assert_eq!(t.marked_count(), 1);
    assert_eq!(t.selected, 1);
    t.toggle_mark();
    assert_eq!(t.marked_count(), 2);
    assert_eq!(t.selected, 0);
    // Toggling an already marked row removes its mark.
    t.toggle_mark();
    assert_eq!(t.marked_count(), 1);
    let taken = t.take_marked();
    assert_eq!(taken.iter().map(parts_of).collect::<Vec<_>>(), vec![vec![b"d".to_vec(), b"b".to_vec()]]);
    assert_eq!(t.marked_count(), 0);
}

#[test]
fn toggling_twice_on_a_single_row_restores_the_marks() {
    let mut t = FileTree::new(path(&[b"d"]), Some(vec![entry(b"only", false)]));
    t.toggle_mark();
    assert_eq!(t.marked_count(), 1);
    t.toggle_mark();
    assert_eq!(t.marked_count(), 0);
    assert_eq!(t.selected, 0);
}

#[test]
fn take_marked_sorts_by_path_components_and_clears() {
    // Marks made in two directories: `/r/a.b` and `/r/a/b`. Component order
    // puts `/r/a/b` first ("a" before "a.b"), unlike a byte order.
    let mut t = FileTree::new(path(&[b"r"]), Some(vec![entry(b"a.b", false), entry(b"a", true)]));
    // listing: dir "a" first, then "a.b"
    t.select_next();
    t.toggle_mark(); // marks /r/a.b
    t.current_dir = path(&[b"r", b"a"]);
    t.refresh(Some(vec![entry(b"b", false)]));
    t.toggle_mark(); // marks /r/a/b
    assert_eq!(t.marked_count(), 2);
    let taken = t.take_marked();
    assert_eq!(
        taken.iter().map(parts_of).collect::<Vec<_>>(),
        vec![
            vec![b"r".to_vec(), b"a".to_vec(), b"b".to_vec()],
            vec![b"r".to_vec(), b"a.b".to_vec()],
        ]
    );
    assert_eq!(t.marked_count(), 0);
    assert!(t.take_marked().is_empty());
}

#[test]
fn refresh_keeps_cursor_in_range() {
    let mut t = FileTree::new(path(&[b"d"]), Some(vec![entry(b"a", false), entry(b"b", false), entry(b"c", false)]));
    t.select_next();
    t.select_next();
    t.refresh(Some(vec![entry(b"a", false), entry(b"b", false), entry(b"c", false), entry(b"d", false)]));
    assert_eq!(t.selected, 2);
    t.refresh(Some(vec![entry(b"a", false)]));
    assert_eq!(t.selected, 0);
    t.refresh(None);
    assert_eq!(t.items.len(), 1);
}

#[test]
fn go_to_parent_moves_up_and_resets_cursor() {
    let mut t = FileTree::new(path(&[b"a", b"b"]), Some(vec![entry(b"x", false), entry(b"y", false)]));
    t.select_next();
    t.go_to_parent(Some(vec![entry(b"b", true), entry(b"c", false)]));
    assert_eq!(parts_of(&t.current_dir), vec![b"a".to_vec()]);
    assert_eq!(t.selected, 0);
    assert_eq!(listing_names(&t), vec![b"b".to_vec(), b"c".to_vec()]);
    t.go_to_parent(Some(vec![entry(b"a", true)]));
    assert!(t.current_dir.parts.is_empty());
    // At the root nothing changes.
    t.go_to_parent(Some(vec![entry(b"other", true)]));
    assert!(t.current_dir.parts.is_empty());
    assert_eq!(listing_names(&t), vec![b"a".to_vec()]);
}

#[test]
fn title_shows_directory_counts_and_flags() {
    let mut t = FileTree::new(path(&[b"home", b"u"]), Some(sample_listing()));
    assert_eq!(t.title(), " Browser — /home/u (4 items) ");
    t.toggle_mark();
    t.toggle_hidden(Some(sample_listing()));
    assert_eq!(t.title(), " Browser — /home/u (7 items • hidden — 1 marked) ");
    let root = FileTree::new(FsPath::root(), Some(vec![]));
    assert_eq!(root.title(), " Browser — / (0 items) ");
    let odd = FileTree::new(path(&[&[0x66, 0xff]]), None);
    assert_eq!(odd.title(), " Browser — /f\u{fffd} (0 items) ");
}

#[test]
fn rows_show_marks_names_and_tones() {
    let mut t = FileTree::new(path(&[b"d"]), Some(vec![entry(b"a", false), entry(b"b", false)]));
    t.show_hidden = true;
    t.refresh(Some(vec![entry(b"a", false), entry(b"b", false), entry(&[0xc3], false)]));
    t.toggle_mark(); // mark a, cursor to b
    let rows = t.rows();
    assert_eq!(rows.len(), 3);
    assert_eq!(rows[0].check, "[x] ");
    assert_eq!(rows[0].name, "a");
    assert!(rows[0].marked && !rows[0].selected);
    assert!(matches!(rows[0].tone, NameTone::Marked));
    assert_eq!(rows[1].check, "[ ] ");
    assert!(matches!(rows[1].tone, NameTone::Selected));
    assert_eq!(rows[2].name, "?");
    assert!(matches!(rows[2].tone, NameTone::Plain));
}

#[test]
fn path_set_holds_each_path_once() {
    let mut s = PathSet::new();
    s.insert(path(&[b"a"]));
    s.insert(path(&[b"a"]));
    s.insert(path(&[b"b"]));
    assert_eq!(s.len(), 2);
    assert!(s.contains(&path(&[b"a"])));
    s.remove(&path(&[b"a"]));
    assert!(!s.contains(&path(&[b"a"])));
    s.remove(&path(&[b"zz"]));
    assert_eq!(s.len(), 1);
}

#[test]
fn path_parent_and_order() {
    assert!(FsPath::root().parent().is_none());
    assert_eq!(parts_of(&path(&[b"a", b"b"]).parent().unwrap()), vec![b"a".to_vec()]);
    assert_eq!(path(&[b"a", b"b"]).compare(&path(&[b"a.b"])), -1);
    assert_eq!(path(&[b"a"]).compare(&path(&[b"a", b"b"])), -1);
    assert_eq!(path(&[b"b"]).compare(&path(&[b"a", b"z"])), 1);
    assert_eq!(path(&[b"a"]).compare(&path(&[b"a"])), 0);
    assert_eq!(path(&[b"x", b"y"]).to_bytes(), b"/x/y".to_vec());
    assert_eq!(FsPath::root().to_bytes(), b"/".to_vec());
}
