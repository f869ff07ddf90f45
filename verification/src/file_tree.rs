//! The file browser of `upapasta`: a directory listing with a cursor and a
//! set of paths marked for upload.

use vstd::prelude::*;
use vstd::relations::*;
use vstd::seq_lib::*;

use crate::order::{sort_ranked, views};
use crate::path::{
    bytes_compare, compare_bytes, copy_bytes, lemma_bytes_compare_basics, lemma_bytes_compare_trans,
    lemma_path_order_total, path_order, FsPath,
};
use crate::order::Ranked;
use crate::path::path_bytes;
use crate::text::{decimal, lossy_string, lossy_text, owned, push_chars, push_decimal, utf8_text};
use vstd::utf8::{decode_utf8, valid_utf8};

verus! {

/// A set of paths with no path held twice (the browser's marks).
pub struct PathSet {
    paths: Vec<FsPath>,
}

impl PathSet {
    #[verifier::type_invariant]
    spec fn distinct(self) -> bool {
        views(self.paths@).no_duplicates()
    }
}

impl View for PathSet {
    type V = Set<Seq<Seq<u8>>>;

    closed spec fn view(&self) -> Set<Seq<Seq<u8>>> {
        views(self.paths@).to_set()
    }
}

impl PathSet {
    /// The empty set.
    pub fn new() -> (s: PathSet)
        ensures
            s@ == Set::<Seq<Seq<u8>>>::empty(),
    {
        let s = PathSet { paths: Vec::new() };
        assert(views(s.paths@).to_set() =~= Set::<Seq<Seq<u8>>>::empty());
        s
    }

    /// Position of `p` in the held sequence, if it is there.
    fn position(&self, p: &FsPath) -> (r: Option<usize>)
        ensures
            r matches Some(i) ==> i < self.paths@.len() && self.paths@[i as int]@ == p@,
            r is None ==> !views(self.paths@).contains(p@),
    {
        let mut i: usize = 0;
        while i < self.paths.len()
            invariant
                0 <= i <= self.paths.len(),
                forall|j: int| 0 <= j < i ==> #[trigger] self.paths@[j]@ != p@,
            decreases self.paths.len() - i,
        {
            if self.paths[i].same(p) {
                return Some(i);
            }
            i = i + 1;
        }
        proof {
            if views(self.paths@).contains(p@) {
                let k = choose|k: int| 0 <= k < views(self.paths@).len() && views(self.paths@)[k] == p@;
                assert(self.paths@[k]@ == p@);
            }
        }
        None
    }

    /// Whether `p` is in the set (`HashSet::contains`).
    pub fn contains(&self, p: &FsPath) -> (r: bool)
        ensures
            r == self@.contains(p@),
    {
        let r = self.position(p);
        proof {
            if let Some(i) = r {
                assert(views(self.paths@)[i as int] == p@);
                assert(views(self.paths@).contains(p@));
            }
        }
        r.is_some()
    }

    /// Adds `p` (`HashSet::insert`).
    pub fn insert(&mut self, p: FsPath)
        ensures
            final(self)@ == old(self)@.insert(p@),
    {
        proof {
            use_type_invariant(&*self);
        }
        if let Some(i) = self.position(&p) {
            proof {
                assert(views(self.paths@)[i as int] == p@);
                assert(views(self.paths@).contains(p@));
                assert(self@.contains(p@));
                assert(self@.insert(p@) =~= self@);
            }
            return;
        }
        let ghost old_paths = self.paths@;
        let mut v: Vec<FsPath> = Vec::new();
        std::mem::swap(&mut v, &mut self.paths);
        v.push(p);
        proof {
            assert(views(v@) =~= views(old_paths).push(p@));
            assert forall|i: int, j: int| 0 <= i < views(v@).len() && 0 <= j < views(v@).len() && i != j
                implies views(v@)[i] != views(v@)[j] by {
                if i < old_paths.len() && j < old_paths.len() {
                    assert(views(old_paths)[i] != views(old_paths)[j]);
                } else if i == old_paths.len() {
                    assert(views(old_paths).contains(views(old_paths)[j]));
                } else {
                    assert(views(old_paths).contains(views(old_paths)[i]));
                }
            }
            Seq::lemma_to_set_insert_commutes(views(old_paths), p@);
            assert(views(old_paths).push(p@) =~= views(old_paths) + seq![p@]);
        }
        self.paths = v;
    }

    /// Removes `p` (`HashSet::remove`).
    pub fn remove(&mut self, p: &FsPath)
        ensures
            final(self)@ == old(self)@.remove(p@),
    {
        proof {
            use_type_invariant(&*self);
        }
        match self.position(p) {
            None => {
                proof {
                    assert(!self@.contains(p@));
                    assert(self@.remove(p@) =~= self@);
                }
            },
            Some(i) => {
                let ghost old_paths = self.paths@;
                let mut v: Vec<FsPath> = Vec::new();
                std::mem::swap(&mut v, &mut self.paths);
                v.remove(i);
                proof {
                    let ov = views(old_paths);
                    assert(views(v@) =~= ov.remove(i as int));
                    assert forall|a: int, b: int| 0 <= a < views(v@).len() && 0 <= b < views(v@).len() && a != b
                        implies views(v@)[a] != views(v@)[b] by {
                        let aa = if a < i { a } else { a + 1 };
                        let bb = if b < i { b } else { b + 1 };
                        assert(views(v@)[a] == ov[aa]);
                        assert(views(v@)[b] == ov[bb]);
                    }
                    assert forall|x: Seq<Seq<u8>>| #[trigger] views(v@).to_set().contains(x)
                        == ov.to_set().remove(p@).contains(x) by {
                        if views(v@).to_set().contains(x) {
                            assert(views(v@).contains(x));
                            let k = choose|k: int| 0 <= k < views(v@).len() && views(v@)[k] == x;
                            let kk = if k < i { k } else { k + 1 };
                            assert(ov[kk] == x);
                            assert(ov.contains(x));
                            assert(ov[i as int] == p@);
                            assert(ov[kk] != ov[i as int]);
                            assert(x != p@);
                        }
                        if ov.to_set().remove(p@).contains(x) {
                            assert(ov.contains(x));
                            let k = choose|k: int| 0 <= k < ov.len() && ov[k] == x;
                            assert(k != i);
                            let kk = if k < i { k } else { k - 1 };
                            assert(views(v@)[kk] == x);
                            assert(views(v@).contains(x));
                        }
                    }
                    assert(views(v@).to_set() =~= ov.to_set().remove(p@));
                }
                self.paths = v;
            },
        }
    }

    /// Number of paths in the set (`HashSet::len`).
    pub fn len(&self) -> (n: usize)
        ensures
            n == self@.len(),
    {
        proof {
            use_type_invariant(self);
            views(self.paths@).unique_seq_to_set();
        }
        self.paths.len()
    }

    /// Empties the set and hands out its paths in the order of paths
    /// (`HashSet::drain` followed by a sort).
    pub fn take_sorted(&mut self) -> (r: Vec<FsPath>)
        ensures
            final(self)@ == Set::<Seq<Seq<u8>>>::empty(),
            views(r@).to_set() == old(self)@,
            views(r@).len() == old(self)@.len(),
            views(r@).no_duplicates(),
            sorted_by(views(r@), path_order()),
    {
        proof {
            use_type_invariant(&*self);
            views(self.paths@).unique_seq_to_set();
            lemma_path_order_total();
        }
        let ghost held = views(self.paths@);
        let mut v: Vec<FsPath> = Vec::new();
        std::mem::swap(&mut v, &mut self.paths);
        proof {
            assert(views(self.paths@).to_set() =~= Set::<Seq<Seq<u8>>>::empty());
        }
        let r = sort_ranked(v);
        proof {
            broadcast use group_to_multiset_ensures;
            let rv = views(r@);
            assert forall|x: Seq<Seq<u8>>| #[trigger] rv.contains(x) == held.contains(x) by {
                assert(rv.to_multiset().count(x) == held.to_multiset().count(x));
            }
            assert(rv.to_set() =~= held.to_set());
            held.lemma_multiset_has_no_duplicates();
            assert forall|x: Seq<Seq<u8>>| rv.to_multiset().contains(x) implies rv.to_multiset().count(x) == 1 by {
                assert(held.to_multiset().contains(x));
            }
            rv.lemma_multiset_has_no_duplicates_conv();
            assert(rv.len() == rv.to_multiset().len());
            assert(held.len() == held.to_multiset().len());
        }
        r
    }
}

} // verus!

verus! {

/// One entry of a directory listing, as the directory reader reports it:
/// the entry's file name and whether it is a directory.
pub struct ListedEntry {
    pub name: Vec<u8>,
    pub is_dir: bool,
}

impl View for ListedEntry {
    type V = (Seq<u8>, bool);

    open spec fn view(&self) -> (Seq<u8>, bool) {
        (self.name@, self.is_dir)
    }
}

/// The order of the browser's listing: directories before files, then by
/// file name.
pub open spec fn entry_order() -> spec_fn((Seq<u8>, bool), (Seq<u8>, bool)) -> bool {
    |a: (Seq<u8>, bool), b: (Seq<u8>, bool)|
        (a.1 && !b.1) || (a.1 == b.1 && bytes_compare(a.0, b.0) <= 0)
}

impl Ranked for ListedEntry {
    open spec fn order() -> spec_fn((Seq<u8>, bool), (Seq<u8>, bool)) -> bool {
        entry_order()
    }

    fn ranks_before(&self, other: &ListedEntry) -> (r: bool) {
        if self.is_dir != other.is_dir {
            self.is_dir
        } else {
            compare_bytes(&self.name, &other.name) <= 0
        }
    }
}

/// The listing order is a total order.
pub proof fn lemma_entry_order_total()
    ensures
        total_ordering(entry_order()),
{
    assert forall|x: (Seq<u8>, bool)| #[trigger] entry_order()(x, x) by {
        lemma_bytes_compare_basics(x.0, x.0);
    }
    assert forall|x: (Seq<u8>, bool), y: (Seq<u8>, bool)|
        #[trigger] entry_order()(x, y) && #[trigger] entry_order()(y, x) implies x == y by {
        lemma_bytes_compare_basics(x.0, y.0);
    }
    assert forall|x: (Seq<u8>, bool), y: (Seq<u8>, bool), z: (Seq<u8>, bool)|
        #[trigger] entry_order()(x, y) && #[trigger] entry_order()(y, z) implies entry_order()(
        x,
        z,
    ) by {
        if x.1 == y.1 && y.1 == z.1 {
            lemma_bytes_compare_trans(x.0, y.0, z.0);
        }
    }
    assert forall|x: (Seq<u8>, bool), y: (Seq<u8>, bool)|
        #[trigger] entry_order()(x, y) || #[trigger] entry_order()(y, x) by {
        lemma_bytes_compare_basics(x.0, y.0);
    }
}

/// Whether an entry called `name` is listed: always when hidden files are
/// shown; otherwise only when the name is valid UTF-8 that does not begin
/// with `.`.
pub open spec fn is_listed(show_hidden: bool, name: Seq<u8>) -> bool {
    show_hidden || (valid_utf8(name) && !(name.len() > 0 && name[0] == 0x2eu8))
}

/// `is_listed` as a predicate on entries.
pub open spec fn listed_pred(show_hidden: bool) -> spec_fn((Seq<u8>, bool)) -> bool {
    |e: (Seq<u8>, bool)| is_listed(show_hidden, e.0)
}

/// The path of an entry of directory `dir`.
pub open spec fn entry_path(dir: Seq<Seq<u8>>) -> spec_fn((Seq<u8>, bool)) -> Seq<Seq<u8>> {
    |e: (Seq<u8>, bool)| dir.push(e.0)
}

/// The paths the browser shows for directory `dir` read as `entries`: the
/// listed entries, in the listing order.
pub open spec fn listing(
    dir: Seq<Seq<u8>>,
    show_hidden: bool,
    entries: Seq<(Seq<u8>, bool)>,
) -> Seq<Seq<Seq<u8>>> {
    entries.filter(listed_pred(show_hidden)).sort_by(entry_order()).map_values(entry_path(dir))
}

/// `rows` shows directory `dir` read as `entries` with the right names:
/// each entry whose name is valid UTF-8 and does not begin with `.` (each
/// entry, when hidden files are shown) has its path among the rows, and
/// each row is the path in `dir` of an entry's name, which is valid UTF-8
/// and does not begin with `.` unless hidden files are shown.
pub open spec fn shows_names(
    dir: Seq<Seq<u8>>,
    show_hidden: bool,
    entries: Seq<(Seq<u8>, bool)>,
    rows: Seq<Seq<Seq<u8>>>,
) -> bool {
    &&& forall|e: (Seq<u8>, bool)| #[trigger]
        entries.contains(e) && (show_hidden || (valid_utf8(e.0) && !(e.0.len() > 0 && e.0[0]
            == 0x2eu8))) ==> rows.contains(dir.push(e.0))
    &&& forall|i: int|
        0 <= i < rows.len() ==> {
            let row = #[trigger] rows[i];
            &&& row.len() > 0
            &&& row.drop_last() == dir
            &&& exists|e: (Seq<u8>, bool)| entries.contains(e) && e.0 == row.last()
            &&& !show_hidden ==> valid_utf8(row.last()) && !(row.last().len() > 0 && row.last()[0]
                == 0x2eu8)
        }
}

/// Whether `name` is listed.
fn listed(show_hidden: bool, name: &[u8]) -> (r: bool)
    ensures
        r == is_listed(show_hidden, name@),
{
    if show_hidden {
        return true;
    }
    match utf8_text(name) {
        Some(_) => !(name.len() > 0 && name[0] == 0x2e),
        None => false,
    }
}

/// The listed entries of `entries`, in their order.
fn listed_entries(entries: &Vec<ListedEntry>, show_hidden: bool) -> (r: Vec<ListedEntry>)
    ensures
        views(r@) == views(entries@).filter(listed_pred(show_hidden)),
{
    let ghost all = views(entries@);
    let mut r: Vec<ListedEntry> = Vec::new();
    let mut i: usize = 0;
    while i < entries.len()
        invariant
            0 <= i <= entries.len(),
            all == views(entries@),
            views(r@) == all.take(i as int).filter(listed_pred(show_hidden)),
        decreases entries.len() - i,
    {
        let e = &entries[i];
        let keep = listed(show_hidden, &e.name);
        let ghost before = views(r@);
        proof {
            reveal(Seq::filter);
            assert(all.take(i as int + 1).drop_last() =~= all.take(i as int));
            assert(all.take(i as int + 1).last() == e@);
        }
        if keep {
            let copy = ListedEntry { name: copy_bytes(&e.name), is_dir: e.is_dir };
            r.push(copy);
            assert(views(r@) =~= before.push(e@));
        }
        i = i + 1;
    }
    assert(all.take(entries.len() as int) =~= all);
    r
}

/// The browser: the current directory, its listing, a cursor into the
/// listing, and the paths marked for upload.
pub struct FileTree {
    pub items: Vec<FsPath>,
    pub current_dir: FsPath,
    pub selected: usize,
    pub show_hidden: bool,
    /// Paths that have been marked for queuing.
    pub marked: PathSet,
}

/// The cursor after moving down one row in a list of `len` rows, wrapping
/// from the last row to the first.
pub open spec fn next_index(selected: int, len: int) -> int {
    (selected + 1) % len
}

/// The cursor after moving up one row in a list of `len` rows, wrapping
/// from the first row to the last.
pub open spec fn previous_index(selected: int, len: int) -> int {
    if selected == 0 { len - 1 } else { selected - 1 }
}

/// The mark set after toggling the mark on `p`.
pub open spec fn toggled(marks: Set<Seq<Seq<u8>>>, p: Seq<Seq<u8>>) -> Set<Seq<Seq<u8>>> {
    if marks.contains(p) { marks.remove(p) } else { marks.insert(p) }
}

impl FileTree {
    /// The listed paths.
    pub open spec fn item_paths(&self) -> Seq<Seq<Seq<u8>>> {
        views(self.items@)
    }

    /// The cursor is on a row, or at 0 when there are no rows.
    pub open spec fn cursor_valid(&self) -> bool {
        self.selected < self.items.len() || (self.items.len() == 0 && self.selected == 0)
    }

    /// Replaces the listing with the directory read as `entries`; `None`
    /// (the directory could not be read) leaves everything as it was. The
    /// cursor stays where it was if that row still exists, else it goes to 0.
    pub fn refresh(&mut self, entries: Option<Vec<ListedEntry>>)
        ensures
            entries is None ==> *final(self) == *old(self),
            entries matches Some(l) ==> {
                &&& final(self).item_paths() == listing(
                    old(self).current_dir@,
                    old(self).show_hidden,
                    views(l@),
                )
                &&& shows_names(
                    old(self).current_dir@,
                    old(self).show_hidden,
                    views(l@),
                    final(self).item_paths(),
                )
                &&& final(self).selected == if old(self).selected < final(self).items.len() {
                    old(self).selected
                } else {
                    0
                }
                &&& final(self).cursor_valid()
            },
            final(self).current_dir == old(self).current_dir,
            final(self).show_hidden == old(self).show_hidden,
            final(self).marked == old(self).marked,
    {
        let entries = match entries {
            None => return,
            Some(l) => l,
        };
        let kept = listed_entries(&entries, self.show_hidden);
        proof {
            lemma_entry_order_total();
        }
        let sorted = sort_ranked(kept);
        let mut items: Vec<FsPath> = Vec::new();
        let mut i: usize = 0;
        while i < sorted.len()
            invariant
                0 <= i <= sorted.len(),
                items@.len() == i,
                forall|j: int| 0 <= j < i ==> #[trigger] items@[j]@ == entry_path(self.current_dir@)(
                    sorted@[j]@,
                ),
            decreases sorted.len() - i,
        {
            let p = self.current_dir.child(&sorted[i].name);
            items.push(p);
            i = i + 1;
        }
        proof {
            assert(views(items@) =~= views(sorted@).map_values(entry_path(self.current_dir@)));
        }
        self.items = items;
        proof {
            law_listing_hides_dot_and_non_utf8_names(
                self.current_dir@,
                self.show_hidden,
                views(entries@),
            );
            assert(self.item_paths() == listing(self.current_dir@, self.show_hidden, views(entries@)));
            assert(shows_names(
                self.current_dir@,
                self.show_hidden,
                views(entries@),
                self.item_paths(),
            ));
        }
        if self.selected >= self.items.len() {
            self.selected = 0;
        }
    }

    /// A browser of `current_dir`, read as `entries`, with the cursor on the
    /// first row, hidden files not shown and nothing marked.
    pub fn new(current_dir: FsPath, entries: Option<Vec<ListedEntry>>) -> (t: FileTree)
        ensures
            t.current_dir@ == current_dir@,
            t.selected == 0,
            !t.show_hidden,
            t.marked@ == Set::<Seq<Seq<u8>>>::empty(),
            entries is None ==> t.items@.len() == 0,
            entries matches Some(l) ==> t.item_paths() == listing(current_dir@, false, views(l@)),
            entries matches Some(l) ==> shows_names(current_dir@, false, views(l@), t.item_paths()),
            t.cursor_valid(),
    {
        let mut t = FileTree {
            items: Vec::new(),
            current_dir,
            selected: 0,
            show_hidden: false,
            marked: PathSet::new(),
        };
        t.refresh(entries);
        t
    }

    /// Moves the cursor down one row, wrapping to the first row.
    pub fn select_next(&mut self)
        requires
            old(self).items.len() > 0 ==> old(self).selected < usize::MAX,
        ensures
            old(self).items.len() == 0 ==> *final(self) == *old(self),
            old(self).items.len() > 0 ==> final(self).selected == next_index(
                old(self).selected as int,
                old(self).items.len() as int,
            ),
            final(self).items == old(self).items,
            final(self).current_dir == old(self).current_dir,
            final(self).show_hidden == old(self).show_hidden,
            final(self).marked == old(self).marked,
            old(self).cursor_valid() ==> final(self).cursor_valid(),
    {
        if self.items.len() > 0 {
            self.selected = (self.selected + 1) % self.items.len();
        }
    }

    /// Moves the cursor up one row, wrapping to the last row.
    pub fn select_previous(&mut self)
        ensures
            old(self).items.len() == 0 ==> *final(self) == *old(self),
            old(self).items.len() > 0 ==> final(self).selected == previous_index(
                old(self).selected as int,
                old(self).items.len() as int,
            ),
            final(self).items == old(self).items,
            final(self).current_dir == old(self).current_dir,
            final(self).show_hidden == old(self).show_hidden,
            final(self).marked == old(self).marked,
            old(self).cursor_valid() ==> final(self).cursor_valid(),
    {
        if self.items.len() > 0 {
            self.selected = if self.selected == 0 {
                self.items.len() - 1
            } else {
                self.selected - 1
            };
        }
    }

    /// The path under the cursor, if the cursor is on a row.
    pub fn get_selected(&self) -> (r: Option<&FsPath>)
        ensures
            self.selected < self.items.len() ==> r == Some(&self.items@[self.selected as int]),
            self.selected >= self.items.len() ==> r is None,
    {
        if self.selected < self.items.len() {
            Some(&self.items[self.selected])
        } else {
            None
        }
    }

    /// Toggles the mark on the path under the cursor, then moves the cursor
    /// down one row.
    pub fn toggle_mark(&mut self)
        requires
            old(self).items.len() > 0 ==> old(self).selected < usize::MAX,
        ensures
            old(self).selected < old(self).items.len() ==> final(self).marked@ == toggled(
                old(self).marked@,
                old(self).item_paths()[old(self).selected as int],
            ),
            old(self).selected >= old(self).items.len() ==> final(self).marked@ == old(self).marked@,
            old(self).items.len() == 0 ==> final(self).selected == old(self).selected,
            old(self).items.len() > 0 ==> final(self).selected == next_index(
                old(self).selected as int,
                old(self).items.len() as int,
            ),
            final(self).items == old(self).items,
            final(self).current_dir == old(self).current_dir,
            final(self).show_hidden == old(self).show_hidden,
            old(self).cursor_valid() ==> final(self).cursor_valid(),
    {
        if self.selected < self.items.len() {
            let path = self.items[self.selected].copy();
            assert(self.item_paths()[self.selected as int] == path@);
            if self.marked.contains(&path) {
                self.marked.remove(&path);
            } else {
                self.marked.insert(path);
            }
        }
        self.select_next();
    }

    /// Hands out every marked path, in the order of paths, and clears the
    /// marks.
    pub fn take_marked(&mut self) -> (r: Vec<FsPath>)
        ensures
            views(r@).to_set() == old(self).marked@,
            views(r@).len() == old(self).marked@.len(),
            views(r@).no_duplicates(),
            sorted_by(views(r@), path_order()),
            final(self).marked@ == Set::<Seq<Seq<u8>>>::empty(),
            final(self).items == old(self).items,
            final(self).current_dir == old(self).current_dir,
            final(self).selected == old(self).selected,
            final(self).show_hidden == old(self).show_hidden,
    {
        self.marked.take_sorted()
    }

    /// Number of marked paths.
    pub fn marked_count(&self) -> (n: usize)
        ensures
            n == self.marked@.len(),
    {
        self.marked.len()
    }

    /// Moves to the parent directory, read as `entries`, with the cursor on
    /// the first row. At the root nothing changes.
    pub fn go_to_parent(&mut self, entries: Option<Vec<ListedEntry>>)
        ensures
            old(self).current_dir@.len() == 0 ==> *final(self) == *old(self),
            old(self).current_dir@.len() > 0 ==> {
                &&& final(self).current_dir@ == old(self).current_dir@.drop_last()
                &&& final(self).selected == 0
                &&& entries is None ==> final(self).items == old(self).items
                &&& entries matches Some(l) ==> final(self).item_paths() == listing(
                    old(self).current_dir@.drop_last(),
                    old(self).show_hidden,
                    views(l@),
                )
                &&& entries matches Some(l) ==> shows_names(
                    old(self).current_dir@.drop_last(),
                    old(self).show_hidden,
                    views(l@),
                    final(self).item_paths(),
                )
                &&& final(self).cursor_valid()
            },
            final(self).show_hidden == old(self).show_hidden,
            final(self).marked == old(self).marked,
    {
        match self.current_dir.parent() {
            Some(parent) => {
                self.current_dir = parent;
                self.refresh(entries);
                self.selected = 0;
            },
            None => {},
        }
    }

    /// Shows or hides hidden files, and re-reads the directory as `entries`.
    pub fn toggle_hidden(&mut self, entries: Option<Vec<ListedEntry>>)
        ensures
            final(self).show_hidden == !old(self).show_hidden,
            entries is None ==> final(self).items == old(self).items && final(self).selected
                == old(self).selected,
            entries matches Some(l) ==> {
                &&& final(self).item_paths() == listing(
                    old(self).current_dir@,
                    !old(self).show_hidden,
                    views(l@),
                )
                &&& shows_names(
                    old(self).current_dir@,
                    !old(self).show_hidden,
                    views(l@),
                    final(self).item_paths(),
                )
                &&& final(self).selected == if old(self).selected < final(self).items.len() {
                    old(self).selected
                } else {
                    0
                }
            },
            final(self).current_dir == old(self).current_dir,
            final(self).marked == old(self).marked,
            old(self).cursor_valid() ==> final(self).cursor_valid(),
    {
        self.show_hidden = !self.show_hidden;
        self.refresh(entries);
    }
}

} // verus!

verus! {

/// The heading of the browser panel: the directory, the number of rows,
/// whether hidden files are shown, and the number of marks when there are any.
pub open spec fn title_text(dir: Seq<char>, n_items: nat, show_hidden: bool, n_marked: nat) -> Seq<char> {
    " Browser — "@ + dir + " ("@ + decimal(n_items) + " items"@ + (if show_hidden {
        " • hidden"@
    } else {
        Seq::empty()
    }) + (if n_marked > 0 {
        " — "@ + decimal(n_marked) + " marked"@
    } else {
        Seq::empty()
    }) + ") "@
}

/// The heading of the browser panel for a directory shown as `dir`.
pub fn browser_title(dir: &str, n_items: usize, show_hidden: bool, n_marked: usize) -> (r: String)
    ensures
        r@ == title_text(dir@, n_items as nat, show_hidden, n_marked as nat),
{
    let mut r = String::new();
    push_chars(&mut r, " Browser — ");
    push_chars(&mut r, dir);
    push_chars(&mut r, " (");
    push_decimal(&mut r, n_items as u64);
    push_chars(&mut r, " items");
    if show_hidden {
        push_chars(&mut r, " • hidden");
    }
    if n_marked > 0 {
        push_chars(&mut r, " — ");
        push_decimal(&mut r, n_marked as u64);
        push_chars(&mut r, " marked");
    }
    push_chars(&mut r, ") ");
    assert(r@ =~= title_text(dir@, n_items as nat, show_hidden, n_marked as nat));
    r
}

/// How a row's name is emphasised: the row under the cursor first, then a
/// marked row, else plain.
pub enum NameTone {
    Selected,
    Marked,
    Plain,
}

/// What one row of the browser panel shows.
pub struct RowView {
    /// `"[x] "` for a marked path, `"[ ] "` otherwise.
    pub check: String,
    /// The file name, or `"?"` where it is not valid UTF-8.
    pub name: String,
    pub marked: bool,
    pub selected: bool,
    pub tone: NameTone,
}

/// The name a row shows for path `p`: its last component when that is
/// valid UTF-8, else `?`.
pub open spec fn shown_name(p: Seq<Seq<u8>>) -> Seq<char> {
    if p.len() > 0 && valid_utf8(p.last()) {
        decode_utf8(p.last())
    } else {
        "?"@
    }
}

impl FileTree {
    /// The heading of the browser panel, with the directory displayed as
    /// `Path::display` does.
    pub fn title(&self) -> (r: String)
        ensures
            r@ == title_text(
                lossy_text(path_bytes(self.current_dir@)),
                self.items.len() as nat,
                self.show_hidden,
                self.marked@.len(),
            ),
    {
        let bytes = self.current_dir.to_bytes();
        let dir = lossy_string(&bytes);
        browser_title(dir.as_str(), self.items.len(), self.show_hidden, self.marked.len())
    }

    /// The rows of the browser panel, one per listed path.
    pub fn rows(&self) -> (r: Vec<RowView>)
        ensures
            r@.len() == self.items@.len(),
            forall|i: int|
                0 <= i < r@.len() ==> {
                    let row = #[trigger] r@[i];
                    let marked = self.marked@.contains(self.item_paths()[i]);
                    let selected = i == self.selected;
                    &&& row.marked == marked
                    &&& row.selected == selected
                    &&& row.check@ == if marked { "[x] "@ } else { "[ ] "@ }
                    &&& row.name@ == shown_name(self.item_paths()[i])
                    &&& row.tone == if selected {
                        NameTone::Selected
                    } else if marked {
                        NameTone::Marked
                    } else {
                        NameTone::Plain
                    }
                },
    {
        let mut r: Vec<RowView> = Vec::new();
        let mut i: usize = 0;
        while i < self.items.len()
            invariant
                0 <= i <= self.items.len(),
                r@.len() == i,
                forall|k: int|
                    0 <= k < i ==> {
                        let row = #[trigger] r@[k];
                        let marked = self.marked@.contains(self.item_paths()[k]);
                        let selected = k == self.selected;
                        &&& row.marked == marked
                        &&& row.selected == selected
                        &&& row.check@ == if marked { "[x] "@ } else { "[ ] "@ }
                        &&& row.name@ == shown_name(self.item_paths()[k])
                        &&& row.tone == if selected {
                            NameTone::Selected
                        } else if marked {
                            NameTone::Marked
                        } else {
                            NameTone::Plain
                        }
                    },
            decreases self.items.len() - i,
        {
            let path = &self.items[i];
            assert(self.item_paths()[i as int] == path@);
            let marked = self.marked.contains(path);
            let selected = i == self.selected;
            let check = if marked { owned("[x] ") } else { owned("[ ] ") };
            let name = match path.file_name() {
                Some(n) => match utf8_text(n) {
                    Some(t) => t,
                    None => owned("?"),
                },
                None => owned("?"),
            };
            let tone = if selected {
                NameTone::Selected
            } else if marked {
                NameTone::Marked
            } else {
                NameTone::Plain
            };
            r.push(RowView { check, name, marked, selected, tone });
            i = i + 1;
        }
        r
    }
}

} // verus!

verus! {

/// Moving the cursor down and then up returns it to the row it was on.
pub proof fn law_previous_undoes_next(selected: int, len: int)
    requires
        0 <= selected < len,
    ensures
        previous_index(next_index(selected, len), len) == selected,
{
    if selected + 1 < len {
        assert((selected + 1) % len == selected + 1) by (nonlinear_arith)
            requires
                0 <= selected + 1 < len,
        ;
    } else {
        assert((selected + 1) % len == 0) by (nonlinear_arith)
            requires
                selected + 1 == len,
                len > 0,
        ;
    }
}

/// Moving the cursor up and then down returns it to the row it was on.
pub proof fn law_next_undoes_previous(selected: int, len: int)
    requires
        0 <= selected < len,
    ensures
        next_index(previous_index(selected, len), len) == selected,
{
    if selected == 0 {
        assert(len % len == 0) by (nonlinear_arith)
            requires
                len > 0,
        ;
    } else {
        assert(selected % len == selected) by (nonlinear_arith)
            requires
                0 <= selected < len,
        ;
    }
}

/// Moving the cursor keeps it on a row.
pub proof fn law_cursor_moves_stay_on_rows(selected: int, len: int)
    requires
        0 <= selected < len,
    ensures
        0 <= next_index(selected, len) < len,
        0 <= previous_index(selected, len) < len,
{
    assert(0 <= (selected + 1) % len < len) by (nonlinear_arith)
        requires
            len > 0,
    ;
}

/// Toggling the mark on a path twice leaves the marks as they were.
pub proof fn law_toggle_twice_restores(marks: Set<Seq<Seq<u8>>>, p: Seq<Seq<u8>>)
    ensures
        toggled(toggled(marks, p), p) == marks,
{
    if marks.contains(p) {
        assert(marks.remove(p).insert(p) =~= marks);
    } else {
        assert(marks.insert(p).remove(p) =~= marks);
    }
}

/// Toggling a mark changes the marks at that path only.
pub proof fn law_toggle_touches_one_path(marks: Set<Seq<Seq<u8>>>, p: Seq<Seq<u8>>, q: Seq<Seq<u8>>)
    ensures
        toggled(marks, p).contains(p) == !marks.contains(p),
        q != p ==> toggled(marks, p).contains(q) == marks.contains(q),
{
}

/// The listing of a directory holds exactly the listed entries, each as a
/// path inside that directory, in the listing order: directories before
/// files, names ascending.
pub proof fn law_listing_shape(dir: Seq<Seq<u8>>, show_hidden: bool, entries: Seq<(Seq<u8>, bool)>)
    ensures
        ({
            let shown = entries.filter(listed_pred(show_hidden));
            let rows = listing(dir, show_hidden, entries);
            &&& rows.len() == shown.len()
            &&& forall|i: int|
                0 <= i < rows.len() ==> (#[trigger] rows[i]).drop_last() == dir
                    && is_listed(show_hidden, rows[i].last())
            &&& forall|e: (Seq<u8>, bool)| #[trigger]
                entries.contains(e) && is_listed(show_hidden, e.0) ==> rows.contains(dir.push(e.0))
            &&& exists|arranged: Seq<(Seq<u8>, bool)>|
                {
                    &&& sorted_by(arranged, entry_order())
                    &&& arranged.to_multiset() == shown.to_multiset()
                    &&& rows == arranged.map_values(entry_path(dir))
                }
        }),
{
    broadcast use group_to_multiset_ensures;
    broadcast use group_filter_ensures;

    let shown = entries.filter(listed_pred(show_hidden));
    let arranged = shown.sort_by(entry_order());
    let rows = listing(dir, show_hidden, entries);
    lemma_entry_order_total();
    shown.lemma_sort_by_ensures(entry_order());
    assert(arranged.len() == arranged.to_multiset().len());
    assert(shown.len() == shown.to_multiset().len());
    assert forall|i: int| 0 <= i < rows.len() implies (#[trigger] rows[i]).drop_last() == dir
        && is_listed(show_hidden, rows[i].last()) by {
        let e = arranged[i];
        assert(rows[i] == dir.push(e.0));
        assert(rows[i].drop_last() =~= dir);
        assert(arranged.contains(e));
        assert(arranged.to_multiset().count(e) > 0);
        assert(shown.contains(e));
        let k = choose|k: int| 0 <= k < shown.len() && shown[k] == e;
        assert(listed_pred(show_hidden)(shown[k]));
    }
    assert forall|e: (Seq<u8>, bool)| #[trigger]
        entries.contains(e) && is_listed(show_hidden, e.0) implies rows.contains(dir.push(e.0)) by {
        let k = choose|k: int| 0 <= k < entries.len() && entries[k] == e;
        assert(listed_pred(show_hidden)(entries[k]));
        assert(shown.contains(e));
        assert(shown.to_multiset().count(e) > 0);
        assert(arranged.contains(e));
        let j = choose|j: int| 0 <= j < arranged.len() && arranged[j] == e;
        assert(rows[j] == dir.push(e.0));
    }
}


/// With hidden files not shown, a directory's listing holds the path of
/// every entry whose name is valid UTF-8 and does not begin with `.`, and
/// no other: each row is the path in the directory of an entry's name that
/// is valid UTF-8 and does not begin with `.`. With hidden files shown,
/// every entry is listed.
pub proof fn law_listing_hides_dot_and_non_utf8_names(
    dir: Seq<Seq<u8>>,
    show_hidden: bool,
    entries: Seq<(Seq<u8>, bool)>,
)
    ensures
        forall|e: (Seq<u8>, bool)| #[trigger]
            entries.contains(e) && (show_hidden || (valid_utf8(e.0) && !(e.0.len() > 0 && e.0[0]
                == 0x2eu8))) ==> listing(dir, show_hidden, entries).contains(dir.push(e.0)),
        forall|i: int|
            0 <= i < listing(dir, show_hidden, entries).len() ==> {
                let row = #[trigger] listing(dir, show_hidden, entries)[i];
                &&& row.len() > 0
                &&& row.drop_last() == dir
                &&& exists|e: (Seq<u8>, bool)| entries.contains(e) && e.0 == row.last()
                &&& !show_hidden ==> valid_utf8(row.last()) && !(row.last().len() > 0
                    && row.last()[0] == 0x2eu8)
            },
{
    broadcast use group_to_multiset_ensures;
    broadcast use group_filter_ensures;

    let shown = entries.filter(listed_pred(show_hidden));
    let arranged = shown.sort_by(entry_order());
    let rows = listing(dir, show_hidden, entries);
    lemma_entry_order_total();
    shown.lemma_sort_by_ensures(entry_order());
    assert forall|e: (Seq<u8>, bool)| #[trigger]
        entries.contains(e) && (show_hidden || (valid_utf8(e.0) && !(e.0.len() > 0 && e.0[0]
            == 0x2eu8))) implies rows.contains(dir.push(e.0)) by {
        let k = choose|k: int| 0 <= k < entries.len() && entries[k] == e;
        assert(listed_pred(show_hidden)(entries[k]));
        assert(shown.contains(e));
        assert(shown.to_multiset().count(e) > 0);
        assert(arranged.contains(e));
        let j = choose|j: int| 0 <= j < arranged.len() && arranged[j] == e;
        assert(rows[j] == dir.push(e.0));
    }
    assert forall|i: int| 0 <= i < rows.len() implies {
        let row = #[trigger] rows[i];
        &&& row.len() > 0
        &&& row.drop_last() == dir
        &&& exists|e: (Seq<u8>, bool)| entries.contains(e) && e.0 == row.last()
        &&& !show_hidden ==> valid_utf8(row.last()) && !(row.last().len() > 0 && row.last()[0]
            == 0x2eu8)
    } by {
        let e = arranged[i];
        assert(rows[i] == dir.push(e.0));
        assert(rows[i].drop_last() =~= dir);
        assert(rows[i].last() == e.0);
        assert(arranged.contains(e));
        assert(arranged.to_multiset().count(e) > 0);
        assert(shown.contains(e));
        let k = choose|k: int| 0 <= k < shown.len() && shown[k] == e;
        assert(listed_pred(show_hidden)(shown[k]));
        entries.lemma_filter_contains_rev(listed_pred(show_hidden), e);
        assert(entries.contains(e));
    }
}

} // verus!
