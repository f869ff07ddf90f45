//! Absolute file-system paths held as their list of components, with the
//! order, equality and parent that `std::path::PathBuf` gives such paths.

use vstd::prelude::*;
use vstd::relations::*;

verus! {

/// An absolute path: the root directory followed by `parts`, each one a
/// normal component (a file or directory name, as raw bytes). `/` is the
/// path with no parts; `/home/user` has the parts `home` and `user`.
pub struct FsPath {
    pub parts: Vec<Vec<u8>>,
}

impl View for FsPath {
    type V = Seq<Seq<u8>>;

    open spec fn view(&self) -> Seq<Seq<u8>> {
        self.parts@.map_values(|p: Vec<u8>| p@)
    }
}

/// Three-way lexicographic comparison of byte strings (`-1`, `0` or `1`),
/// the order of `OsStr` on Unix.
pub open spec fn bytes_compare(a: Seq<u8>, b: Seq<u8>) -> int
    decreases a.len(),
{
    if a.len() == 0 {
        if b.len() == 0 { 0 } else { -1 }
    } else if b.len() == 0 {
        1
    } else if a[0] < b[0] {
        -1
    } else if a[0] > b[0] {
        1
    } else {
        bytes_compare(a.drop_first(), b.drop_first())
    }
}

/// Three-way comparison of component lists: component by component, a
/// proper prefix first. This is how `Path` orders paths.
pub open spec fn parts_compare(a: Seq<Seq<u8>>, b: Seq<Seq<u8>>) -> int
    decreases a.len(),
{
    if a.len() == 0 {
        if b.len() == 0 { 0 } else { -1 }
    } else if b.len() == 0 {
        1
    } else if bytes_compare(a[0], b[0]) != 0 {
        bytes_compare(a[0], b[0])
    } else {
        parts_compare(a.drop_first(), b.drop_first())
    }
}

/// The order of paths as a relation: `a` sorts no later than `b`.
pub open spec fn path_order() -> spec_fn(Seq<Seq<u8>>, Seq<Seq<u8>>) -> bool {
    |a: Seq<Seq<u8>>, b: Seq<Seq<u8>>| parts_compare(a, b) <= 0
}

/// Comparison of byte strings is a sign, is zero exactly on equal strings,
/// and flips when its arguments are swapped.
pub proof fn lemma_bytes_compare_basics(a: Seq<u8>, b: Seq<u8>)
    ensures
        -1 <= bytes_compare(a, b) <= 1,
        bytes_compare(a, b) == 0 <==> a == b,
        bytes_compare(a, b) == -bytes_compare(b, a),
    decreases a.len(),
{
    if a.len() > 0 && b.len() > 0 && a[0] == b[0] {
        lemma_bytes_compare_basics(a.drop_first(), b.drop_first());
        if a.drop_first() == b.drop_first() {
            assert(a =~= seq![a[0]] + a.drop_first());
            assert(b =~= seq![b[0]] + b.drop_first());
        }
    }
    if a.len() == 0 && b.len() == 0 {
        assert(a =~= b);
    }
}

/// Comparison of byte strings is transitive.
pub proof fn lemma_bytes_compare_trans(a: Seq<u8>, b: Seq<u8>, c: Seq<u8>)
    requires
        bytes_compare(a, b) <= 0,
        bytes_compare(b, c) <= 0,
    ensures
        bytes_compare(a, c) <= 0,
    decreases a.len(),
{
    if a.len() > 0 && b.len() > 0 && c.len() > 0 && a[0] == b[0] && b[0] == c[0] {
        lemma_bytes_compare_trans(a.drop_first(), b.drop_first(), c.drop_first());
    }
}

/// Comparison of paths is a sign, is zero exactly on equal paths, and flips
/// when its arguments are swapped.
pub proof fn lemma_parts_compare_basics(a: Seq<Seq<u8>>, b: Seq<Seq<u8>>)
    ensures
        -1 <= parts_compare(a, b) <= 1,
        parts_compare(a, b) == 0 <==> a == b,
        parts_compare(a, b) == -parts_compare(b, a),
    decreases a.len(),
{
    if a.len() > 0 && b.len() > 0 {
        lemma_bytes_compare_basics(a[0], b[0]);
        if bytes_compare(a[0], b[0]) == 0 {
            lemma_parts_compare_basics(a.drop_first(), b.drop_first());
            if a.drop_first() == b.drop_first() {
                assert(a =~= seq![a[0]] + a.drop_first());
                assert(b =~= seq![b[0]] + b.drop_first());
            }
        }
    }
    if a.len() == 0 && b.len() == 0 {
        assert(a =~= b);
    }
}

/// Comparison of paths is transitive.
pub proof fn lemma_parts_compare_trans(a: Seq<Seq<u8>>, b: Seq<Seq<u8>>, c: Seq<Seq<u8>>)
    requires
        parts_compare(a, b) <= 0,
        parts_compare(b, c) <= 0,
    ensures
        parts_compare(a, c) <= 0,
    decreases a.len(),
{
    if a.len() > 0 && b.len() > 0 && c.len() > 0 {
        lemma_bytes_compare_basics(a[0], b[0]);
        lemma_bytes_compare_basics(b[0], c[0]);
        lemma_bytes_compare_basics(a[0], c[0]);
        if bytes_compare(a[0], b[0]) <= 0 && bytes_compare(b[0], c[0]) <= 0 {
            lemma_bytes_compare_trans(a[0], b[0], c[0]);
        }
        if bytes_compare(a[0], b[0]) == 0 && bytes_compare(b[0], c[0]) == 0 {
            lemma_parts_compare_trans(a.drop_first(), b.drop_first(), c.drop_first());
        }
        if bytes_compare(a[0], b[0]) < 0 && bytes_compare(b[0], c[0]) == 0 {
            assert(a[0] != c[0]) by {
                if a[0] == c[0] {
                    lemma_bytes_compare_basics(c[0], b[0]);
                }
            }
        }
        if bytes_compare(a[0], b[0]) == 0 && bytes_compare(b[0], c[0]) < 0 {
            assert(a[0] != c[0]);
        }
    }
}

/// The order of paths is a total order.
pub proof fn lemma_path_order_total()
    ensures
        total_ordering(path_order()),
{
    assert forall|x: Seq<Seq<u8>>| #[trigger] path_order()(x, x) by {
        lemma_parts_compare_basics(x, x);
    }
    assert forall|x: Seq<Seq<u8>>, y: Seq<Seq<u8>>|
        #[trigger] path_order()(x, y) && #[trigger] path_order()(y, x) implies x == y by {
        lemma_parts_compare_basics(x, y);
    }
    assert forall|x: Seq<Seq<u8>>, y: Seq<Seq<u8>>, z: Seq<Seq<u8>>|
        #[trigger] path_order()(x, y) && #[trigger] path_order()(y, z) implies path_order()(x, z) by {
        lemma_parts_compare_trans(x, y, z);
    }
    assert forall|x: Seq<Seq<u8>>, y: Seq<Seq<u8>>|
        #[trigger] path_order()(x, y) || #[trigger] path_order()(y, x) by {
        lemma_parts_compare_basics(x, y);
    }
}

/// Three-way comparison of two byte strings.
pub fn compare_bytes(a: &[u8], b: &[u8]) -> (r: i8)
    ensures
        r as int == bytes_compare(a@, b@),
{
    let mut i: usize = 0;
    assert(a@.skip(0) =~= a@);
    assert(b@.skip(0) =~= b@);
    while i < a.len() && i < b.len()
        invariant
            0 <= i <= a.len(),
            i <= b.len(),
            bytes_compare(a@, b@) == bytes_compare(a@.skip(i as int), b@.skip(i as int)),
        decreases a.len() - i,
    {
        if a[i] < b[i] {
            return -1;
        } else if a[i] > b[i] {
            return 1;
        }
        assert(a@.skip(i as int).drop_first() =~= a@.skip(i as int + 1));
        assert(b@.skip(i as int).drop_first() =~= b@.skip(i as int + 1));
        i = i + 1;
    }
    if i < a.len() {
        1
    } else if i < b.len() {
        -1
    } else {
        0
    }
}

impl FsPath {
    /// The root directory `/`.
    pub fn root() -> (p: FsPath)
        ensures
            p@ == Seq::<Seq<u8>>::empty(),
    {
        FsPath { parts: Vec::new() }
    }

    /// A copy of this path.
    pub fn copy(&self) -> (p: FsPath)
        ensures
            p@ == self@,
    {
        let mut parts: Vec<Vec<u8>> = Vec::new();
        let mut i: usize = 0;
        while i < self.parts.len()
            invariant
                0 <= i <= self.parts.len(),
                parts@.len() == i,
                forall|j: int| 0 <= j < i ==> #[trigger] parts@[j]@ == self.parts@[j]@,
            decreases self.parts.len() - i,
        {
            let part = copy_bytes(&self.parts[i]);
            parts.push(part);
            i = i + 1;
        }
        let p = FsPath { parts };
        assert(p@ =~= self@);
        p
    }

    /// The path of the entry called `name` inside this directory
    /// (`Path::join` with a single file name).
    pub fn child(&self, name: &[u8]) -> (p: FsPath)
        ensures
            p@ == self@.push(name@),
    {
        let mut p = self.copy();
        let n = copy_bytes(name);
        p.parts.push(n);
        assert(p@ =~= self@.push(name@));
        p
    }

    /// The parent directory (`Path::parent`): the path without its last
    /// component, or `None` for the root.
    pub fn parent(&self) -> (r: Option<FsPath>)
        ensures
            self@.len() == 0 ==> r is None,
            self@.len() > 0 ==> (r matches Some(p) && p@ == self@.drop_last()),
    {
        if self.parts.len() == 0 {
            None
        } else {
            let mut p = self.copy();
            p.parts.pop();
            assert(p@ =~= self@.drop_last());
            Some(p)
        }
    }

    /// The last component (`Path::file_name`), or `None` for the root.
    pub fn file_name(&self) -> (r: Option<&Vec<u8>>)
        ensures
            self@.len() == 0 ==> r is None,
            self@.len() > 0 ==> (r matches Some(n) && n@ == self@.last()),
    {
        if self.parts.len() == 0 {
            None
        } else {
            Some(&self.parts[self.parts.len() - 1])
        }
    }

    /// Three-way comparison with `other` in the order of paths.
    pub fn compare(&self, other: &FsPath) -> (r: i8)
        ensures
            r as int == parts_compare(self@, other@),
    {
        let mut i: usize = 0;
        assert(self@.skip(0) =~= self@);
        assert(other@.skip(0) =~= other@);
        while i < self.parts.len() && i < other.parts.len()
            invariant
                0 <= i <= self.parts.len(),
                i <= other.parts.len(),
                parts_compare(self@, other@) == parts_compare(self@.skip(i as int), other@.skip(i as int)),
            decreases self.parts.len() - i,
        {
            let c = compare_bytes(&self.parts[i], &other.parts[i]);
            assert(self@.skip(i as int)[0] == self.parts@[i as int]@);
            assert(other@.skip(i as int)[0] == other.parts@[i as int]@);
            if c != 0 {
                return c;
            }
            assert(self@.skip(i as int).drop_first() =~= self@.skip(i as int + 1));
            assert(other@.skip(i as int).drop_first() =~= other@.skip(i as int + 1));
            i = i + 1;
        }
        if i < self.parts.len() {
            1
        } else if i < other.parts.len() {
            -1
        } else {
            0
        }
    }

    /// Whether this path equals `other`.
    pub fn same(&self, other: &FsPath) -> (r: bool)
        ensures
            r == (self@ == other@),
    {
        proof {
            lemma_parts_compare_basics(self@, other@);
        }
        self.compare(other) == 0
    }
}

/// A copy of a byte string.
pub fn copy_bytes(b: &[u8]) -> (r: Vec<u8>)
    ensures
        r@ == b@,
{
    let mut r: Vec<u8> = Vec::new();
    let mut i: usize = 0;
    while i < b.len()
        invariant
            0 <= i <= b.len(),
            r@ == b@.take(i as int),
        decreases b.len() - i,
    {
        r.push(b[i]);
        assert(b@.take(i as int + 1) == b@.take(i as int).push(b@[i as int]));
        i = i + 1;
    }
    assert(b@.take(b.len() as int) == b@);
    r
}

} // verus!

verus! {

impl crate::order::Ranked for FsPath {
    open spec fn order() -> spec_fn(Seq<Seq<u8>>, Seq<Seq<u8>>) -> bool {
        path_order()
    }

    fn ranks_before(&self, other: &FsPath) -> (r: bool) {
        self.compare(other) <= 0
    }
}

/// `/` followed by the parts joined with `/` (empty for no parts).
pub open spec fn joined_parts(p: Seq<Seq<u8>>) -> Seq<u8>
    decreases p.len(),
{
    if p.len() == 0 {
        Seq::empty()
    } else {
        joined_parts(p.drop_last()).push(0x2fu8) + p.last()
    }
}

/// The bytes of the path as the OS spells it: `/` for the root, else each
/// part preceded by `/`.
pub open spec fn path_bytes(p: Seq<Seq<u8>>) -> Seq<u8> {
    if p.len() == 0 {
        seq![0x2fu8]
    } else {
        joined_parts(p)
    }
}

impl FsPath {
    /// The bytes of this path (`OsStr::as_bytes` of the `Path`).
    pub fn to_bytes(&self) -> (r: Vec<u8>)
        ensures
            r@ == path_bytes(self@),
    {
        let mut r: Vec<u8> = Vec::new();
        if self.parts.len() == 0 {
            r.push(0x2f);
            return r;
        }
        let mut i: usize = 0;
        while i < self.parts.len()
            invariant
                0 <= i <= self.parts.len(),
                r@ == joined_parts(self@.take(i as int)),
            decreases self.parts.len() - i,
        {
            r.push(0x2f);
            let part = &self.parts[i];
            let mut k: usize = 0;
            let ghost before = r@;
            while k < part.len()
                invariant
                    0 <= k <= part.len(),
                    r@ == before + part@.take(k as int),
                decreases part.len() - k,
            {
                r.push(part[k]);
                assert(part@.take(k as int + 1) == part@.take(k as int).push(part@[k as int]));
                k = k + 1;
            }
            assert(part@.take(part.len() as int) == part@);
            assert(self@.take(i as int + 1).drop_last() =~= self@.take(i as int));
            assert(self@.take(i as int + 1).last() == part@);
            i = i + 1;
        }
        assert(self@.take(self.parts.len() as int) =~= self@);
        r
    }
}

} // verus!
