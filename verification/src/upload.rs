//! What the poster derives from the list of files of an upload: the root
//! folder they share, and how many subfolders the upload holds.

use vstd::prelude::*;

use crate::text::{chars_of, lemma_split_on_nonempty, split_chars, split_on, string_of};

verus! {

/// `std::path::PathBuf`, declared so that it can be carried through; nothing
/// is stated about what a path holds.
#[verifier::external_type_specification]
#[verifier::external_body]
pub struct ExPathBuf(std::path::PathBuf);

/// One file of an upload: where it is on disk, and its name inside the
/// upload (a relative path with `/` between folders).
pub struct InputFile {
    pub path: std::path::PathBuf,
    pub name: String,
}

/// The text of `name` before its first `/` (`str::split_once('/')`), or
/// `None` when it holds no `/`.
pub open spec fn root_of(name: Seq<char>) -> Option<Seq<char>>
    decreases name.len(),
{
    if name.len() == 0 {
        None
    } else if name[0] == '/' {
        Some(Seq::empty())
    } else {
        match root_of(name.drop_first()) {
            Some(r) => Some(seq![name[0]] + r),
            None => None,
        }
    }
}

/// The single root folder shared by every name: `None` when there are no
/// names, when some name has no folder, or when two roots differ.
pub open spec fn shared_root(names: Seq<Seq<char>>) -> Option<Seq<char>> {
    if names.len() > 0 && forall|i: int|
        0 <= i < names.len() ==> #[trigger] root_of(names[i]) is Some && root_of(names[i])
            == root_of(names[0]) {
        root_of(names[0])
    } else {
        None
    }
}

/// The names of the files of an upload.
pub open spec fn input_names(inputs: Seq<InputFile>) -> Seq<Seq<char>> {
    inputs.map_values(|f: InputFile| f.name@)
}

/// `t` is the text of `n` before its first `/`: `n` is `t`, then a `/`,
/// then the rest, and `t` holds no `/`.
pub open spec fn is_text_before_first_slash(n: Seq<char>, t: Seq<char>) -> bool {
    &&& n.len() > t.len()
    &&& n[t.len() as int] == '/'
    &&& n.take(t.len() as int) == t
    &&& !t.contains('/')
}

proof fn lemma_root_of_is_text_before_first_slash(n: Seq<char>, t: Seq<char>)
    ensures
        root_of(n) == Some(t) <==> is_text_before_first_slash(n, t),
{
    if exists|i: int| 0 <= i < n.len() && n[i] == '/' {
        let j = choose|i: int| 0 <= i < n.len() && n[i] == '/';
        let first = first_slash(n, j);
        lemma_root_at(n, first);
        if is_text_before_first_slash(n, t) {
            if t.len() < first {
                assert(n[t.len() as int] == '/');
            }
            if t.len() > first {
                assert(t[first] == n.take(t.len() as int)[first]);
                assert(t.contains(t[first]));
            }
            assert(t.len() == first);
        }
        if root_of(n) == Some(t) {
            assert(t =~= n.take(first));
            assert forall|k: int| 0 <= k < t.len() implies t[k] != '/' by {
                assert(t[k] == n[k]);
            }
        }
    } else {
        lemma_root_none(n);
        if is_text_before_first_slash(n, t) {
            assert(n[t.len() as int] == '/');
        }
    }
}

/// The position of the first `/` of `n`, given that the one at `j` is one.
proof fn first_slash(n: Seq<char>, j: int) -> (first: int)
    requires
        0 <= j < n.len(),
        n[j] == '/',
    ensures
        0 <= first <= j,
        n[first] == '/',
        forall|k: int| 0 <= k < first ==> n[k] != '/',
    decreases j,
{
    if exists|k: int| 0 <= k < j && n[k] == '/' {
        let k = choose|k: int| 0 <= k < j && n[k] == '/';
        first_slash(n, k)
    } else {
        j
    }
}

/// The shared root is the text before the first `/` of every name: when
/// there is one, every name is that text, a `/`, and the rest; when there
/// is none, no text is before the first `/` of every name (there are no
/// names, a name has no `/`, or two names differ before their first `/`).
pub proof fn law_shared_root_is_text_before_first_slash(names: Seq<Seq<char>>)
    ensures
        shared_root(names) matches Some(t) ==> names.len() > 0 && forall|i: int|
            0 <= i < names.len() ==> is_text_before_first_slash(#[trigger] names[i], t),
        shared_root(names) is None ==> forall|t: Seq<char>|
            names.len() > 0 && #[trigger] is_text_before_first_slash(names[0], t) ==> exists|i: int|
                0 <= i < names.len() && !#[trigger] is_text_before_first_slash(names[i], t),
{
    if let Some(t) = shared_root(names) {
        assert forall|i: int| 0 <= i < names.len() implies is_text_before_first_slash(
            #[trigger] names[i],
            t,
        ) by {
            assert(root_of(names[i]) is Some && root_of(names[i]) == root_of(names[0]));
            lemma_root_of_is_text_before_first_slash(names[i], t);
        }
    } else {
        assert forall|t: Seq<char>|
            names.len() > 0 && #[trigger] is_text_before_first_slash(names[0], t) implies exists|i: int|
                0 <= i < names.len() && !#[trigger] is_text_before_first_slash(names[i], t) by {
            if forall|i: int|
                0 <= i < names.len() ==> #[trigger] is_text_before_first_slash(names[i], t) {
                assert forall|i: int| 0 <= i < names.len() implies #[trigger] root_of(names[i]) is Some
                    && root_of(names[i]) == root_of(names[0]) by {
                    assert(is_text_before_first_slash(names[i], t));
                    lemma_root_of_is_text_before_first_slash(names[i], t);
                    assert(is_text_before_first_slash(names[0], t));
                    lemma_root_of_is_text_before_first_slash(names[0], t);
                }
            }
        }
    }
}

/// The root of `name`, computed.
fn split_root(name: &str) -> (r: Option<Vec<char>>)
    ensures
        r is None <==> root_of(name@) is None,
        r matches Some(v) ==> root_of(name@) == Some(v@),
{
    let cs = chars_of(name);
    let mut i: usize = 0;
    while i < cs.len()
        invariant
            0 <= i <= cs.len(),
            cs@ == name@,
            forall|k: int| 0 <= k < i ==> cs@[k] != '/',
        decreases cs.len() - i,
    {
        if cs[i] == '/' {
            let mut root: Vec<char> = Vec::new();
            let mut j: usize = 0;
            while j < i
                invariant
                    0 <= j <= i,
                    i < cs.len(),
                    root@ == cs@.take(j as int),
                decreases i - j,
            {
                root.push(cs[j]);
                assert(cs@.take(j as int + 1) == cs@.take(j as int).push(cs@[j as int]));
                j = j + 1;
            }
            proof {
                lemma_root_at(cs@, i as int);
            }
            return Some(root);
        }
        i = i + 1;
    }
    proof {
        lemma_root_none(cs@);
    }
    None
}

proof fn lemma_root_at(s: Seq<char>, i: int)
    requires
        0 <= i < s.len(),
        s[i] == '/',
        forall|k: int| 0 <= k < i ==> s[k] != '/',
    ensures
        root_of(s) == Some(s.take(i)),
    decreases i,
{
    if i == 0 {
        assert(s.take(0) =~= Seq::<char>::empty());
    } else {
        lemma_root_at(s.drop_first(), i - 1);
        assert(s.take(i) =~= seq![s[0]] + s.drop_first().take(i - 1));
    }
}

proof fn lemma_root_none(s: Seq<char>)
    requires
        forall|k: int| 0 <= k < s.len() ==> s[k] != '/',
    ensures
        root_of(s) is None,
    decreases s.len(),
{
    if s.len() > 0 {
        lemma_root_none(s.drop_first());
    }
}

/// The single root folder shared by every input, or `None` for loose files
/// or a mix of roots. Used to name the `.nzb` after the uploaded directory.
pub fn upload_root(inputs: &[InputFile]) -> (r: Option<String>)
    ensures
        r is None <==> shared_root(input_names(inputs@)) is None,
        r matches Some(s) ==> shared_root(input_names(inputs@)) == Some(s@),
        r matches Some(s) ==> inputs@.len() > 0 && forall|i: int|
            0 <= i < inputs@.len() ==> is_text_before_first_slash(
                #[trigger] input_names(inputs@)[i],
                s@,
            ),
        r is None ==> forall|t: Seq<char>|
            inputs@.len() > 0 && #[trigger] is_text_before_first_slash(input_names(inputs@)[0], t)
                ==> exists|i: int|
                0 <= i < inputs@.len() && !#[trigger] is_text_before_first_slash(
                    input_names(inputs@)[i],
                    t,
                ),
{
    let ghost names = input_names(inputs@);
    let mut root: Option<Vec<char>> = None;
    let mut i: usize = 0;
    while i < inputs.len()
        invariant
            0 <= i <= inputs.len(),
            names == input_names(inputs@),
            i == 0 ==> root is None,
            i > 0 ==> (root matches Some(v) && forall|k: int|
                0 <= k < i ==> #[trigger] root_of(names[k]) == Some(v@)),
        decreases inputs.len() - i,
    {
        assert(names[i as int] == inputs@[i as int].name@);
        let candidate = match split_root(inputs[i].name.as_str()) {
            Some(c) => c,
            None => {
                proof {
                    assert(!(root_of(names[i as int]) is Some));
                    law_shared_root_is_text_before_first_slash(names);
                }
                return None;
            },
        };
        match root {
            Some(existing) => {
                if !same_chars(&existing, &candidate) {
                    proof {
                        assert(root_of(names[0]) == Some(existing@));
                        assert(root_of(names[i as int]) != root_of(names[0]));
                        law_shared_root_is_text_before_first_slash(names);
                    }
                    return None;
                }
                root = Some(existing);
            },
            None => {
                root = Some(candidate);
            },
        }
        i = i + 1;
    }
    proof {
        law_shared_root_is_text_before_first_slash(names);
    }
    match root {
        None => None,
        Some(v) => {
            proof {
                assert(root_of(names[0]) == Some(v@));
            }
            Some(string_of(&v))
        },
    }
}

/// Whether two character sequences are equal.
fn same_chars(a: &Vec<char>, b: &Vec<char>) -> (r: bool)
    ensures
        r == (a@ == b@),
{
    if a.len() != b.len() {
        return false;
    }
    let mut i: usize = 0;
    while i < a.len()
        invariant
            0 <= i <= a.len(),
            a.len() == b.len(),
            forall|k: int| 0 <= k < i ==> a@[k] == b@[k],
        decreases a.len() - i,
    {
        if a[i] != b[i] {
            return false;
        }
        i = i + 1;
    }
    assert(a@ =~= b@);
    true
}

} // verus!

verus! {

/// The folder path after descending into folder `comp` from `prefix` (the
/// empty prefix being the top of the upload).
pub open spec fn extend_prefix(prefix: Seq<char>, comp: Seq<char>) -> Seq<char> {
    if prefix.len() > 0 {
        prefix + seq!['/'] + comp
    } else {
        comp
    }
}

/// The folder paths met while descending from `prefix` through the
/// folders `comps`, keeping those that lie below a root folder (they hold
/// a `/`).
pub open spec fn prefixes_from(prefix: Seq<char>, comps: Seq<Seq<char>>) -> Set<Seq<char>>
    decreases comps.len(),
{
    if comps.len() == 0 {
        Set::empty()
    } else {
        let p = extend_prefix(prefix, comps[0]);
        let rest = prefixes_from(p, comps.drop_first());
        if p.contains('/') {
            rest.insert(p)
        } else {
            rest
        }
    }
}

/// The subfolders on the path of the file called `name`: every folder of
/// its path below the root folder.
pub open spec fn subfolders_of(name: Seq<char>) -> Set<Seq<char>> {
    prefixes_from(Seq::empty(), split_on(name, '/').drop_last())
}

/// The subfolders of an upload whose files are called `names`.
pub open spec fn all_subfolders(names: Seq<Seq<char>>) -> Set<Seq<char>>
    decreases names.len(),
{
    if names.len() == 0 {
        Set::empty()
    } else {
        all_subfolders(names.drop_last()).union(subfolders_of(names.last()))
    }
}

/// The folder paths below a root folder that hold the files called
/// `names`: each text that a name holds before one of its `/`, where that
/// text itself holds a `/`.
pub open spec fn folder_paths(names: Seq<Seq<char>>) -> Set<Seq<char>> {
    Set::new(
        |f: Seq<char>|
            exists|i: int, k: int|
                0 <= i < names.len() && 0 <= k < names[i].len() && names[i][k] == '/' && f
                    == names[i].take(k) && f.contains('/'),
    )
}

/// The folder reached from `prefix` by descending through `comps`.
spec fn descend(prefix: Seq<char>, comps: Seq<Seq<char>>) -> Seq<char>
    decreases comps.len(),
{
    if comps.len() == 0 {
        prefix
    } else {
        descend(extend_prefix(prefix, comps[0]), comps.drop_first())
    }
}

/// `f` when it lies below a root folder, as a set of at most one path.
spec fn below_root_only(f: Seq<char>) -> Set<Seq<char>> {
    if f.contains('/') {
        Set::empty().insert(f)
    } else {
        Set::empty()
    }
}

proof fn lemma_prefixes_from_push(prefix: Seq<char>, comps: Seq<Seq<char>>, last: Seq<char>)
    ensures
        descend(prefix, comps.push(last)) == extend_prefix(descend(prefix, comps), last),
        prefixes_from(prefix, comps.push(last)) == prefixes_from(prefix, comps).union(
            below_root_only(extend_prefix(descend(prefix, comps), last)),
        ),
    decreases comps.len(),
{
    let all = comps.push(last);
    if comps.len() == 0 {
        assert(all.drop_first() =~= Seq::<Seq<char>>::empty());
        let p = extend_prefix(prefix, last);
        assert(descend(p, all.drop_first()) == p);
        assert(prefixes_from(p, all.drop_first()) == Set::<Seq<char>>::empty());
        assert(descend(prefix, comps) == prefix);
        assert(prefixes_from(prefix, comps) == Set::<Seq<char>>::empty());
        assert(prefixes_from(prefix, comps.push(last)) =~= prefixes_from(prefix, comps).union(
            below_root_only(extend_prefix(descend(prefix, comps), last)),
        ));
    } else {
        let p = extend_prefix(prefix, comps[0]);
        assert(all.drop_first() =~= comps.drop_first().push(last));
        assert(all[0] == comps[0]);
        lemma_prefixes_from_push(p, comps.drop_first(), last);
        assert(prefixes_from(prefix, comps.push(last)) =~= prefixes_from(prefix, comps).union(
            below_root_only(extend_prefix(descend(prefix, comps), last)),
        ));
    }
}

proof fn lemma_descend_split(s: Seq<char>)
    requires
        s.len() == 0 || s[0] != '/',
    ensures
        descend(Seq::empty(), split_on(s, '/')) == s,
    decreases s.len(),
{
    if s.len() == 0 {
        let e = Seq::<char>::empty();
        assert(split_on(s, '/') == seq![e]);
        assert(seq![e].drop_first() =~= Seq::<Seq<char>>::empty());
        assert(extend_prefix(e, e) =~= s);
        assert(descend(extend_prefix(e, e), seq![e].drop_first()) == extend_prefix(e, e));
    } else {
        let s1 = s.drop_last();
        let c = s.last();
        let pieces = split_on(s1, '/');
        lemma_split_on_nonempty(s1, '/');
        if s1.len() > 0 {
            assert(s1[0] == s[0]);
        }
        lemma_descend_split(s1);
        let front = pieces.drop_last();
        assert(pieces =~= front.push(pieces.last()));
        lemma_prefixes_from_push(Seq::empty(), front, pieces.last());
        let d = descend(Seq::<char>::empty(), front);
        if c == '/' {
            assert(split_on(s, '/') == pieces.push(Seq::empty()));
            lemma_prefixes_from_push(Seq::empty(), pieces, Seq::empty());
            assert(s1.len() > 0);
            assert(extend_prefix(s1, Seq::empty()) =~= s);
        } else {
            let q = pieces.update(pieces.len() - 1, pieces.last().push(c));
            assert(split_on(s, '/') == q);
            assert(q =~= front.push(pieces.last().push(c)));
            lemma_prefixes_from_push(Seq::empty(), front, pieces.last().push(c));
            assert(extend_prefix(d, pieces.last().push(c)) =~= extend_prefix(d, pieces.last()).push(c));
            assert(s1.push(c) =~= s);
        }
    }
}

/// The subfolders on the path of `n`, read directly off `n`.
spec fn folders_on_path(n: Seq<char>) -> Set<Seq<char>> {
    Set::new(
        |f: Seq<char>|
            exists|k: int| 0 <= k < n.len() && n[k] == '/' && f == n.take(k) && f.contains('/'),
    )
}

proof fn lemma_subfolders_of_direct(n: Seq<char>)
    requires
        n.len() == 0 || n[0] != '/',
    ensures
        subfolders_of(n) == folders_on_path(n),
    decreases n.len(),
{
    if n.len() == 0 {
        let e = Seq::<char>::empty();
        assert(split_on(n, '/') == seq![e]);
        assert(seq![e].drop_last() =~= Seq::<Seq<char>>::empty());
        assert(folders_on_path(n) =~= Set::<Seq<char>>::empty());
    } else {
        let n1 = n.drop_last();
        let c = n.last();
        if n1.len() > 0 {
            assert(n1[0] == n[0]);
        }
        lemma_subfolders_of_direct(n1);
        let pieces = split_on(n1, '/');
        lemma_split_on_nonempty(n1, '/');
        let front = pieces.drop_last();
        assert forall|k: int| 0 <= k < n1.len() implies n.take(k) == n1.take(k) && n[k] == n1[k] by {
            assert(n.take(k) =~= n1.take(k));
        }
        if c == '/' {
            assert(split_on(n, '/') == pieces.push(Seq::empty()));
            assert(pieces.push(Seq::empty()).drop_last() =~= pieces);
            assert(pieces =~= front.push(pieces.last()));
            lemma_prefixes_from_push(Seq::empty(), front, pieces.last());
            lemma_descend_split(n1);
            assert(n.take(n1.len() as int) =~= n1);
            assert(folders_on_path(n) =~= folders_on_path(n1).union(below_root_only(n1)));
        } else {
            let q = pieces.update(pieces.len() - 1, pieces.last().push(c));
            assert(split_on(n, '/') == q);
            assert(q.drop_last() =~= front);
            assert(folders_on_path(n) =~= folders_on_path(n1));
        }
    }
}

/// For files whose names do not begin with `/` (names relative to the
/// upload), the subfolders of an upload are exactly its folder paths below
/// a root folder: each text that a name holds before one of its `/`, when
/// that text itself holds a `/`. Two folders count as one only when their
/// whole paths are the same.
pub proof fn law_subfolders_are_folder_paths(names: Seq<Seq<char>>)
    requires
        forall|i: int| 0 <= i < names.len() ==> !(#[trigger] names[i].len() > 0 && names[i][0] == '/'),
    ensures
        all_subfolders(names) == folder_paths(names),
    decreases names.len(),
{
    if names.len() == 0 {
        assert(folder_paths(names) =~= Set::<Seq<char>>::empty());
    } else {
        let front = names.drop_last();
        assert forall|i: int| 0 <= i < front.len() implies !(#[trigger] front[i].len() > 0 && front[i][0] == '/') by {
            assert(front[i] == names[i]);
        }
        law_subfolders_are_folder_paths(front);
        let n = names.last();
        assert(!(names[names.len() - 1].len() > 0 && names[names.len() - 1][0] == '/'));
        lemma_subfolders_of_direct(n);
        assert forall|f: Seq<char>| #[trigger] folder_paths(names).contains(f) == (folder_paths(
            front,
        ).contains(f) || folders_on_path(n).contains(f)) by {
            if folder_paths(names).contains(f) {
                let (i, k) = choose|i: int, k: int|
                    0 <= i < names.len() && 0 <= k < names[i].len() && names[i][k] == '/' && f
                        == names[i].take(k) && f.contains('/');
                if i < front.len() {
                    assert(front[i] == names[i]);
                } else {
                    assert(names[i] == n);
                }
            }
            if folder_paths(front).contains(f) {
                let (i, k) = choose|i: int, k: int|
                    0 <= i < front.len() && 0 <= k < front[i].len() && front[i][k] == '/' && f
                        == front[i].take(k) && f.contains('/');
                assert(front[i] == names[i]);
            }
            if folders_on_path(n).contains(f) {
                let k = choose|k: int| 0 <= k < n.len() && n[k] == '/' && f == n.take(k) && f.contains('/');
                assert(names[names.len() - 1] == n);
            }
        }
        assert(all_subfolders(names) =~= folder_paths(names));
    }
}

/// The sum of the known sizes.
pub open spec fn total_size(sizes: Seq<Option<u64>>) -> nat
    decreases sizes.len(),
{
    if sizes.len() == 0 {
        0
    } else {
        total_size(sizes.drop_last()) + match sizes.last() {
            Some(n) => n as nat,
            None => 0,
        }
    }
}

proof fn lemma_total_size_prefix(sizes: Seq<Option<u64>>, i: int)
    requires
        0 <= i <= sizes.len(),
    ensures
        total_size(sizes.take(i)) <= total_size(sizes),
    decreases sizes.len(),
{
    if i < sizes.len() {
        assert(sizes.drop_last().take(i) =~= sizes.take(i));
        lemma_total_size_prefix(sizes.drop_last(), i);
    } else {
        assert(sizes.take(i) =~= sizes);
    }
}

proof fn lemma_split_pieces_have_no_sep(s: Seq<char>, sep: char)
    ensures
        forall|k: int| 0 <= k < split_on(s, sep).len() ==> !(#[trigger] split_on(s, sep)[k]).contains(sep),
    decreases s.len(),
{
    lemma_split_on_nonempty(s, sep);
    if s.len() > 0 {
        lemma_split_pieces_have_no_sep(s.drop_last(), sep);
        lemma_split_on_nonempty(s.drop_last(), sep);
        let p = split_on(s.drop_last(), sep);
        if s.last() != sep {
            let l = p.last().push(s.last());
            assert forall|x: int| 0 <= x < l.len() implies l[x] != sep by {
                if x < p.last().len() {
                    assert(!p[p.len() - 1].contains(sep));
                    assert(p.last()[x] != sep);
                }
            }
        }
    }
}

/// A copy of `v`.
fn copy_chars(v: &Vec<char>) -> (r: Vec<char>)
    ensures
        r@ == v@,
{
    let mut r: Vec<char> = Vec::new();
    let mut i: usize = 0;
    while i < v.len()
        invariant
            0 <= i <= v.len(),
            r@ == v@.take(i as int),
        decreases v.len() - i,
    {
        r.push(v[i]);
        assert(v@.take(i as int + 1) == v@.take(i as int).push(v@[i as int]));
        i = i + 1;
    }
    assert(v@.take(v.len() as int) == v@);
    r
}

/// Whether `v` is among `seen`.
fn holds(seen: &Vec<Vec<char>>, v: &Vec<char>) -> (r: bool)
    ensures
        r == seen@.map_values(|x: Vec<char>| x@).contains(v@),
{
    let ghost vs = seen@.map_values(|x: Vec<char>| x@);
    let mut i: usize = 0;
    while i < seen.len()
        invariant
            0 <= i <= seen.len(),
            vs == seen@.map_values(|x: Vec<char>| x@),
            forall|k: int| 0 <= k < i ==> vs[k] != v@,
        decreases seen.len() - i,
    {
        if same_chars(&seen[i], v) {
            assert(vs[i as int] == v@);
            return true;
        }
        i = i + 1;
    }
    false
}

/// The upload as `(file count, subfolder count, total bytes)`, given the size
/// of each file where it could be read (`sizes[i]` for `inputs[i]`). A
/// subfolder is any directory below a root folder; the root folder itself
/// and loose files contribute none.
pub fn upload_summary(inputs: &[InputFile], sizes: &[Option<u64>]) -> (r: (usize, usize, u64))
    requires
        sizes@.len() == inputs@.len(),
        total_size(sizes@) <= u64::MAX,
    ensures
        r.0 == inputs@.len(),
        r.1 == all_subfolders(input_names(inputs@)).len(),
        (forall|i: int|
            0 <= i < inputs@.len() ==> !(#[trigger] input_names(inputs@)[i].len() > 0
                && input_names(inputs@)[i][0] == '/')) ==> r.1 == folder_paths(
            input_names(inputs@),
        ).len(),
        r.2 == total_size(sizes@),
{
    let ghost names = input_names(inputs@);
    let mut folders: Vec<Vec<char>> = Vec::new();
    let mut bytes: u64 = 0;
    let mut i: usize = 0;
    while i < inputs.len()
        invariant
            0 <= i <= inputs.len(),
            sizes@.len() == inputs@.len(),
            total_size(sizes@) <= u64::MAX,
            names == input_names(inputs@),
            folders@.map_values(|x: Vec<char>| x@).no_duplicates(),
            folders@.map_values(|x: Vec<char>| x@).to_set() == all_subfolders(names.take(i as int)),
            bytes == total_size(sizes@.take(i as int)),
        decreases inputs.len() - i,
    {
        let ghost name = names[i as int];
        assert(name == inputs@[i as int].name@);
        let comps = split_chars(inputs[i].name.as_str(), '/');
        let ghost pieces = split_on(name, '/');
        let ghost dirs = pieces.drop_last();
        proof {
            lemma_split_on_nonempty(name, '/');
            lemma_split_pieces_have_no_sep(name, '/');
            assert(names.take(i as int + 1).drop_last() =~= names.take(i as int));
            assert(names.take(i as int + 1).last() == name);
            assert(dirs.skip(0) =~= dirs);
        }
        let ghost target = all_subfolders(names.take(i as int + 1));
        let mut prefix: Vec<char> = Vec::new();
        let mut j: usize = 0;
        while j < comps.len() - 1
            invariant
                0 <= j <= dirs.len(),
                comps@.len() == pieces.len(),
                dirs == pieces.drop_last(),
                pieces.len() >= 1,
                forall|k: int| 0 <= k < comps@.len() ==> #[trigger] comps@[k]@ == pieces[k],
                forall|k: int| 0 <= k < pieces.len() ==> !(#[trigger] pieces[k]).contains('/'),
                target == all_subfolders(names.take(i as int)).union(subfolders_of(name)),
                folders@.map_values(|x: Vec<char>| x@).no_duplicates(),
                folders@.map_values(|x: Vec<char>| x@).to_set().union(
                    prefixes_from(prefix@, dirs.skip(j as int)),
                ) == target,
            decreases dirs.len() - j,
        {
            let ghost old_prefix = prefix@;
            let ghost fv = folders@.map_values(|x: Vec<char>| x@);
            let below_root = prefix.len() > 0;
            let comp = &comps[j];
            if below_root {
                prefix.push('/');
            }
            let ghost base = prefix@;
            let mut k: usize = 0;
            while k < comp.len()
                invariant
                    0 <= k <= comp.len(),
                    prefix@ == base + comp@.take(k as int),
                decreases comp.len() - k,
            {
                prefix.push(comp[k]);
                assert(comp@.take(k as int + 1) == comp@.take(k as int).push(comp@[k as int]));
                k = k + 1;
            }
            let ghost p = prefix@;
            proof {
                assert(comp@.take(comp.len() as int) == comp@);
                assert(dirs.skip(j as int)[0] == dirs[j as int]);
                assert(dirs[j as int] == pieces[j as int]);
                assert(dirs.skip(j as int).drop_first() =~= dirs.skip(j as int + 1));
                assert(p =~= extend_prefix(old_prefix, comp@));
                if below_root {
                    assert(p[old_prefix.len() as int] == '/');
                    assert(p.contains('/'));
                } else {
                    assert(!pieces[j as int].contains('/'));
                    assert(p =~= comp@);
                    assert(!p.contains('/'));
                }
            }
            if below_root && !holds(&folders, &prefix) {
                let copy = copy_chars(&prefix);
                folders.push(copy);
                proof {
                    let nv = folders@.map_values(|x: Vec<char>| x@);
                    assert(nv =~= fv.push(p));
                    assert forall|a: int, b: int| 0 <= a < nv.len() && 0 <= b < nv.len() && a != b
                        implies nv[a] != nv[b] by {
                        if a < fv.len() && b < fv.len() {
                            assert(fv[a] != fv[b]);
                        } else if a == fv.len() {
                            assert(fv.contains(fv[b]));
                        } else {
                            assert(fv.contains(fv[a]));
                        }
                    }
                    Seq::lemma_to_set_insert_commutes(fv, p);
                    assert(fv.push(p) =~= fv + seq![p]);
                }
            }
            proof {
                let nv = folders@.map_values(|x: Vec<char>| x@);
                assert(nv.to_set().union(prefixes_from(p, dirs.skip(j as int + 1))) =~= target);
            }
            j = j + 1;
        }
        proof {
            assert(dirs.skip(j as int).len() == 0);
            assert(folders@.map_values(|x: Vec<char>| x@).to_set() =~= target);
        }
        bytes = match sizes[i] {
            Some(n) => {
                proof {
                    lemma_total_size_prefix(sizes@, i as int + 1);
                    assert(sizes@.take(i as int + 1).drop_last() =~= sizes@.take(i as int));
                }
                bytes + n
            },
            None => {
                proof {
                    assert(sizes@.take(i as int + 1).drop_last() =~= sizes@.take(i as int));
                }
                bytes
            },
        };
        i = i + 1;
    }
    proof {
        assert(names.take(inputs.len() as int) =~= names);
        assert(sizes@.take(inputs.len() as int) =~= sizes@);
        folders@.map_values(|x: Vec<char>| x@).unique_seq_to_set();
        if forall|i: int|
            0 <= i < names.len() ==> !(#[trigger] names[i].len() > 0 && names[i][0] == '/') {
            law_subfolders_are_folder_paths(names);
        }
    }
    (inputs.len(), folders.len(), bytes)
}

} // verus!
