use vstd::prelude::*;
use crate::error::{BuildError, Fault, faults, names_view};
use crate::glob::{GlobMatcher, globs_match};
use crate::text::copy_bytes;

verus! {

/// One file of a tree: its path below the tree's root, name by name, and its
/// contents.
pub type Entry = (Vec<String>, Vec<u8>);

/// The path of an entry as a sequence of names.
pub open spec fn key(e: Entry) -> Seq<Seq<char>> {
    names_view(e.0@)
}

/// The files that a list of entries describes; of two entries with the same
/// path the later one counts.
pub open spec fn entries_map(s: Seq<Entry>) -> Map<Seq<Seq<char>>, Seq<u8>>
    decreases s.len(),
{
    if s.len() == 0 {
        Map::empty()
    } else {
        entries_map(s.drop_last()).insert(key(s.last()), s.last().1@)
    }
}

/// A path written with `/` between its names.
pub open spec fn joined(p: Seq<Seq<char>>) -> Seq<char>
    decreases p.len(),
{
    if p.len() == 0 {
        Seq::empty()
    } else if p.len() == 1 {
        p[0]
    } else {
        joined(p.drop_last()) + seq!['/'] + p.last()
    }
}

/// The files of `m` whose path the patterns `g` match (`matching`) or do not
/// match (`!matching`).
pub open spec fn kept(m: Map<Seq<Seq<char>>, Seq<u8>>, g: Seq<Seq<char>>, matching: bool) -> Map<
    Seq<Seq<char>>,
    Seq<u8>,
> {
    Map::new(|k: Seq<Seq<char>>| m.contains_key(k) && globs_match(g, joined(k)) == matching, |k| m[k])
}

pub proof fn lemma_kept_insert(
    m: Map<Seq<Seq<char>>, Seq<u8>>,
    g: Seq<Seq<char>>,
    matching: bool,
    k: Seq<Seq<char>>,
    v: Seq<u8>,
)
    ensures
        kept(m.insert(k, v), g, matching) == (if globs_match(g, joined(k)) == matching {
            kept(m, g, matching).insert(k, v)
        } else {
            kept(m, g, matching)
        }),
{
    if globs_match(g, joined(k)) == matching {
        assert(kept(m.insert(k, v), g, matching) =~= kept(m, g, matching).insert(k, v));
    } else {
        assert(kept(m.insert(k, v), g, matching) =~= kept(m, g, matching));
    }
}

/// Copies a list of names.
pub fn copy_names(p: &Vec<String>) -> (r: Vec<String>)
    ensures
        r@ == p@,
{
    let mut r: Vec<String> = Vec::new();
    let mut i: usize = 0;
    while i < p.len()
        invariant
            i <= p@.len(),
            r@ == p@.subrange(0, i as int),
        decreases p@.len() - i,
    {
        r.push(p[i].clone());
        assert(p@.subrange(0, i + 1) == p@.subrange(0, i as int).push(p@[i as int]));
        i = i + 1;
    }
    assert(p@.subrange(0, p@.len() as int) == p@);
    r
}

/// Whether two paths name the same file.
pub fn same_names(a: &Vec<String>, b: &Vec<String>) -> (r: bool)
    ensures
        r == (names_view(a@) == names_view(b@)),
{
    if a.len() != b.len() {
        assert(names_view(a@).len() != names_view(b@).len());
        return false;
    }
    let mut i: usize = 0;
    while i < a.len()
        invariant
            a@.len() == b@.len(),
            i <= a@.len(),
            forall|j: int| 0 <= j < i ==> a@[j]@ == b@[j]@,
        decreases a@.len() - i,
    {
        if a[i] != b[i] {
            assert(names_view(a@)[i as int] != names_view(b@)[i as int]);
            return false;
        }
        i = i + 1;
    }
    assert(names_view(a@) =~= names_view(b@));
    true
}

/// Writes a path with `/` between its names.
pub fn join_names(p: &Vec<String>) -> (r: String)
    ensures
        r@ == joined(names_view(p@)),
{
    let mut r = String::new();
    let mut i: usize = 0;
    while i < p.len()
        invariant
            i <= p@.len(),
            r@ == joined(names_view(p@).subrange(0, i as int)),
        decreases p@.len() - i,
    {
        let ghost pre = names_view(p@).subrange(0, i as int);
        let ghost next = names_view(p@).subrange(0, i + 1);
        assert(next.drop_last() == pre);
        if i > 0 {
            proof {
                reveal_strlit("/");
            }
            r.append("/");
        }
        r.append(p[i].as_str());
        i = i + 1;
    }
    assert(names_view(p@).subrange(0, p@.len() as int) == names_view(p@));
    r
}

/// No two entries share a path.
pub open spec fn unique_keys(s: Seq<Entry>) -> bool {
    forall|i: int, j: int| 0 <= i < j < s.len() ==> key(#[trigger] s[i]) != key(#[trigger] s[j])
}

/// Overwriting the contents of an entry in place changes the files as an
/// insert does, when paths are unique.
pub proof fn lemma_entries_update(s: Seq<Entry>, i: int, e: Entry)
    requires
        0 <= i < s.len(),
        unique_keys(s),
        key(e) == key(s[i]),
    ensures
        entries_map(s.update(i, e)) == entries_map(s).insert(key(e), e.1@),
    decreases s.len(),
{
    let t = s.update(i, e);
    if i == s.len() - 1 {
        assert(t.drop_last() == s.drop_last());
        assert(entries_map(t) =~= entries_map(s).insert(key(e), e.1@));
    } else {
        assert(t.drop_last() == s.drop_last().update(i, e));
        assert(key(s.last()) != key(s[i]));
        lemma_entries_update(s.drop_last(), i, e);
        assert(entries_map(t) =~= entries_map(s).insert(key(e), e.1@));
    }
}

/// A path that no entry has is not among the files.
pub proof fn lemma_entries_absent(s: Seq<Entry>, k: Seq<Seq<char>>)
    requires
        forall|j: int| 0 <= j < s.len() ==> key(#[trigger] s[j]) != k,
    ensures
        !entries_map(s).contains_key(k),
    decreases s.len(),
{
    if s.len() > 0 {
        lemma_entries_absent(s.drop_last(), k);
    }
}

/// What a file-by-file transform hands back for one file: a failure, `None`
/// to delete the file, or the path and contents to keep under.
pub type Outcome = Result<Option<Entry>, Vec<BuildError>>;

/// The files that a list of outcomes yields; a later file overwrites an
/// earlier one at the same path, and a nameless path yields none.
pub open spec fn mapped(outs: Seq<Outcome>) -> Map<Seq<Seq<char>>, Seq<u8>>
    decreases outs.len(),
{
    if outs.len() == 0 {
        Map::empty()
    } else {
        let prev = mapped(outs.drop_last());
        match outs.last() {
            Ok(Some(e)) => if e.0@.len() > 0 {
                prev.insert(key(e), e.1@)
            } else {
                prev
            },
            _ => prev,
        }
    }
}

/// The failures that a list of outcomes holds, in order; a nameless path is
/// one too.
pub open spec fn map_faults(outs: Seq<Outcome>) -> Seq<Fault>
    decreases outs.len(),
{
    if outs.len() == 0 {
        Seq::empty()
    } else {
        let prev = map_faults(outs.drop_last());
        match outs.last() {
            Err(es) => prev + faults(es@),
            Ok(Some(e)) => if e.0@.len() == 0 {
                prev.push(Fault::NoFileName)
            } else {
                prev
            },
            Ok(None) => prev,
        }
    }
}

/// The paths of an entry list, with `/` between names.
pub open spec fn joined_keys(s: Seq<Entry>) -> Seq<Seq<char>> {
    s.map_values(|e: Entry| joined(key(e)))
}

/// Some file lies below the folder at path `d`.
pub open spec fn is_dir(files: Seq<Entry>, d: Seq<Seq<char>>) -> bool {
    exists|i: int|
        0 <= i < files.len() && key(#[trigger] files[i]).len() > d.len() && key(files[i]).subrange(
            0,
            d.len() as int,
        ) == d
}

/// How far down the names of `parent` can be followed from the root, going
/// on from depth `k`: the first depth whose next folder is absent.
pub open spec fn depth(files: Seq<Entry>, parent: Seq<Seq<char>>, k: int) -> int
    decreases parent.len() - k,
{
    if 0 <= k < parent.len() && is_dir(files, parent.subrange(0, k + 1)) {
        depth(files, parent, k + 1)
    } else {
        k
    }
}

/// Index of the last `.` of `s` before index `k`, or -1.
pub open spec fn last_dot(s: Seq<char>, k: int) -> int
    decreases k,
{
    if k <= 0 {
        -1
    } else if s[k - 1] == '.' {
        k - 1
    } else {
        last_dot(s, k - 1)
    }
}

/// A file name without its extension: up to its last `.`, unless that dot
/// is the first character or there is none.
pub open spec fn stem(s: Seq<char>) -> Seq<char> {
    let d = last_dot(s, s.len() as int);
    if d <= 0 {
        s
    } else {
        s.subrange(0, d)
    }
}

/// Entry `e` is a file directly in folder `d` with stem `st`.
pub open spec fn stem_match(e: Entry, d: Seq<Seq<char>>, st: Seq<char>) -> bool {
    &&& key(e).len() == d.len() + 1
    &&& key(e).subrange(0, d.len() as int) == d
    &&& stem(key(e).last()) == st
}

/// Index of the first entry from `from` on that `stem_match`es, or the length.
pub open spec fn first_match(files: Seq<Entry>, d: Seq<Seq<char>>, st: Seq<char>, from: int) -> int
    decreases files.len() - from,
{
    if from < 0 || from >= files.len() {
        files.len() as int
    } else if stem_match(files[from], d, st) {
        from
    } else {
        first_match(files, d, st, from + 1)
    }
}

/// The entry that the fuzzy lookup of `t` finds: follow the names of `t`'s
/// folder down as far as they exist, take the first file there with `t`'s
/// stem; failing that, drop the innermost folder name of `t` and search
/// again, until no folder name is left.
pub open spec fn find_index(files: Seq<Entry>, t: Seq<Seq<char>>) -> Option<int>
    decreases t.len(),
{
    if t.len() == 0 {
        None
    } else {
        let parent = t.drop_last();
        let d = parent.subrange(0, depth(files, parent, 0));
        let i = first_match(files, d, stem(t.last()), 0);
        if 0 <= i < files.len() {
            Some(i)
        } else if t.len() >= 2 {
            find_index(files, parent.drop_last().push(t.last()))
        } else {
            None
        }
    }
}

pub proof fn lemma_first_match(files: Seq<Entry>, d: Seq<Seq<char>>, st: Seq<char>, from: int)
    requires
        0 <= from <= files.len(),
    ensures
        from <= first_match(files, d, st, from) <= files.len(),
        first_match(files, d, st, from) < files.len() ==> stem_match(
            files[first_match(files, d, st, from)],
            d,
            st,
        ),
        forall|j: int|
            from <= j < files.len() && stem_match(#[trigger] files[j], d, st) ==> first_match(
                files,
                d,
                st,
                from,
            ) <= j,
    decreases files.len() - from,
{
    if from < files.len() && !stem_match(files[from], d, st) {
        lemma_first_match(files, d, st, from + 1);
    }
}

/// Every folder along the path of a file exists, so the descent of a lookup
/// for that very path goes all the way down.
pub proof fn lemma_depth_full(files: Seq<Entry>, i: int, k: int)
    requires
        0 <= i < files.len(),
        key(files[i]).len() > 0,
        0 <= k <= key(files[i]).len() - 1,
    ensures
        depth(files, key(files[i]).drop_last(), k) == key(files[i]).len() - 1,
    decreases key(files[i]).len() - k,
{
    let t = key(files[i]);
    let parent = t.drop_last();
    if k < parent.len() {
        assert(t.subrange(0, k + 1) == parent.subrange(0, k + 1));
        assert(is_dir(files, parent.subrange(0, k + 1)));
        lemma_depth_full(files, i, k + 1);
    }
}

/// A lookup for the exact path of a file finds that file, whatever files
/// with the same stem lie in other folders, as long as no other file in its
/// own folder shares its stem.
pub proof fn law_exact_match(files: Seq<Entry>, i: int)
    requires
        0 <= i < files.len(),
        key(files[i]).len() > 0,
        forall|j: int|
            0 <= j < files.len() && j != i ==> !stem_match(
                #[trigger] files[j],
                key(files[i]).drop_last(),
                stem(key(files[i]).last()),
            ),
    ensures
        find_index(files, key(files[i])) == Some(i),
{
    let t = key(files[i]);
    let parent = t.drop_last();
    lemma_depth_full(files, i, 0);
    assert(parent.subrange(0, parent.len() as int) == parent);
    assert(t.subrange(0, parent.len() as int) == parent);
    assert(stem_match(files[i], parent, stem(t.last())));
    lemma_first_match(files, parent, stem(t.last()), 0);
}

/// Whether the first `k` names of two paths agree.
fn prefix_eq(a: &Vec<String>, b: &Vec<String>, k: usize) -> (r: bool)
    requires
        k <= a@.len(),
        k <= b@.len(),
    ensures
        r == (names_view(a@).subrange(0, k as int) == names_view(b@).subrange(0, k as int)),
{
    let mut i: usize = 0;
    while i < k
        invariant
            k <= a@.len(),
            k <= b@.len(),
            i <= k,
            forall|j: int| 0 <= j < i ==> a@[j]@ == b@[j]@,
        decreases k - i,
    {
        if a[i] != b[i] {
            assert(names_view(a@).subrange(0, k as int)[i as int] != names_view(b@).subrange(
                0,
                k as int,
            )[i as int]);
            return false;
        }
        i = i + 1;
    }
    assert(names_view(a@).subrange(0, k as int) =~= names_view(b@).subrange(0, k as int));
    true
}

/// The name of a file without its extension.
pub fn stem_of(name: &String) -> (r: String)
    ensures
        r@ == stem(name@),
{
    let s = name.as_str();
    let n = s.unicode_len();
    let mut k: usize = n;
    while k > 0
        invariant
            k <= n,
            n == name@.len(),
            s@ == name@,
            last_dot(name@, n as int) == last_dot(name@, k as int),
        decreases k,
    {
        if s.get_char(k - 1) == '.' {
            if k - 1 == 0 {
                return name.clone();
            }
            return String::from_str(s.substring_char(0, k - 1));
        }
        k = k - 1;
    }
    name.clone()
}

/// Keeping the files that a glob set matches and keeping those it does not
/// match split a tree's files in two: no file is in both, none is lost, and
/// each keeps its contents.
pub proof fn law_glob_complement(m: Map<Seq<Seq<char>>, Seq<u8>>, g: Seq<Seq<char>>)
    ensures
        kept(m, g, true).dom().disjoint(kept(m, g, false).dom()),
        kept(m, g, true).dom() + kept(m, g, false).dom() == m.dom(),
        kept(m, g, true).union_prefer_right(kept(m, g, false)) == m,
{
    assert(kept(m, g, true).dom() + kept(m, g, false).dom() =~= m.dom());
    assert(kept(m, g, true).union_prefer_right(kept(m, g, false)) =~= m);
}

/// Where both trees of a merge hold a path, the merged tree holds the second
/// tree's contents there.
pub proof fn law_merge_precedence(
    x: Map<Seq<Seq<char>>, Seq<u8>>,
    y: Map<Seq<Seq<char>>, Seq<u8>>,
    p: Seq<Seq<char>>,
)
    requires
        y.contains_key(p),
    ensures
        x.union_prefer_right(y)[p] == y[p],
{
}

/// An in-memory copy of a folder: its label, and each file under it by its
/// path below the folder.
#[derive(Debug, Clone)]
pub struct Folder {
    pub path: String,
    pub files: Vec<Entry>,
}

impl Folder {
    /// The files of the folder, by path.
    pub open spec fn view(&self) -> Map<Seq<Seq<char>>, Seq<u8>> {
        entries_map(self.files@)
    }

    /// Each file has a name, and no two entries share a path.
    pub open spec fn wf(&self) -> bool {
        &&& forall|i: int| 0 <= i < self.files@.len() ==> (#[trigger] self.files@[i]).0@.len() > 0
        &&& forall|i: int, j: int|
            0 <= i < j < self.files@.len() ==> key(#[trigger] self.files@[i]) != key(
                #[trigger] self.files@[j],
            )
    }

    /// An empty folder labelled `path`.
    pub fn new(path: String) -> (r: Folder)
        ensures
            r.wf(),
            r@ == Map::<Seq<Seq<char>>, Seq<u8>>::empty(),
            r.path == path,
            r.files@.len() == 0,
    {
        Folder { path, files: Vec::new() }
    }

    /// Adds a file at `fp`, or overwrites the one there. Folders along the way
    /// need no creating: they are the paths' prefixes. A path without a file
    /// name is refused.
    pub fn push(&mut self, fp: Vec<String>, contents: Vec<u8>) -> (r: Result<(), BuildError>)
        requires
            old(self).wf(),
        ensures
            final(self).wf(),
            final(self).path == old(self).path,
            fp@.len() == 0 ==> (r matches Err(e) && e@ == Fault::NoFileName && final(self)@ == old(
                self,
            )@),
            fp@.len() > 0 ==> (r is Ok && final(self)@ == old(self)@.insert(
                names_view(fp@),
                contents@,
            )),
    {
        if fp.len() == 0 {
            return Err(BuildError::NoFileName);
        }
        let ghost k = names_view(fp@);
        let mut i: usize = 0;
        while i < self.files.len()
            invariant
                self.wf(),
                *self == *old(self),
                k == names_view(fp@),
                fp@.len() > 0,
                i <= self.files@.len(),
                forall|j: int| 0 <= j < i ==> key(#[trigger] self.files@[j]) != k,
            decreases self.files@.len() - i,
        {
            if same_names(&self.files[i].0, &fp) {
                let ghost before = self.files@;
                let e = (fp, contents);
                proof {
                    lemma_entries_update(before, i as int, e);
                }
                self.files.set(i, e);
                assert(self.files@ == before.update(i as int, e));
                assert forall|a: int, b: int|
                    0 <= a < b < self.files@.len() implies key(#[trigger] self.files@[a]) != key(
                    #[trigger] self.files@[b],
                ) by {
                    assert(key(self.files@[a]) == key(before[a]));
                    assert(key(self.files@[b]) == key(before[b]));
                }
                return Ok(());
            }
            i = i + 1;
        }
        proof {
            lemma_entries_absent(self.files@, k);
        }
        let ghost before = self.files@;
        self.files.push((fp, contents));
        assert(self.files@.drop_last() == before);
        Ok(())
    }

    /// Builds the folder that per-file outcomes describe: `outcomes[i]` is
    /// what became of `self.files[i]`. Failures of all files are collected and
    /// returned together, in order; where there is none the result holds what
    /// each outcome keeps, under this folder's label.
    pub fn map(&self, outcomes: Vec<Outcome>) -> (r: Result<Folder, Vec<BuildError>>)
        ensures
            map_faults(outcomes@).len() == 0 ==> (r matches Ok(f) && f.wf() && f@ == mapped(
                outcomes@,
            ) && f.path == self.path),
            map_faults(outcomes@).len() > 0 ==> (r matches Err(e) && faults(e@) == map_faults(
                outcomes@,
            )),
    {
        let ghost all = outcomes@;
        let mut outcomes = outcomes;
        let mut res = Folder::new(self.path.clone());
        let mut errs: Vec<BuildError> = Vec::new();
        let mut i: usize = 0;
        let n = outcomes.len();
        while i < n
            invariant
                n == all.len(),
                i <= n,
                outcomes@ == all.subrange(i as int, n as int),
                res.wf(),
                res.path == self.path,
                res@ == mapped(all.subrange(0, i as int)),
                faults(errs@) == map_faults(all.subrange(0, i as int)),
            decreases n - i,
        {
            let ghost pre = all.subrange(0, i as int);
            assert(all.subrange(0, i + 1).drop_last() == pre);
            assert(all.subrange(0, i + 1).last() == all[i as int]);
            assert(outcomes@[0] == all[i as int]);
            let o = outcomes.remove(0);
            assert(outcomes@ == all.subrange(i + 1, n as int));
            match o {
                Err(es) => {
                    let ghost old_errs = errs@;
                    let ghost added = es@;
                    let mut es = es;
                    errs.append(&mut es);
                    assert(faults(errs@) =~= faults(old_errs) + faults(added));
                },
                Ok(None) => {},
                Ok(Some(e)) => {
                    if e.0.len() == 0 {
                        let ghost old_errs = errs@;
                        errs.push(BuildError::NoFileName);
                        assert(faults(errs@) =~= faults(old_errs).push(Fault::NoFileName));
                    } else {
                        let (p, c) = e;
                        let _ = res.push(p, c);
                    }
                },
            }
            i = i + 1;
        }
        assert(all.subrange(0, n as int) == all);
        if errs.len() == 0 {
            Ok(res)
        } else {
            Err(errs)
        }
    }

    /// For each file, in order, whether one of `globs` matches its path;
    /// fails exactly when some pattern does not compile.
    pub fn matches_globs(&self, globs: &Vec<String>) -> (r: Result<Vec<bool>, BuildError>)
        ensures
            r is Ok == crate::glob::globs_compile(names_view(globs@)),
            r matches Err(e) ==> e@ == Fault::BadGlob,
            r matches Ok(v) ==> v@.len() == self.files@.len() && forall|i: int|
                0 <= i < v@.len() ==> v@[i] == globs_match(
                    names_view(globs@),
                    joined(key(self.files@[i])),
                ),
    {
        let m = match GlobMatcher::new(globs) {
            Ok(m) => m,
            Err(e) => return Err(e),
        };
        let mut v: Vec<bool> = Vec::new();
        let mut i: usize = 0;
        while i < self.files.len()
            invariant
                i <= self.files@.len(),
                m.patterns() == names_view(globs@),
                v@.len() == i,
                forall|j: int|
                    0 <= j < i ==> v@[j] == globs_match(
                        names_view(globs@),
                        joined(key(self.files@[j])),
                    ),
            decreases self.files@.len() - i,
        {
            let path = join_names(&self.files[i].0);
            v.push(m.is_match(&path));
            i = i + 1;
        }
        Ok(v)
    }

    /// The files whose path `globs` match (`matching`) or do not match.
    fn keep_globs(&self, globs: &Vec<String>, matching: bool) -> (r: Result<Folder, BuildError>)
        requires
            self.wf(),
        ensures
            r is Ok == crate::glob::globs_compile(names_view(globs@)),
            r matches Err(e) ==> e@ == Fault::BadGlob,
            r matches Ok(f) ==> f.wf() && f.path == self.path && f@ == kept(
                self@,
                names_view(globs@),
                matching,
            ),
    {
        let m = match GlobMatcher::new(globs) {
            Ok(m) => m,
            Err(e) => return Err(e),
        };
        let ghost g = names_view(globs@);
        let mut res = Folder::new(self.path.clone());
        let mut i: usize = 0;
        while i < self.files.len()
            invariant
                self.wf(),
                i <= self.files@.len(),
                m.patterns() == g,
                res.wf(),
                res.path == self.path,
                res@ == kept(entries_map(self.files@.subrange(0, i as int)), g, matching),
            decreases self.files@.len() - i,
        {
            let ghost pre = self.files@.subrange(0, i as int);
            let ghost e = self.files@[i as int];
            assert(self.files@.subrange(0, i + 1).drop_last() == pre);
            proof {
                lemma_kept_insert(entries_map(pre), g, matching, key(e), e.1@);
            }
            let path = join_names(&self.files[i].0);
            if m.is_match(&path) == matching {
                let p = copy_names(&self.files[i].0);
                let c = copy_bytes(&self.files[i].1);
                let _ = res.push(p, c);
            }
            i = i + 1;
        }
        assert(self.files@.subrange(0, self.files@.len() as int) == self.files@);
        Ok(res)
    }

    /// The folder without the files whose path `globs` match.
    pub fn remove_globs(&self, globs: &Vec<String>) -> (r: Result<Folder, BuildError>)
        requires
            self.wf(),
        ensures
            r is Ok == crate::glob::globs_compile(names_view(globs@)),
            r matches Err(e) ==> e@ == Fault::BadGlob,
            r matches Ok(f) ==> f.wf() && f.path == self.path && f@ == kept(
                self@,
                names_view(globs@),
                false,
            ),
    {
        self.keep_globs(globs, false)
    }

    /// The folder with only the files whose path `globs` match.
    pub fn filter_globs(&self, globs: &Vec<String>) -> (r: Result<Folder, BuildError>)
        requires
            self.wf(),
        ensures
            r is Ok == crate::glob::globs_compile(names_view(globs@)),
            r matches Err(e) ==> e@ == Fault::BadGlob,
            r matches Ok(f) ==> f.wf() && f.path == self.path && f@ == kept(
                self@,
                names_view(globs@),
                true,
            ),
    {
        self.keep_globs(globs, true)
    }

    /// The files whose path `globs` match, as a flat list of path and
    /// contents; the folder itself is left as it is.
    pub fn get_globs(&self, globs: &Vec<String>) -> (r: Result<Vec<Entry>, BuildError>)
        requires
            self.wf(),
        ensures
            r is Ok == crate::glob::globs_compile(names_view(globs@)),
            r matches Ok(v) ==> entries_map(v@) == kept(self@, names_view(globs@), true),
    {
        match self.filter_globs(globs) {
            Ok(f) => Ok(f.files),
            Err(e) => Err(e),
        }
    }

    /// Merges two folders: the union of their files, where a path in both
    /// takes the contents from `y`. The result keeps `x`'s label.
    pub fn join(x: Folder, y: Folder) -> (r: Folder)
        requires
            x.wf(),
            y.wf(),
        ensures
            r.wf(),
            r.path == x.path,
            r@ == x@.union_prefer_right(y@),
    {
        let ghost xv = x@;
        let mut res = x;
        let mut i: usize = 0;
        while i < y.files.len()
            invariant
                y.wf(),
                res.wf(),
                res.path == x.path,
                i <= y.files@.len(),
                res@ == xv.union_prefer_right(entries_map(y.files@.subrange(0, i as int))),
            decreases y.files@.len() - i,
        {
            let ghost pre = y.files@.subrange(0, i as int);
            assert(y.files@.subrange(0, i + 1).drop_last() == pre);
            let ghost e = y.files@[i as int];
            let p = copy_names(&y.files[i].0);
            let c = copy_bytes(&y.files[i].1);
            let _ = res.push(p, c);
            assert(xv.union_prefer_right(entries_map(pre).insert(key(e), e.1@)) =~= xv.union_prefer_right(
                entries_map(pre),
            ).insert(key(e), e.1@));
            i = i + 1;
        }
        assert(y.files@.subrange(0, y.files@.len() as int) == y.files@);
        res
    }

    /// Whether some file lies below the folder named by the first `k` names
    /// of `t`.
    fn is_dir_exec(&self, t: &Vec<String>, k: usize) -> (r: bool)
        requires
            k <= t@.len(),
        ensures
            r == is_dir(self.files@, names_view(t@).subrange(0, k as int)),
    {
        let ghost d = names_view(t@).subrange(0, k as int);
        let mut i: usize = 0;
        while i < self.files.len()
            invariant
                k <= t@.len(),
                d == names_view(t@).subrange(0, k as int),
                i <= self.files@.len(),
                forall|j: int|
                    0 <= j < i ==> !(key(#[trigger] self.files@[j]).len() > d.len() && key(
                        self.files@[j],
                    ).subrange(0, d.len() as int) == d),
            decreases self.files@.len() - i,
        {
            if self.files[i].0.len() > k && prefix_eq(&self.files[i].0, t, k) {
                assert(key(self.files@[i as int]).len() > d.len());
                return true;
            }
            i = i + 1;
        }
        false
    }

    /// Finds the "most matching" file for path `file`, as `find_index` says,
    /// and hands back its path and contents. Of several files with the same
    /// stem in one folder, the first in the folder's order is taken.
    pub fn find(&self, file: &Vec<String>) -> (r: Option<Entry>)
        ensures
            match find_index(self.files@, names_view(file@)) {
                Some(i) => r matches Some(e) && key(e) == key(self.files@[i]) && e.1@
                    == self.files@[i].1@,
                None => r is None,
            },
        decreases file@.len(),
    {
        let ghost t = names_view(file@);
        let n = file.len();
        if n == 0 {
            return None;
        }
        let ghost parent = t.drop_last();
        let mut k: usize = 0;
        while k < n - 1 && self.is_dir_exec(file, k + 1)
            invariant
                n == file@.len(),
                n > 0,
                k <= n - 1,
                t == names_view(file@),
                parent == t.drop_last(),
                depth(self.files@, parent, 0) == depth(self.files@, parent, k as int),
            decreases n - k,
        {
            assert(parent.subrange(0, k + 1) == t.subrange(0, k + 1));
            k = k + 1;
        }
        proof {
            if k < n - 1 {
                assert(parent.subrange(0, k + 1) == t.subrange(0, k + 1));
            }
        }
        assert(depth(self.files@, parent, k as int) == k as int);
        let ghost d = parent.subrange(0, k as int);
        assert(d == t.subrange(0, k as int));
        let target_stem = stem_of(&file[n - 1]);
        let mut i: usize = 0;
        while i < self.files.len()
            invariant
                n == file@.len(),
                n > 0,
                k <= n - 1,
                t == names_view(file@),
                d == t.subrange(0, k as int),
                depth(self.files@, parent, 0) == k,
                parent == t.drop_last(),
                target_stem@ == stem(t.last()),
                i <= self.files@.len(),
                first_match(self.files@, d, stem(t.last()), 0) == first_match(
                    self.files@,
                    d,
                    stem(t.last()),
                    i as int,
                ),
            decreases self.files@.len() - i,
        {
            let p = &self.files[i].0;
            if p.len() == k + 1 && prefix_eq(p, file, k) {
                let st = stem_of(&p[k]);
                assert(key(self.files@[i as int]).last() == p@[k as int]@);
                if st == target_stem {
                    assert(stem_match(self.files@[i as int], d, stem(t.last())));
                    assert(first_match(self.files@, d, stem(t.last()), i as int) == i);
                    assert(t.len() > 0);
                    assert(t.drop_last().subrange(0, depth(self.files@, t.drop_last(), 0)) == d);
                    assert(first_match(self.files@, d, stem(t.last()), 0) == i);
                    assert(find_index(self.files@, t) == Some(i as int));
                    return Some((copy_names(p), copy_bytes(&self.files[i].1)));
                }
            }
            i = i + 1;
        }
        if n >= 2 {
            let mut next = Vec::new();
            let mut j: usize = 0;
            while j < n - 2
                invariant
                    n == file@.len(),
                    n >= 2,
                    j <= n - 2,
                    next@ == file@.subrange(0, j as int),
                decreases n - 2 - j,
            {
                next.push(file[j].clone());
                assert(file@.subrange(0, j + 1) == file@.subrange(0, j as int).push(file@[j as int]));
                j = j + 1;
            }
            next.push(file[n - 1].clone());
            assert(names_view(next@) =~= parent.drop_last().push(t.last()));
            self.find(&next)
        } else {
            None
        }
    }

    /// A folder labelled `path` that holds `entries`, later entries winning on
    /// equal paths; refused where an entry has no file name.
    pub fn from_entries(path: String, entries: Vec<Entry>) -> (r: Result<Folder, BuildError>)
        ensures
            (forall|i: int| 0 <= i < entries@.len() ==> (#[trigger] entries@[i]).0@.len() > 0) ==> (
            r matches Ok(f) && f.wf() && f@ == entries_map(entries@) && f.path == path),
            !(forall|i: int| 0 <= i < entries@.len() ==> (#[trigger] entries@[i]).0@.len() > 0) ==> (
            r matches Err(e) && e@ == Fault::NoFileName),
    {
        let ghost all = entries@;
        let mut rest = entries;
        let mut res = Folder::new(path);
        let n = rest.len();
        let mut i: usize = 0;
        while i < n
            invariant
                n == all.len(),
                i <= n,
                rest@ == all.subrange(i as int, n as int),
                all == entries@,
                res.wf(),
                res.path == path,
                res@ == entries_map(all.subrange(0, i as int)),
                forall|j: int| 0 <= j < i ==> (#[trigger] all[j]).0@.len() > 0,
            decreases n - i,
        {
            assert(all.subrange(0, i + 1).drop_last() == all.subrange(0, i as int));
            assert(rest@[0] == all[i as int]);
            let (p, c) = rest.remove(0);
            assert(rest@ == all.subrange(i + 1, n as int));
            if p.len() == 0 {
                assert(entries@[i as int].0@.len() == 0);
                return Err(BuildError::NoFileName);
            }
            let _ = res.push(p, c);
            i = i + 1;
        }
        assert(all.subrange(0, n as int) == all);
        Ok(res)
    }

    /// The files under the top-level folder `name`, by their path below it.
    pub open spec fn sub_view(&self, name: Seq<char>) -> Map<Seq<Seq<char>>, Seq<u8>> {
        under(self@, name)
    }

    /// The folder `name` at the top of this one: the files whose path starts
    /// with `name`, by their path below it, labelled with this folder's
    /// label and `name`. `None` where no file lies below `name`.
    pub fn subfolder(&self, name: &String) -> (r: Option<Folder>)
        requires
            self.wf(),
        ensures
            r is None <==> !is_dir(self.files@, seq![name@]),
            r matches Some(f) ==> f.wf() && f@ == under(self@, name@) && f.path@ == self.path@ + seq![
                '/',
            ] + name@,
    {
        let mut one: Vec<String> = Vec::new();
        one.push(name.clone());
        assert(names_view(one@).subrange(0, 1) =~= seq![name@]);
        if !self.is_dir_exec(&one, 1) {
            return None;
        }
        let mut label = self.path.clone();
        proof {
            reveal_strlit("/");
        }
        label.append("/");
        label.append(name.as_str());
        let mut res = Folder::new(label);
        let mut i: usize = 0;
        while i < self.files.len()
            invariant
                self.wf(),
                i <= self.files@.len(),
                res.wf(),
                res.path@ == self.path@ + seq!['/'] + name@,
                res@ == under(entries_map(self.files@.subrange(0, i as int)), name@),
            decreases self.files@.len() - i,
        {
            let ghost pre = self.files@.subrange(0, i as int);
            let ghost e = self.files@[i as int];
            assert(self.files@.subrange(0, i + 1).drop_last() == pre);
            let p = &self.files[i].0;
            if p.len() > 1 && p[0] == *name {
                let mut rest: Vec<String> = Vec::new();
                let mut j: usize = 1;
                while j < p.len()
                    invariant
                        1 <= j <= p@.len(),
                        names_view(rest@) == names_view(p@).subrange(1, j as int),
                    decreases p@.len() - j,
                {
                    let ghost before = names_view(rest@);
                    rest.push(p[j].clone());
                    assert(names_view(rest@) =~= before.push(p@[j as int]@));
                    assert(names_view(p@).subrange(1, j + 1) =~= names_view(p@).subrange(1, j as int).push(p@[j as int]@));
                    j = j + 1;
                }
                let ghost k = names_view(rest@);
                assert(key(e) =~= seq![name@] + k);
                let c = copy_bytes(&self.files[i].1);
                let _ = res.push(rest, c);
                assert forall|q: Seq<Seq<char>>| seq![name@] + q == key(e) implies q == k by {
                    assert((seq![name@] + q).subrange(1, (seq![name@] + q).len() as int) =~= q);
                    assert((seq![name@] + k).subrange(1, (seq![name@] + k).len() as int) =~= k);
                }
                assert(under(entries_map(pre).insert(key(e), e.1@), name@) =~= under(entries_map(pre), name@).insert(k, e.1@));
            } else {
                proof {
                    assert forall|k: Seq<Seq<char>>| k.len() > 0 implies seq![name@] + k != key(e) by {
                        if seq![name@] + k == key(e) {
                            assert(key(e)[0] == name@);
                            assert(key(e).len() > 1);
                        }
                    }
                }
                assert(under(entries_map(pre).insert(key(e), e.1@), name@) =~= under(entries_map(pre), name@));
            }
            i = i + 1;
        }
        assert(self.files@.subrange(0, self.files@.len() as int) == self.files@);
        Some(res)
    }
}

/// The files of `m` below top-level folder `name`, by their path below it.
pub open spec fn under(m: Map<Seq<Seq<char>>, Seq<u8>>, name: Seq<char>) -> Map<Seq<Seq<char>>, Seq<u8>> {
    Map::new(|k: Seq<Seq<char>>| k.len() > 0 && m.contains_key(seq![name] + k), |k: Seq<Seq<char>>| m[seq![name] + k])
}

} // verus!
