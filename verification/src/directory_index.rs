//! The index of the files on disk: snapshots of directory trees, and the
//! cache that keeps each snapshot once it has been made.

use crate::paths::{
    extension_of, find_extension, is_relative, lemma_normalized_path, normalize_path,
    normalized_path,
};
use crate::text::{
    chars_equal, chars_of_strs, from_chars, lowercase, strings, strs, texts, texts_equal, to_chars,
    to_lowercase,
};
use vstd::prelude::*;
use vstd::slice::slice_subrange;

verus! {

/// The files found by walking one directory tree: the root as it was given,
/// and the path of each regular file below it, as the walk gave it.
#[derive(Debug)]
pub struct DirectoryListing {
    pub root: String,
    pub files: Vec<String>,
}

/// A directory listing as contracts speak of it.
pub struct Listing {
    pub root: Seq<char>,
    pub files: Seq<Seq<char>>,
}

impl View for DirectoryListing {
    type V = Listing;

    open spec fn view(&self) -> Listing {
        Listing { root: self.root@, files: strings(self.files@) }
    }
}

/// The listings `dirs` as contracts speak of them.
pub open spec fn listings(dirs: Seq<&DirectoryListing>) -> Seq<Listing> {
    Seq::new(dirs.len(), |i: int| dirs[i]@)
}

/// Whether `extension` is one of `extensions`, letter case aside.
pub open spec fn listed(extensions: Seq<Seq<char>>, extension: Seq<char>) -> bool {
    exists|i: int|
        0 <= i < extensions.len() && lowercase(#[trigger] extensions[i]) == lowercase(extension)
}

/// Whether a file is of the given type: its extension is the given one,
/// letter case aside.
pub open spec fn has_type(path: Seq<char>, extension: Seq<char>) -> bool {
    lowercase(extension_of(path)) == lowercase(extension)
}

/// Whether a file is kept: its extension is the wanted one, where one is
/// wanted, and none of the excluded ones. Letter case plays no part.
pub open spec fn kept(path: Seq<char>, target: Seq<char>, excluded: Seq<Seq<char>>) -> bool {
    &&& target.len() == 0 || has_type(path, target)
    &&& !listed(excluded, extension_of(path))
}

/// The keys of those of the first `upto` files found below `root` that are
/// kept, in the order in which they were found.
pub open spec fn files_in_directory(
    root: Seq<char>,
    found: Seq<Seq<char>>,
    target: Seq<char>,
    excluded: Seq<Seq<char>>,
    upto: int,
) -> Seq<Seq<char>>
    decreases upto,
{
    if upto <= 0 {
        Seq::empty()
    } else {
        let earlier = files_in_directory(root, found, target, excluded, upto - 1);
        let key = normalized_path(root, found[upto - 1]);
        if kept(key, target, excluded) {
            earlier.push(key)
        } else {
            earlier
        }
    }
}

/// `paths` with `path` added behind, unless it is among them.
pub open spec fn with_path(paths: Seq<Seq<char>>, path: Seq<char>) -> Seq<Seq<char>> {
    if paths.contains(path) {
        paths
    } else {
        paths.push(path)
    }
}

/// `paths` with each of `more` added in turn.
pub open spec fn with_paths(paths: Seq<Seq<char>>, more: Seq<Seq<char>>) -> Seq<Seq<char>>
    decreases more.len(),
{
    if more.len() == 0 {
        paths
    } else {
        with_path(with_paths(paths, more.drop_last()), more.last())
    }
}

/// Whether `key` is the key of one of the files found in the directory
/// trees: the normal form of its path, relative to the normal form of the
/// root of its tree.
pub open spec fn is_key_of(dirs: Seq<Listing>, key: Seq<char>) -> bool {
    exists|d: int, j: int|
        0 <= d < dirs.len() && 0 <= j < dirs[d].files.len() && key == #[trigger] normalized_path(
            dirs[d].root,
            dirs[d].files[j],
        )
}

/// The snapshot of a set of directory trees under a filter: the keys of the
/// files that are kept, each once, in the order in which the trees were given
/// and their files found.
pub open spec fn snapshot_of(
    dirs: Seq<Listing>,
    target: Seq<char>,
    excluded: Seq<Seq<char>>,
) -> Seq<Seq<char>>
    decreases dirs.len(),
{
    if dirs.len() == 0 {
        Seq::empty()
    } else {
        let dir = dirs.last();
        with_paths(
            snapshot_of(dirs.drop_last(), target, excluded),
            files_in_directory(dir.root, dir.files, target, excluded, dir.files.len() as int),
        )
    }
}

/// What every snapshot keeps to: no key occurs twice, and every key has the
/// shape of a key, a relative path with forward slashes.
pub open spec fn is_snapshot(files: Seq<Seq<char>>) -> bool {
    &&& files.no_duplicates()
    &&& forall|i: int| 0 <= i < files.len() ==> is_relative(#[trigger] files[i])
}

/// Whether `extension` is one of `extensions`, letter case aside.
pub fn is_listed(extensions: &Vec<Vec<char>>, extension: &[char]) -> (r: bool)
    ensures
        r == listed(texts(extensions@), extension@),
{
    let wanted = to_lowercase(extension);
    let mut i: usize = 0;
    while i < extensions.len()
        invariant
            i <= extensions.len(),
            wanted@ == lowercase(extension@),
            forall|j: int|
                0 <= j < i ==> lowercase(#[trigger] texts(extensions@)[j]) != lowercase(
                    extension@,
                ),
        decreases extensions.len() - i,
    {
        let candidate = to_lowercase(extensions[i].as_slice());
        if chars_equal(candidate.as_slice(), wanted.as_slice()) {
            assert(lowercase(texts(extensions@)[i as int]) == lowercase(extension@));
            return true;
        }
        i += 1;
    }
    false
}

/// Whether a file is of the given type.
pub fn is_of_type(path: &[char], extension: &[char]) -> (r: bool)
    ensures
        r == has_type(path@, extension@),
{
    let ending = match find_extension(path) {
        Some(start) => slice_subrange(path, start, path.len()),
        None => slice_subrange(path, 0, 0),
    };
    assert(ending@ =~= extension_of(path@));
    let have = to_lowercase(ending);
    let want = to_lowercase(extension);
    chars_equal(have.as_slice(), want.as_slice())
}

/// Whether a file is kept under the given filter.
pub fn is_kept(path: &[char], target: &[char], excluded: &Vec<Vec<char>>) -> (r: bool)
    ensures
        r == kept(path@, target@, texts(excluded@)),
{
    let extension = match find_extension(path) {
        Some(start) => slice_subrange(path, start, path.len()),
        None => slice_subrange(path, 0, 0),
    };
    assert(extension@ =~= extension_of(path@));
    if target.len() > 0 {
        let have = to_lowercase(extension);
        let want = to_lowercase(target);
        if !chars_equal(have.as_slice(), want.as_slice()) {
            return false;
        }
    }
    !is_listed(excluded, extension)
}

/// The keys of the files found below `root` that are kept under the given
/// filter, in the order in which they were found.
pub fn list_files(
    root: &[char],
    found: &Vec<String>,
    target: &[char],
    excluded: &Vec<Vec<char>>,
) -> (r: Vec<Vec<char>>)
    ensures
        texts(r@) == files_in_directory(
            root@,
            strings(found@),
            target@,
            texts(excluded@),
            found.len() as int,
        ),
{
    let mut out: Vec<Vec<char>> = Vec::new();
    let mut i: usize = 0;
    while i < found.len()
        invariant
            i <= found.len(),
            texts(out@) == files_in_directory(
                root@,
                strings(found@),
                target@,
                texts(excluded@),
                i as int,
            ),
        decreases found.len() - i,
    {
        let path = to_chars(found[i].as_str());
        let key = normalize_path(root, path.as_slice());
        if is_kept(key.as_slice(), target, excluded) {
            let ghost before = texts(out@);
            out.push(key);
            assert(texts(out@) =~= before.push(normalized_path(root@, strings(found@)[i as int])));
        }
        i += 1;
    }
    out
}

/// The set of the files of some directory trees, each known by its key: the
/// lower-case form of its path, relative to the root of its tree and with
/// forward slashes. No key occurs twice.
pub struct DirectorySnapshot {
    paths: Vec<Vec<char>>,
}

impl View for DirectorySnapshot {
    type V = Seq<Seq<char>>;

    closed spec fn view(&self) -> Seq<Seq<char>> {
        texts(self.paths@)
    }
}

impl DirectorySnapshot {
    #[verifier::type_invariant]
    spec fn kept_as_snapshot(&self) -> bool {
        is_snapshot(texts(self.paths@))
    }

    /// A snapshot without files.
    pub fn new() -> (r: Self)
        ensures
            r@ == Seq::<Seq<char>>::empty(),
    {
        let r = DirectorySnapshot { paths: Vec::new() };
        assert(texts(r.paths@) =~= Seq::<Seq<char>>::empty());
        r
    }

    /// The number of files.
    pub fn len(&self) -> (r: usize)
        ensures
            r == self@.len(),
            is_snapshot(self@),
    {
        proof {
            use_type_invariant(self);
        }
        self.paths.len()
    }

    /// The key of the file at position `i`.
    pub(crate) fn path(&self, i: usize) -> (r: &Vec<char>)
        requires
            i < self@.len(),
        ensures
            r@ == self@[i as int],
    {
        &self.paths[i]
    }

    /// Whether the snapshot holds the key `path`.
    pub fn holds(&self, path: &[char]) -> (r: bool)
        ensures
            r == self@.contains(path@),
    {
        let mut i: usize = 0;
        while i < self.paths.len()
            invariant
                i <= self.paths.len(),
                forall|j: int| 0 <= j < i ==> texts(self.paths@)[j] != path@,
            decreases self.paths.len() - i,
        {
            if chars_equal(self.paths[i].as_slice(), path) {
                assert(texts(self.paths@)[i as int] == path@);
                return true;
            }
            i += 1;
        }
        false
    }

    /// Whether the snapshot holds the key `path`.
    pub fn contains(&self, path: &str) -> (r: bool)
        ensures
            r == self@.contains(path@),
    {
        let key = to_chars(path);
        self.holds(key.as_slice())
    }

    /// Adds the key `path`, unless the snapshot holds it.
    fn insert(&mut self, path: Vec<char>)
        requires
            is_relative(path@),
        ensures
            final(self)@ == with_path(old(self)@, path@),
    {
        proof {
            use_type_invariant(&*self);
            lemma_with_path_distinct(texts(self.paths@), path@);
        }
        if !self.holds(path.as_slice()) {
            let ghost before = texts(self.paths@);
            let mut paths: Vec<Vec<char>> = Vec::new();
            assert(texts(paths@) =~= Seq::<Seq<char>>::empty());
            core::mem::swap(&mut self.paths, &mut paths);
            paths.push(path);
            assert(texts(paths@) =~= before.push(path@));
            assert forall|i: int| 0 <= i < paths.len() implies is_relative(
                #[trigger] texts(paths@)[i],
            ) by {
                if i < before.len() {
                    assert(texts(paths@)[i] == before[i]);
                }
            }
            core::mem::swap(&mut self.paths, &mut paths);
        }
    }

    /// The keys, in the order in which the files were found.
    pub fn paths(&self) -> (r: Vec<String>)
        ensures
            strings(r@) == self@,
    {
        let mut out: Vec<String> = Vec::new();
        let mut i: usize = 0;
        while i < self.paths.len()
            invariant
                i <= self.paths.len(),
                strings(out@) == texts(self.paths@).take(i as int),
            decreases self.paths.len() - i,
        {
            let ghost before = strings(out@);
            out.push(from_chars(self.paths[i].as_slice()));
            assert(strings(out@) =~= before.push(texts(self.paths@)[i as int]));
            i += 1;
        }
        assert(texts(self.paths@).take(self.paths.len() as int) =~= texts(self.paths@));
        out
    }

    /// The snapshot of the given directory trees under the given filter.
    pub(crate) fn scan(
        dirs: &Vec<&DirectoryListing>,
        target: &[char],
        excluded: &Vec<Vec<char>>,
    ) -> (r: Self)
        ensures
            r@ == snapshot_of(listings(dirs@), target@, texts(excluded@)),
    {
        let mut snapshot = DirectorySnapshot::new();
        let mut d: usize = 0;
        while d < dirs.len()
            invariant
                d <= dirs.len(),
                snapshot@ == snapshot_of(listings(dirs@).take(d as int), target@, texts(excluded@)),
            decreases dirs.len() - d,
        {
            let root = to_chars(dirs[d].root.as_str());
            let files = list_files(root.as_slice(), &dirs[d].files, target, excluded);
            let ghost base = snapshot@;
            proof {
                lemma_files_in_directory(
                    root@,
                    strings(dirs[d as int].files@),
                    target@,
                    texts(excluded@),
                    dirs[d as int].files.len() as int,
                );
            }
            let mut f: usize = 0;
            while f < files.len()
                invariant
                    f <= files.len(),
                    snapshot@ == with_paths(base, texts(files@).take(f as int)),
                    forall|i: int| 0 <= i < files.len() ==> is_relative(#[trigger] texts(files@)[i]),
                decreases files.len() - f,
            {
                proof {
                    assert(texts(files@).take(f + 1).drop_last() =~= texts(files@).take(f as int));
                }
                let path = files[f].clone();
                assert(path@ == texts(files@)[f as int]);
                snapshot.insert(path);
                f += 1;
            }
            proof {
                assert(texts(files@).take(files.len() as int) =~= texts(files@));
                let upto = listings(dirs@).take(d + 1);
                assert(upto.drop_last() =~= listings(dirs@).take(d as int));
                assert(upto.last() == dirs[d as int]@);
            }
            d += 1;
        }
        assert(listings(dirs@).take(dirs.len() as int) =~= listings(dirs@));
        snapshot
    }
}

/// What a snapshot is asked for: the roots of the directory trees, in their
/// order, the one extension that is wanted (empty where any is), and the
/// extensions that are left out.
pub struct ScanKey {
    pub roots: Seq<Seq<char>>,
    pub target: Seq<char>,
    pub excluded: Seq<Seq<char>>,
}

/// The roots of the given listings.
pub open spec fn roots_of(dirs: Seq<Listing>) -> Seq<Seq<char>> {
    Seq::new(dirs.len(), |i: int| dirs[i].root)
}

/// The position, at or after `from`, of the first snapshot kept under `key`.
pub open spec fn cached_from(keys: Seq<ScanKey>, key: ScanKey, from: int) -> Option<int>
    decreases keys.len() - from,
{
    if 0 <= from < keys.len() {
        if keys[from] == key {
            Some(from)
        } else {
            cached_from(keys, key, from + 1)
        }
    } else {
        None
    }
}

/// The position of the snapshot kept under `key`, if one is.
pub open spec fn cached(keys: Seq<ScanKey>, key: ScanKey) -> Option<int> {
    cached_from(keys, key, 0)
}

/// A cache after a request, and the snapshot the request is answered with.
pub struct Served {
    pub keys: Seq<ScanKey>,
    pub snapshots: Seq<Seq<Seq<char>>>,
    pub answer: Seq<Seq<char>>,
}

/// What a request under `key` does to a cache: where a snapshot is kept
/// under the key, that snapshot is the answer and the cache stays as it is;
/// else the snapshot `fresh`, made for the request, is the answer and is
/// kept under the key from then on.
pub open spec fn served(
    keys: Seq<ScanKey>,
    snapshots: Seq<Seq<Seq<char>>>,
    key: ScanKey,
    fresh: Seq<Seq<char>>,
) -> Served {
    match cached(keys, key) {
        Some(k) => Served { keys, snapshots, answer: snapshots[k] },
        None => Served { keys: keys.push(key), snapshots: snapshots.push(fresh), answer: fresh },
    }
}

struct CacheEntry {
    roots: Vec<Vec<char>>,
    target: Vec<char>,
    excluded: Vec<Vec<char>>,
    snapshot: DirectorySnapshot,
}

impl CacheEntry {
    spec fn key(&self) -> ScanKey {
        ScanKey {
            roots: texts(self.roots@),
            target: self.target@,
            excluded: texts(self.excluded@),
        }
    }
}

/// The snapshots made so far, each under the key it was asked for. A
/// snapshot, once made, is never made again nor changed.
pub struct DirectoryCache {
    entries: Vec<CacheEntry>,
}

impl DirectoryCache {
    /// The keys under which snapshots are kept, in the order in which they
    /// were made.
    pub closed spec fn keys(&self) -> Seq<ScanKey> {
        Seq::new(self.entries@.len(), |i: int| self.entries@[i].key())
    }

    /// The snapshots that are kept, in the order in which they were made.
    pub closed spec fn snapshots(&self) -> Seq<Seq<Seq<char>>> {
        Seq::new(self.entries@.len(), |i: int| self.entries@[i].snapshot@)
    }

    /// A cache that holds nothing yet.
    pub fn new() -> (r: Self)
        ensures
            r.keys() == Seq::<ScanKey>::empty(),
            r.snapshots() == Seq::<Seq<Seq<char>>>::empty(),
    {
        let r = DirectoryCache { entries: Vec::new() };
        assert(r.keys() =~= Seq::<ScanKey>::empty());
        assert(r.snapshots() =~= Seq::<Seq<Seq<char>>>::empty());
        r
    }

    fn find(&self, roots: &Vec<Vec<char>>, target: &[char], excluded: &Vec<Vec<char>>) -> (r:
        Option<usize>)
        ensures
            self.keys().len() == self.snapshots().len(),
            match r {
                Some(k) => k < self.entries.len() && cached(
                    self.keys(),
                    ScanKey { roots: texts(roots@), target: target@, excluded: texts(excluded@) },
                ) == Some(k as int),
                None => cached(
                    self.keys(),
                    ScanKey { roots: texts(roots@), target: target@, excluded: texts(excluded@) },
                ) is None,
            },
    {
        let ghost key = ScanKey {
            roots: texts(roots@),
            target: target@,
            excluded: texts(excluded@),
        };
        let mut i: usize = 0;
        while i < self.entries.len()
            invariant
                i <= self.entries.len(),
                key == (ScanKey {
                    roots: texts(roots@),
                    target: target@,
                    excluded: texts(excluded@),
                }),
                cached(self.keys(), key) == cached_from(self.keys(), key, i as int),
            decreases self.entries.len() - i,
        {
            let entry = &self.entries[i];
            if texts_equal(&entry.roots, roots) && chars_equal(entry.target.as_slice(), target)
                && texts_equal(&entry.excluded, excluded) {
                assert(self.keys()[i as int] == key);
                return Some(i);
            }
            assert(self.keys()[i as int] != key);
            i += 1;
        }
        None
    }

    /// Whether a snapshot is kept for the given roots and filter.
    pub fn is_cached(
        &self,
        roots: &[&str],
        target_filetype: &str,
        disallowed_filetypes: &[&str],
    ) -> (r: bool)
        ensures
            r == cached(
                self.keys(),
                ScanKey {
                    roots: strs(roots@),
                    target: target_filetype@,
                    excluded: strs(disallowed_filetypes@),
                },
            ) is Some,
    {
        let roots = chars_of_strs(roots);
        let target = to_chars(target_filetype);
        let excluded = chars_of_strs(disallowed_filetypes);
        self.find(&roots, target.as_slice(), &excluded).is_some()
    }

    /// The snapshot of the given directory trees under the given filter:
    /// the one that is kept for these roots and this filter, or else a new
    /// one, which is then kept.
    pub fn compute_or_get<'a>(
        &'a mut self,
        cache_dirs: Vec<&DirectoryListing>,
        target_filetype: &str,
        disallowed_filetypes: &[&str],
    ) -> (r: &'a DirectorySnapshot)
        ensures
            served(
                old(self).keys(),
                old(self).snapshots(),
                ScanKey {
                    roots: roots_of(listings(cache_dirs@)),
                    target: target_filetype@,
                    excluded: strs(disallowed_filetypes@),
                },
                snapshot_of(listings(cache_dirs@), target_filetype@, strs(disallowed_filetypes@)),
            ) == (Served {
                keys: final(self).keys(),
                snapshots: final(self).snapshots(),
                answer: r@,
            }),
            final(self).keys().len() == final(self).snapshots().len(),
    {
        let mut roots: Vec<Vec<char>> = Vec::new();
        let mut d: usize = 0;
        while d < cache_dirs.len()
            invariant
                d <= cache_dirs.len(),
                texts(roots@) == roots_of(listings(cache_dirs@)).take(d as int),
            decreases cache_dirs.len() - d,
        {
            let ghost before = texts(roots@);
            roots.push(to_chars(cache_dirs[d].root.as_str()));
            assert(texts(roots@) =~= before.push(roots_of(listings(cache_dirs@))[d as int]));
            d += 1;
        }
        assert(roots_of(listings(cache_dirs@)).take(cache_dirs.len() as int) =~= roots_of(
            listings(cache_dirs@),
        ));
        let target = to_chars(target_filetype);
        let excluded = chars_of_strs(disallowed_filetypes);
        match self.find(&roots, target.as_slice(), &excluded) {
            Some(k) => &self.entries[k].snapshot,
            None => {
                let snapshot = DirectorySnapshot::scan(&cache_dirs, target.as_slice(), &excluded);
                let ghost old_keys = self.keys();
                let ghost old_snapshots = self.snapshots();
                let entry = CacheEntry { roots, target, excluded, snapshot };
                self.entries.push(entry);
                assert(self.keys() =~= old_keys.push(entry.key()));
                assert(self.snapshots() =~= old_snapshots.push(entry.snapshot@));
                let last = self.entries.len() - 1;
                &self.entries[last].snapshot
            },
        }
    }
}

/// What `paths` with `path` added holds: what `paths` holds, and `path`.
pub proof fn lemma_with_path_holds(paths: Seq<Seq<char>>, path: Seq<char>, other: Seq<char>)
    ensures
        with_path(paths, path).contains(other) <==> paths.contains(other) || other == path,
{
    let longer = paths.push(path);
    if !paths.contains(path) {
        if paths.contains(other) {
            let i = choose|i: int| 0 <= i < paths.len() && paths[i] == other;
            assert(longer[i] == other);
        }
        if other == path {
            assert(longer[paths.len() as int] == other);
        }
        if longer.contains(other) {
            let i = choose|i: int| 0 <= i < longer.len() && longer[i] == other;
            if i < paths.len() {
                assert(paths[i] == other);
            }
        }
    }
}

proof fn lemma_with_path_distinct(paths: Seq<Seq<char>>, path: Seq<char>)
    requires
        paths.no_duplicates(),
    ensures
        with_path(paths, path).no_duplicates(),
        with_path(paths, path).contains(path),
        forall|p: Seq<char>| paths.contains(p) ==> with_path(paths, path).contains(p),
{
    let longer = paths.push(path);
    if !paths.contains(path) {
        assert forall|i: int, j: int| 0 <= i < j < longer.len() implies longer[i] != longer[j] by {
            if j == paths.len() {
                assert(paths[i] == longer[i]);
            }
        }
        assert(longer[paths.len() as int] == path);
    }
    assert forall|p: Seq<char>| paths.contains(p) implies with_path(paths, path).contains(p) by {
        let i = choose|i: int| 0 <= i < paths.len() && paths[i] == p;
        assert(with_path(paths, path)[i] == p);
    }
}

/// Every key among the files kept of one directory tree is a relative path
/// with forward slashes, and passes the filter.
pub proof fn lemma_files_in_directory(
    root: Seq<char>,
    found: Seq<Seq<char>>,
    target: Seq<char>,
    excluded: Seq<Seq<char>>,
    upto: int,
)
    ensures
        forall|i: int|
            0 <= i < files_in_directory(root, found, target, excluded, upto).len() ==> {
                let key = #[trigger] files_in_directory(root, found, target, excluded, upto)[i];
                is_relative(key) && kept(key, target, excluded)
            },
    decreases upto,
{
    let now = files_in_directory(root, found, target, excluded, upto);
    if upto > 0 {
        let earlier = files_in_directory(root, found, target, excluded, upto - 1);
        let key = normalized_path(root, found[upto - 1]);
        lemma_files_in_directory(root, found, target, excluded, upto - 1);
        lemma_normalized_path(root, found[upto - 1]);
        assert forall|i: int| 0 <= i < now.len() implies is_relative(#[trigger] now[i]) && kept(
            now[i],
            target,
            excluded,
        ) by {
            if i < earlier.len() {
                assert(now[i] == earlier[i]);
            } else {
                assert(now[i] == key);
            }
        }
    }
}

proof fn lemma_with_paths(
    paths: Seq<Seq<char>>,
    more: Seq<Seq<char>>,
    target: Seq<char>,
    excluded: Seq<Seq<char>>,
)
    requires
        paths.no_duplicates(),
        forall|i: int|
            0 <= i < paths.len() ==> is_relative(#[trigger] paths[i]) && kept(
                paths[i],
                target,
                excluded,
            ),
        forall|i: int|
            0 <= i < more.len() ==> is_relative(#[trigger] more[i]) && kept(
                more[i],
                target,
                excluded,
            ),
    ensures
        with_paths(paths, more).no_duplicates(),
        forall|i: int|
            0 <= i < with_paths(paths, more).len() ==> is_relative(
                #[trigger] with_paths(paths, more)[i],
            ) && kept(with_paths(paths, more)[i], target, excluded),
        forall|i: int| 0 <= i < more.len() ==> with_paths(paths, more).contains(#[trigger] more[i]),
        forall|p: Seq<char>| paths.contains(p) ==> with_paths(paths, more).contains(p),
    decreases more.len(),
{
    if more.len() > 0 {
        let earlier = with_paths(paths, more.drop_last());
        assert forall|i: int| 0 <= i < more.drop_last().len() implies is_relative(
            #[trigger] more.drop_last()[i],
        ) && kept(more.drop_last()[i], target, excluded) by {
            assert(more.drop_last()[i] == more[i]);
        }
        lemma_with_paths(paths, more.drop_last(), target, excluded);
        lemma_with_path_distinct(earlier, more.last());
        let all = with_path(earlier, more.last());
        assert forall|i: int| 0 <= i < all.len() implies is_relative(#[trigger] all[i]) && kept(
            all[i],
            target,
            excluded,
        ) by {
            if i < earlier.len() {
                assert(all[i] == earlier[i]);
            } else {
                assert(all[i] == more.last());
                assert(more.last() == more[more.len() - 1]);
            }
        }
        assert forall|i: int| 0 <= i < more.len() implies all.contains(#[trigger] more[i]) by {
            if i < more.len() - 1 {
                assert(more.drop_last()[i] == more[i]);
                assert(earlier.contains(more[i]));
            } else {
                assert(more[i] == more.last());
            }
        }
    }
}

/// A snapshot holds no key twice, and every key it holds is a relative path
/// with forward slashes that passes the filter under which the snapshot was
/// made.
pub proof fn lemma_snapshot_of(dirs: Seq<Listing>, target: Seq<char>, excluded: Seq<Seq<char>>)
    ensures
        snapshot_of(dirs, target, excluded).no_duplicates(),
        forall|i: int|
            0 <= i < snapshot_of(dirs, target, excluded).len() ==> is_relative(
                #[trigger] snapshot_of(dirs, target, excluded)[i],
            ) && kept(snapshot_of(dirs, target, excluded)[i], target, excluded),
    decreases dirs.len(),
{
    if dirs.len() > 0 {
        let dir = dirs.last();
        lemma_snapshot_of(dirs.drop_last(), target, excluded);
        lemma_files_in_directory(dir.root, dir.files, target, excluded, dir.files.len() as int);
        lemma_with_paths(
            snapshot_of(dirs.drop_last(), target, excluded),
            files_in_directory(dir.root, dir.files, target, excluded, dir.files.len() as int),
            target,
            excluded,
        );
    }
}

proof fn lemma_with_paths_hold(paths: Seq<Seq<char>>, more: Seq<Seq<char>>, other: Seq<char>)
    ensures
        with_paths(paths, more).contains(other) ==> paths.contains(other) || more.contains(other),
    decreases more.len(),
{
    if more.len() > 0 {
        let earlier = with_paths(paths, more.drop_last());
        lemma_with_paths_hold(paths, more.drop_last(), other);
        lemma_with_path_holds(earlier, more.last(), other);
        if other == more.last() {
            assert(more[more.len() - 1] == other);
        }
        if more.drop_last().contains(other) {
            let i = choose|i: int| 0 <= i < more.drop_last().len() && more.drop_last()[i] == other;
            assert(more[i] == other);
        }
    }
}

proof fn lemma_found_key(
    root: Seq<char>,
    found: Seq<Seq<char>>,
    target: Seq<char>,
    excluded: Seq<Seq<char>>,
    upto: int,
    key: Seq<char>,
) -> (j: int)
    requires
        upto <= found.len(),
        files_in_directory(root, found, target, excluded, upto).contains(key),
    ensures
        0 <= j < upto,
        key == normalized_path(root, found[j]),
    decreases upto,
{
    let now = files_in_directory(root, found, target, excluded, upto);
    let i = choose|i: int| 0 <= i < now.len() && now[i] == key;
    if upto <= 0 {
        0
    } else {
        let earlier = files_in_directory(root, found, target, excluded, upto - 1);
        if i < earlier.len() {
            assert(earlier[i] == key);
            lemma_found_key(root, found, target, excluded, upto - 1, key)
        } else {
            upto - 1
        }
    }
}

/// Every key of a snapshot is the key of a file found in one of its
/// directory trees: the snapshot holds the normal form of paths, and no
/// other text.
pub proof fn lemma_snapshot_keys(
    dirs: Seq<Listing>,
    target: Seq<char>,
    excluded: Seq<Seq<char>>,
    key: Seq<char>,
)
    requires
        snapshot_of(dirs, target, excluded).contains(key),
    ensures
        is_key_of(dirs, key),
    decreases dirs.len(),
{
    if dirs.len() > 0 {
        let dir = dirs.last();
        let earlier = snapshot_of(dirs.drop_last(), target, excluded);
        let more = files_in_directory(
            dir.root,
            dir.files,
            target,
            excluded,
            dir.files.len() as int,
        );
        lemma_with_paths_hold(earlier, more, key);
        if earlier.contains(key) {
            lemma_snapshot_keys(dirs.drop_last(), target, excluded, key);
            let (d, j) = choose|d: int, j: int|
                0 <= d < dirs.drop_last().len() && 0 <= j < dirs.drop_last()[d].files.len() && key
                    == #[trigger] normalized_path(
                    dirs.drop_last()[d].root,
                    dirs.drop_last()[d].files[j],
                );
            assert(dirs[d] == dirs.drop_last()[d]);
            assert(key == normalized_path(dirs[d].root, dirs[d].files[j]));
        } else {
            let j = lemma_found_key(
                dir.root,
                dir.files,
                target,
                excluded,
                dir.files.len() as int,
                key,
            );
            let d = dirs.len() - 1;
            assert(key == normalized_path(dirs[d].root, dirs[d].files[j]));
        }
    } else {
        assert(snapshot_of(dirs, target, excluded).len() == 0);
    }
}

/// A snapshot holds every file that is kept of each of its directory trees.
pub proof fn lemma_snapshot_holds(
    dirs: Seq<Listing>,
    target: Seq<char>,
    excluded: Seq<Seq<char>>,
    d: int,
    i: int,
)
    requires
        0 <= d < dirs.len(),
        0 <= i < files_in_directory(
            dirs[d].root,
            dirs[d].files,
            target,
            excluded,
            dirs[d].files.len() as int,
        ).len(),
    ensures
        snapshot_of(dirs, target, excluded).contains(
            files_in_directory(
                dirs[d].root,
                dirs[d].files,
                target,
                excluded,
                dirs[d].files.len() as int,
            )[i],
        ),
    decreases dirs.len(),
{
    let dir = dirs.last();
    lemma_snapshot_of(dirs.drop_last(), target, excluded);
    lemma_files_in_directory(dir.root, dir.files, target, excluded, dir.files.len() as int);
    lemma_with_paths(
        snapshot_of(dirs.drop_last(), target, excluded),
        files_in_directory(dir.root, dir.files, target, excluded, dir.files.len() as int),
        target,
        excluded,
    );
    if d < dirs.len() - 1 {
        assert(dirs.drop_last()[d] == dirs[d]);
        lemma_snapshot_holds(dirs.drop_last(), target, excluded, d, i);
    }
}

proof fn lemma_cached_from(keys: Seq<ScanKey>, key: ScanKey, from: int)
    requires
        0 <= from,
    ensures
        match cached_from(keys, key, from) {
            Some(k) => from <= k < keys.len() && keys[k] == key,
            None => forall|i: int| from <= i < keys.len() ==> keys[i] != key,
        },
    decreases keys.len() - from,
{
    if from < keys.len() && keys[from] != key {
        lemma_cached_from(keys, key, from + 1);
    }
}

proof fn lemma_cached_after_push(keys: Seq<ScanKey>, asked: ScanKey, key: ScanKey, from: int)
    requires
        0 <= from <= keys.len(),
    ensures
        cached_from(keys.push(asked), key, from) == match cached_from(keys, key, from) {
            Some(k) => Some(k),
            None => if asked == key {
                Some(keys.len() as int)
            } else {
                None
            },
        },
    decreases keys.len() - from,
{
    let longer = keys.push(asked);
    if from < keys.len() {
        assert(longer[from] == keys[from]);
        if keys[from] != key {
            lemma_cached_after_push(keys, asked, key, from + 1);
        }
    } else {
        assert(longer[from] == asked);
        assert(cached_from(longer, key, from + 1) is None);
    }
}

/// A snapshot is made once. Of two requests under one key, the second is
/// answered with the snapshot of the first, whatever has been made for it,
/// and leaves the cache as the first left it.
pub proof fn lemma_snapshot_is_made_once(
    keys: Seq<ScanKey>,
    snapshots: Seq<Seq<Seq<char>>>,
    key: ScanKey,
    first: Seq<Seq<char>>,
    second: Seq<Seq<char>>,
)
    requires
        keys.len() == snapshots.len(),
    ensures
        ({
            let once = served(keys, snapshots, key, first);
            let twice = served(once.keys, once.snapshots, key, second);
            twice == once
        }),
{
    lemma_cached_after_push(keys, key, key, 0);
    lemma_cached_from(keys, key, 0);
}

/// A snapshot that is kept stays as it is. A request, under whatever key,
/// changes neither the place nor the contents of a snapshot that the cache
/// held before it.
pub proof fn lemma_snapshots_are_kept(
    keys: Seq<ScanKey>,
    snapshots: Seq<Seq<Seq<char>>>,
    key: ScanKey,
    fresh: Seq<Seq<char>>,
    other: ScanKey,
)
    requires
        keys.len() == snapshots.len(),
        cached(keys, other) is Some,
    ensures
        ({
            let after = served(keys, snapshots, key, fresh);
            &&& cached(after.keys, other) == cached(keys, other)
            &&& after.snapshots[cached(keys, other)->0] == snapshots[cached(keys, other)->0]
        }),
{
    lemma_cached_after_push(keys, key, other, 0);
    lemma_cached_from(keys, other, 0);
}

} // verus!
