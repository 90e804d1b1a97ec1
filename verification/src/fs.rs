//! The chart file systems: patches laid over a base file system, and
//! charts packed in a zip archive.

use vstd::prelude::*;
use std::io::Cursor;
use std::io::Write;
use zip::result::ZipError;
use zip::write::SimpleFileOptions;
use zip::{CompressionMethod, ZipArchive, ZipWriter};
use crate::text::{chars_of, str_eq};

verus! {

broadcast use vstd::seq_lib::group_seq_properties;

/// The index of an entry whose path is `path`, if one is.
pub open spec fn path_index(entries: Seq<(Seq<char>, Seq<u8>)>, path: Seq<char>) -> Option<int> {
    if exists|i: int| 0 <= i < entries.len() && (#[trigger] entries[i]).0 == path {
        Some(choose|i: int| 0 <= i < entries.len() && (#[trigger] entries[i]).0 == path)
    } else {
        None
    }
}

/// No two entries share a path.
pub open spec fn paths_distinct(entries: Seq<(Seq<char>, Seq<u8>)>) -> bool {
    forall|i: int, j: int|
        0 <= i < entries.len() && 0 <= j < entries.len() && i != j ==> (#[trigger] entries[i]).0
            != (#[trigger] entries[j]).0
}

/// The contents stored for `path`, if any.
pub open spec fn lookup(entries: Seq<(Seq<char>, Seq<u8>)>, path: Seq<char>) -> Option<Seq<u8>> {
    match path_index(entries, path) {
        Some(i) => Some(entries[i].1),
        None => None,
    }
}

/// With distinct paths, an entry's contents are what is stored for its path.
pub proof fn lemma_lookup_at(entries: Seq<(Seq<char>, Seq<u8>)>, k: int)
    requires
        paths_distinct(entries),
        0 <= k < entries.len(),
    ensures
        lookup(entries, entries[k].0) == Some(entries[k].1),
{
    let q = entries[k].0;
    assert(exists|i: int| 0 <= i < entries.len() && (#[trigger] entries[i]).0 == q);
    let j = choose|i: int| 0 <= i < entries.len() && (#[trigger] entries[i]).0 == q;
    assert(j == k);
}

/// Files that replace, or add to, those of a base file system: each path
/// with its contents, in the order they were first put in.
pub struct Patches {
    entries: Vec<(String, Vec<u8>)>,
}

/// Paths with contents, as the patches hold them.
spec fn entry_views(v: Seq<(String, Vec<u8>)>) -> Seq<(Seq<char>, Seq<u8>)> {
    v.map_values(|e: (String, Vec<u8>)| (e.0@, e.1@))
}

impl Patches {
    /// The patches as paths with contents, in order.
    pub closed spec fn entries(&self) -> Seq<(Seq<char>, Seq<u8>)> {
        entry_views(self.entries@)
    }

    /// The paths, in order.
    pub open spec fn paths(&self) -> Seq<Seq<char>> {
        self.entries().map_values(|e: (Seq<char>, Seq<u8>)| e.0)
    }

    /// No path is patched twice.
    #[verifier::type_invariant]
    spec fn inv(self) -> bool {
        paths_distinct(self.entries())
    }

    /// No patches.
    pub fn new() -> (p: Self)
        ensures
            p.entries() == Seq::<(Seq<char>, Seq<u8>)>::empty(),
    {
        let p = Patches { entries: Vec::new() };
        assert(p.entries() =~= Seq::<(Seq<char>, Seq<u8>)>::empty());
        p
    }

    /// The index of `path` among the patches, if it is there.
    fn find(&self, path: &str) -> (r: Option<usize>)
        ensures
            r matches Some(i) ==> i < self.entries().len() && self.entries()[i as int].0 == path@,
            r is None ==> forall|i: int|
                0 <= i < self.entries().len() ==> (#[trigger] self.entries()[i]).0 != path@,
    {
        let mut i: usize = 0;
        while i < self.entries.len()
            invariant
                i <= self.entries@.len(),
                self.entries().len() == self.entries@.len(),
                forall|j: int| 0 <= j < i ==> (#[trigger] self.entries()[j]).0 != path@,
            decreases self.entries@.len() - i,
        {
            if str_eq(self.entries[i].0.as_str(), path) {
                return Some(i);
            }
            i = i + 1;
        }
        None
    }

    /// Patches `path` with `data`: an existing patch of that path is
    /// replaced in place, a new path goes last.
    pub fn insert(&mut self, path: String, data: Vec<u8>)
        ensures
            lookup(old(self).entries(), path@) is Some ==> final(self).entries() == old(
                self,
            ).entries().update(path_index(old(self).entries(), path@)->0, (path@, data@)),
            lookup(old(self).entries(), path@) is None ==> final(self).entries() == old(
                self,
            ).entries().push((path@, data@)),
            lookup(final(self).entries(), path@) == Some(data@),
            forall|q: Seq<char>|
                q != path@ ==> #[trigger] lookup(final(self).entries(), q) == lookup(old(self).entries(), q),
    {
        proof {
            use_type_invariant(&*self);
        }
        let ghost old_entries = self.entries();
        let found = self.find(path.as_str());
        let mut entries: Vec<(String, Vec<u8>)> = Vec::new();
        std::mem::swap(&mut entries, &mut self.entries);
        let ghost pv = path@;
        let ghost dv = data@;
        match found {
            Some(i) => {
                proof {
                    assert(path_index(old_entries, pv) == Some(i as int));
                }
                entries.set(i, (path, data));
                let ghost ne = entry_views(entries@);
                proof {
                    assert(ne =~= old_entries.update(i as int, (pv, dv)));
                    assert(ne[i as int].0 == pv);
                    assert(paths_distinct(ne)) by {
                        assert forall|a: int, b: int|
                            0 <= a < ne.len() && 0 <= b < ne.len() && a != b implies (#[trigger] ne[a]).0 != (
                            #[trigger] ne[b]).0 by {
                            if a != i && b != i {
                                assert(ne[a] == old_entries[a] && ne[b] == old_entries[b]);
                            } else if a == i {
                                assert(ne[b] == old_entries[b]);
                                assert(old_entries[i as int].0 == pv);
                            } else {
                                assert(ne[a] == old_entries[a]);
                                assert(old_entries[i as int].0 == pv);
                            }
                        }
                    }
                    assert(path_index(ne, pv) == Some(i as int));
                    assert forall|q: Seq<char>| q != pv implies #[trigger] lookup(ne, q) == lookup(old_entries, q) by {
                        if exists|k: int| 0 <= k < old_entries.len() && (#[trigger] old_entries[k]).0 == q {
                            let k = choose|k: int| 0 <= k < old_entries.len() && (#[trigger] old_entries[k]).0 == q;
                            lemma_lookup_at(old_entries, k);
                            assert(ne[k] == old_entries[k]);
                            lemma_lookup_at(ne, k);
                        } else {
                            assert forall|k: int| 0 <= k < ne.len() implies (#[trigger] ne[k]).0 != q by {
                                if k != i {
                                    assert(ne[k] == old_entries[k]);
                                }
                            }
                        }
                    }
                }
            },
            None => {
                entries.push((path, data));
                let ghost ne = entry_views(entries@);
                proof {
                    assert(ne =~= old_entries.push((pv, dv)));
                    let n = old_entries.len() as int;
                    assert(ne[n].0 == pv);
                    assert(paths_distinct(ne)) by {
                        assert forall|a: int, b: int|
                            0 <= a < ne.len() && 0 <= b < ne.len() && a != b implies (#[trigger] ne[a]).0 != (
                            #[trigger] ne[b]).0 by {
                            if a < n && b < n {
                                assert(ne[a] == old_entries[a] && ne[b] == old_entries[b]);
                            } else if a == n {
                                assert(ne[b] == old_entries[b]);
                            } else {
                                assert(ne[a] == old_entries[a]);
                            }
                        }
                    }
                    assert(path_index(ne, pv) == Some(n));
                    assert forall|q: Seq<char>| q != pv implies #[trigger] lookup(ne, q) == lookup(old_entries, q) by {
                        if exists|k: int| 0 <= k < old_entries.len() && (#[trigger] old_entries[k]).0 == q {
                            let k = choose|k: int| 0 <= k < old_entries.len() && (#[trigger] old_entries[k]).0 == q;
                            lemma_lookup_at(old_entries, k);
                            assert(ne[k] == old_entries[k]);
                            lemma_lookup_at(ne, k);
                        } else {
                            assert forall|k: int| 0 <= k < ne.len() implies (#[trigger] ne[k]).0 != q by {
                                if k < n {
                                    assert(ne[k] == old_entries[k]);
                                }
                            }
                        }
                    }
                }
            },
        }
        self.entries = entries;
    }

    /// The contents patched in for `path`, if it is patched.
    pub fn get(&self, path: &str) -> (r: Option<&Vec<u8>>)
        ensures
            match r {
                Some(d) => lookup(self.entries(), path@) == Some(d@),
                None => lookup(self.entries(), path@) is None,
            },
    {
        proof {
            use_type_invariant(self);
        }
        match self.find(path) {
            Some(i) => {
                proof {
                    assert(path_index(self.entries(), path@) == Some(i as int));
                }
                Some(&self.entries[i].1)
            },
            None => None,
        }
    }

    /// Whether `path` is patched.
    pub fn contains(&self, path: &str) -> (r: bool)
        ensures
            r == self.paths().contains(path@),
            r == lookup(self.entries(), path@) is Some,
    {
        proof {
            use_type_invariant(self);
        }
        let r = self.find(path);
        proof {
            if let Some(i) = r {
                assert(self.paths()[i as int] == path@);
            } else {
                assert forall|k: int| 0 <= k < self.paths().len() implies self.paths()[k] != path@ by {
                    assert(self.entries()[k].0 != path@);
                }
            }
        }
        r.is_some()
    }

    /// The patched paths, in order.
    pub fn path_list(&self) -> (v: Vec<String>)
        ensures
            v@.map_values(|s: String| s@) == self.paths(),
    {
        let mut v: Vec<String> = Vec::new();
        let mut i: usize = 0;
        while i < self.entries.len()
            invariant
                i <= self.entries@.len(),
                self.entries().len() == self.entries@.len(),
                v@.map_values(|s: String| s@) == self.paths().take(i as int),
            decreases self.entries@.len() - i,
        {
            let name = self.entries[i].0.clone();
            assert(name@ == self.entries()[i as int].0);
            assert(self.paths()[i as int] == self.entries()[i as int].0);
            let ghost old_v = v@;
            let ghost nv = name@;
            v.push(name);
            assert(v@.map_values(|s: String| s@) =~= old_v.map_values(|s: String| s@).push(nv));
            assert(self.paths().take(i as int + 1) =~= self.paths().take(i as int).push(
                self.paths()[i as int],
            ));
            i = i + 1;
        }
        assert(self.paths().take(i as int) =~= self.paths());
        v
    }
}

/// Whether a patched file system has `path`: the base has it, or it is
/// patched in.
pub fn patched_exists(base_exists: bool, patches: &Patches, path: &str) -> (r: bool)
    ensures
        r == (base_exists || patches.paths().contains(path@)),
{
    base_exists || patches.contains(path)
}

/// `s` with each run of equal neighbours cut down to its first element.
pub open spec fn dedup_adjacent(s: Seq<Seq<char>>) -> Seq<Seq<char>>
    decreases s.len(),
{
    if s.len() == 0 {
        s
    } else {
        let d = dedup_adjacent(s.drop_last());
        if s.len() >= 2 && s[s.len() - 1] == s[s.len() - 2] {
            d
        } else {
            d.push(s.last())
        }
    }
}

/// A non-empty sequence keeps its last element last.
pub proof fn lemma_dedup_last(s: Seq<Seq<char>>)
    requires
        s.len() > 0,
    ensures
        dedup_adjacent(s).len() > 0,
        dedup_adjacent(s).last() == s.last(),
    decreases s.len(),
{
    if s.len() >= 2 && s[s.len() - 1] == s[s.len() - 2] {
        lemma_dedup_last(s.drop_last());
    }
}

/// Cutting runs down keeps exactly the elements there were.
pub proof fn lemma_dedup_contains(s: Seq<Seq<char>>, x: Seq<char>)
    ensures
        dedup_adjacent(s).contains(x) <==> s.contains(x),
    decreases s.len(),
{
    if s.len() > 0 {
        let t = s.drop_last();
        lemma_dedup_contains(t, x);
        assert(s =~= t.push(s.last()));
        if s.len() >= 2 && s[s.len() - 1] == s[s.len() - 2] {
            if x == s.last() {
                assert(t[t.len() - 1] == x);
                assert(t.contains(x));
            }
        }
    }
}

/// No two neighbours are equal after cutting runs down.
pub proof fn lemma_dedup_no_adjacent(s: Seq<Seq<char>>)
    ensures
        forall|k: int, m: int|
            0 <= k && m == k + 1 && m < dedup_adjacent(s).len() ==> #[trigger] dedup_adjacent(s)[k]
                != #[trigger] dedup_adjacent(s)[m],
    decreases s.len(),
{
    if s.len() > 0 {
        let t = s.drop_last();
        lemma_dedup_no_adjacent(t);
        if !(s.len() >= 2 && s[s.len() - 1] == s[s.len() - 2]) && t.len() > 0 {
            lemma_dedup_last(t);
        }
    }
}

/// The root listing of a patched file system: the base's names, then the
/// patched paths, with equal neighbours cut down to one.
pub fn patched_list_root(base: Vec<String>, patches: &Patches) -> (r: Vec<String>)
    ensures
        r@.map_values(|s: String| s@) == dedup_adjacent(
            base@.map_values(|s: String| s@) + patches.paths(),
        ),
{
    let mut all = base;
    let mut extra = patches.path_list();
    let ghost full = all@.map_values(|s: String| s@) + patches.paths();
    all.append(&mut extra);
    assert(all@.map_values(|s: String| s@) =~= full);
    let mut r: Vec<String> = Vec::new();
    let mut i: usize = 0;
    while i < all.len()
        invariant
            i <= all@.len(),
            all@.map_values(|s: String| s@) == full,
            r@.map_values(|s: String| s@) == dedup_adjacent(full.take(i as int)),
        decreases all@.len() - i,
    {
        let ghost prefix = full.take(i as int);
        assert(full.take(i as int + 1).drop_last() =~= prefix);
        if i > 0 {
            proof {
                lemma_dedup_last(prefix);
            }
            let last = r.len() - 1;
            if str_eq(r[last].as_str(), all[i].as_str()) {
                assert(full[i as int] == full[i as int - 1]);
            } else {
                r.push(all[i].clone());
                assert(r@.map_values(|s: String| s@) =~= dedup_adjacent(prefix).push(full[i as int]));
            }
        } else {
            r.push(all[i].clone());
            assert(r@.map_values(|s: String| s@) =~= dedup_adjacent(full.take(1)));
        }
        i = i + 1;
    }
    assert(full.take(i as int) =~= full);
    r
}

/// Every name of the base and every patched path is listed, and nothing
/// else is.
pub proof fn lemma_patched_list_root_members(base: Seq<Seq<char>>, paths: Seq<Seq<char>>, x: Seq<char>)
    ensures
        dedup_adjacent(base + paths).contains(x) <==> (base.contains(x) || paths.contains(x)),
{
    lemma_dedup_contains(base + paths, x);
    if (base + paths).contains(x) {
        let k = choose|k: int| 0 <= k < (base + paths).len() && (base + paths)[k] == x;
        if k < base.len() {
            assert(base[k] == x);
        } else {
            assert(paths[k - base.len()] == x);
        }
    }
    if base.contains(x) {
        let k = choose|k: int| 0 <= k < base.len() && base[k] == x;
        assert((base + paths)[k] == x);
    }
    if paths.contains(x) {
        let k = choose|k: int| 0 <= k < paths.len() && paths[k] == x;
        assert((base + paths)[base.len() + k] == x);
    }
}

/// Why a file system could not give a file.
#[derive(Clone, Copy, Debug, PartialEq, Eq, Structural)]
pub enum FsError {
    /// No such file.
    NotFound,
    /// The archive is not one this reader can open, or an entry of it
    /// cannot be read.
    Archive,
}

/// A reader over bytes in memory.
#[verifier::external_type_specification]
#[verifier::external_body]
#[verifier::reject_recursive_types(T)]
pub struct ExCursor<T>(Cursor<T>);

/// A zip archive being read.
#[verifier::external_type_specification]
#[verifier::external_body]
#[verifier::reject_recursive_types(R)]
pub struct ExZipArchive<R>(ZipArchive<R>);

/// The error of the zip reader.
#[verifier::external_type_specification]
#[verifier::external_body]
pub struct ExZipError(ZipError);

/// The names of the entries of an archive, in the archive's order.
pub uninterp spec fn archive_names(archive: ZipArchive<Cursor<Vec<u8>>>) -> Seq<Seq<char>>;

/// The contents of the entry of an archive with a given name.
pub uninterp spec fn archive_file(archive: ZipArchive<Cursor<Vec<u8>>>, name: Seq<char>) -> Seq<u8>;

/// Whether the zip reader takes `bytes` as an archive (its central
/// directory reads).
pub uninterp spec fn zip_accepts(bytes: Seq<u8>) -> bool;

/// The entry names the zip reader finds in `bytes`, in the archive's order.
pub uninterp spec fn zip_names_of(bytes: Seq<u8>) -> Seq<Seq<char>>;

/// Whether an opened entry of an archive reads to its end without error
/// (its data decompresses and its checksum matches).
pub uninterp spec fn archive_reads(archive: ZipArchive<Cursor<Vec<u8>>>, name: Seq<char>) -> bool;

/// Two archive values that hold the same entries: names, contents, and
/// which entries open and read.
pub open spec fn same_archive(a: ZipArchive<Cursor<Vec<u8>>>, b: ZipArchive<Cursor<Vec<u8>>>) -> bool {
    &&& archive_names(a) == archive_names(b)
    &&& forall|n: Seq<char>| #[trigger] archive_file(a, n) == archive_file(b, n)
    &&& forall|n: Seq<char>| #[trigger] archive_entry_opens(a, n) == archive_entry_opens(b, n)
    &&& forall|n: Seq<char>| #[trigger] archive_reads(a, n) == archive_reads(b, n)
}

/// `ZipArchive::new` over the bytes: reads the archive's central directory.
/// It reads the bytes alone, so whether it succeeds and the names it finds
/// are named after them.
#[verifier::external_body]
fn open_archive(bytes: Vec<u8>) -> (r: Result<ZipArchive<Cursor<Vec<u8>>>, ZipError>)
    ensures
        r is Ok <==> zip_accepts(bytes@),
        r matches Ok(a) ==> archive_names(a) == zip_names_of(bytes@),
{
    ZipArchive::new(Cursor::new(bytes))
}

/// `ZipArchive::file_names`: the entry names in the archive's order, which
/// the archive keeps without repeats.
#[verifier::external_body]
fn archive_file_names(archive: &ZipArchive<Cursor<Vec<u8>>>) -> (r: Vec<String>)
    ensures
        r@.map_values(|s: String| s@) == archive_names(*archive),
        r@.map_values(|s: String| s@).no_duplicates(),
{
    archive.file_names().map(str::to_owned).collect()
}

/// `ZipArchive::index_for_name`: the position of `name` among the entry
/// names, if it is one of them.
#[verifier::external_body]
fn archive_index_for_name(archive: &ZipArchive<Cursor<Vec<u8>>>, name: &str) -> (r: Option<usize>)
    ensures
        match r {
            Some(i) => i < archive_names(*archive).len() && archive_names(*archive)[i as int] == name@,
            None => !archive_names(*archive).contains(name@),
        },
{
    archive.index_for_name(name)
}

/// `ZipArchive::by_index`, the entry then read to its end (the entry
/// borrows the archive, so both happen here): it succeeds exactly when the
/// entry opens and reads, and then the bytes are the entry's contents.
/// Reading moves only the reader's position, so the entries stay as they
/// were.
#[verifier::external_body]
fn archive_read_index(archive: &mut ZipArchive<Cursor<Vec<u8>>>, index: usize) -> (r: Result<Vec<u8>, ZipError>)
    requires
        index < archive_names(*old(archive)).len(),
    ensures
        same_archive(*final(archive), *old(archive)),
        r matches Ok(data) ==> data@ == archive_file(*old(archive), archive_names(*old(archive))[index as int]),
        r is Ok <==> archive_entry_opens(*old(archive), archive_names(*old(archive))[index as int])
            && archive_reads(*old(archive), archive_names(*old(archive))[index as int]),
{
    let mut entry = archive.by_index(index)?;
    let mut data = Vec::new();
    std::io::Read::read_to_end(&mut entry, &mut data)?;
    Ok(data)
}

/// Whether the entry of an archive with a given name opens for reading
/// (its local header reads, and its compression is one this reader has).
pub uninterp spec fn archive_entry_opens(archive: ZipArchive<Cursor<Vec<u8>>>, name: Seq<char>) -> bool;

/// `ZipArchive::by_index` alone, telling whether the entry opens. Opening
/// moves only the reader's position.
#[verifier::external_body]
fn archive_opens_index(archive: &mut ZipArchive<Cursor<Vec<u8>>>, index: usize) -> (r: bool)
    requires
        index < archive_names(*old(archive)).len(),
    ensures
        r == archive_entry_opens(*old(archive), archive_names(*old(archive))[index as int]),
        same_archive(*final(archive), *old(archive)),
{
    archive.by_index(index).is_ok()
}

/// Filtering one more element of a prefix keeps it exactly when it passes.
proof fn lemma_filter_take_step(s: Seq<Seq<char>>, pred: spec_fn(Seq<char>) -> bool, i: int)
    requires
        0 <= i < s.len(),
    ensures
        s.take(i + 1).filter(pred) == if pred(s[i]) {
            s.take(i).filter(pred).push(s[i])
        } else {
            s.take(i).filter(pred)
        },
{
    reveal(Seq::filter);
    assert(s.take(i + 1).drop_last() =~= s.take(i));
}

/// A top-level directory entry: it ends in `/` and has no other `/`.
pub open spec fn is_top_dir(name: Seq<char>) -> bool {
    name.len() > 0 && name.last() == '/' && forall|k: int| 0 <= k < name.len() - 1 ==> name[k] != '/'
}

/// The directory every entry of an archive is taken to live under: its
/// only top-level directory when it has exactly one, else none.
pub open spec fn zip_root(names: Seq<Seq<char>>) -> Seq<char> {
    let dirs = names.filter(|n: Seq<char>| is_top_dir(n));
    if dirs.len() == 1 {
        dirs[0]
    } else {
        Seq::empty()
    }
}

/// Whether an entry sits directly in the root: it starts with the root and
/// what follows has no `/`.
pub open spec fn in_root(name: Seq<char>, root: Seq<char>) -> bool {
    root.is_prefix_of(name) && !name.skip(root.len() as int).contains('/')
}

/// The entries directly in the root, in the archive's order.
pub open spec fn root_listing(names: Seq<Seq<char>>, root: Seq<char>) -> Seq<Seq<char>> {
    names.filter(|n: Seq<char>| in_root(n, root))
}

proof fn lemma_filter_member(s: Seq<Seq<char>>, pred: spec_fn(Seq<char>) -> bool, i: int)
    requires
        0 <= i < s.filter(pred).len(),
    ensures
        s.contains(s.filter(pred)[i]),
        pred(s.filter(pred)[i]),
    decreases s.len(),
{
    reveal(Seq::filter);
    if s.len() > 0 {
        let rest = s.drop_last().filter(pred);
        if i < rest.len() {
            lemma_filter_member(s.drop_last(), pred, i);
            let k = choose|k: int| 0 <= k < s.drop_last().len() && s.drop_last()[k] == rest[i];
            assert(s[k] == rest[i]);
        } else {
            assert(s[s.len() - 1] == s.filter(pred)[i]);
        }
    }
}

/// Every entry the root listing shows can be asked for under the root:
/// its name is the root followed by the path that asks for it, so loading
/// that path never finds the entry missing.
pub proof fn lemma_listed_entries_load(names: Seq<Seq<char>>, root: Seq<char>, k: int)
    requires
        0 <= k < root_listing(names, root).len(),
    ensures
        names.contains(root + root_listing(names, root)[k].skip(root.len() as int)),
{
    let pred = |n: Seq<char>| in_root(n, root);
    lemma_filter_member(names, pred, k);
    let name = root_listing(names, root)[k];
    assert(root.is_prefix_of(name));
    assert(root + name.skip(root.len() as int) =~= name);
}

fn top_dir(name: &String) -> (r: bool)
    ensures
        r == is_top_dir(name@),
{
    let cs = chars_of(name.as_str());
    let n = cs.len();
    if n == 0 || cs[n - 1] != '/' {
        return false;
    }
    let mut k: usize = 0;
    while k < n - 1
        invariant
            n == cs@.len(),
            cs@ == name@,
            n > 0,
            k <= n - 1,
            forall|j: int| 0 <= j < k ==> cs@[j] != '/',
        decreases n - 1 - k,
    {
        if cs[k] == '/' {
            return false;
        }
        k = k + 1;
    }
    true
}

fn entry_in_root(name: &String, root: &Vec<char>) -> (r: bool)
    ensures
        r == in_root(name@, root@),
{
    let cs = chars_of(name.as_str());
    if cs.len() < root.len() {
        return false;
    }
    let mut k: usize = 0;
    while k < root.len()
        invariant
            cs@ == name@,
            root@.len() <= cs@.len(),
            k <= root@.len(),
            forall|j: int| 0 <= j < k ==> cs@[j] == root@[j],
        decreases root@.len() - k,
    {
        if cs[k] != root[k] {
            assert(!root@.is_prefix_of(name@));
            return false;
        }
        k = k + 1;
    }
    assert(root@.is_prefix_of(name@));
    let ghost rest = name@.skip(root@.len() as int);
    let mut j: usize = root.len();
    while j < cs.len()
        invariant
            cs@ == name@,
            root@.len() <= j <= cs@.len(),
            rest == name@.skip(root@.len() as int),
            forall|m: int| root@.len() <= m < j ==> cs@[m] != '/',
        decreases cs@.len() - j,
    {
        if cs[j] == '/' {
            assert(rest[j - root@.len()] == '/');
            return false;
        }
        j = j + 1;
    }
    assert forall|m: int| 0 <= m < rest.len() implies rest[m] != '/' by {
        assert(rest[m] == cs@[m + root@.len()]);
    }
    true
}

/// A chart packed in a zip archive, read under the archive's root
/// directory.
pub struct ZipFileSystem {
    archive: ZipArchive<Cursor<Vec<u8>>>,
    root: String,
}

impl ZipFileSystem {
    /// The archive's entry names.
    pub closed spec fn names(&self) -> Seq<Seq<char>> {
        archive_names(self.archive)
    }

    /// The contents of the entry named `name`.
    pub closed spec fn file(&self, name: Seq<char>) -> Seq<u8> {
        archive_file(self.archive, name)
    }

    /// The directory paths are read under.
    pub closed spec fn root(&self) -> Seq<char> {
        self.root@
    }

    /// Whether the entry named `name` opens for reading.
    pub closed spec fn opens(&self, name: Seq<char>) -> bool {
        archive_entry_opens(self.archive, name)
    }

    /// Whether the entry named `name`, once open, reads to its end.
    pub closed spec fn reads(&self, name: Seq<char>) -> bool {
        archive_reads(self.archive, name)
    }

    /// `other` holds the same entries as `self`, under the same root.
    pub open spec fn same_entries(&self, other: &Self) -> bool {
        &&& other.names() == self.names()
        &&& other.root() == self.root()
        &&& forall|n: Seq<char>| #[trigger] other.file(n) == self.file(n)
        &&& forall|n: Seq<char>| #[trigger] other.opens(n) == self.opens(n)
        &&& forall|n: Seq<char>| #[trigger] other.reads(n) == self.reads(n)
    }

    /// Opens the archive in `bytes`; its root is its only top-level
    /// directory, if it has exactly one.
    pub fn new(bytes: Vec<u8>) -> (r: Result<Self, FsError>)
        ensures
            r is Ok <==> zip_accepts(bytes@),
            r matches Ok(z) ==> z.names() == zip_names_of(bytes@) && z.root() == zip_root(z.names()),
            r matches Err(e) ==> e == FsError::Archive,
    {
        let archive = match open_archive(bytes) {
            Ok(a) => a,
            Err(_) => return Err(FsError::Archive),
        };
        let names = archive_file_names(&archive);
        let ghost nv = names@.map_values(|s: String| s@);
        let ghost pred = |n: Seq<char>| is_top_dir(n);
        let mut count: usize = 0;
        let mut first: usize = 0;
        let mut i: usize = 0;
        while i < names.len()
            invariant
                i <= names@.len(),
                nv == names@.map_values(|s: String| s@),
                pred == (|n: Seq<char>| is_top_dir(n)),
                count == nv.take(i as int).filter(pred).len(),
                count <= i,
                count > 0 ==> first < i && nv.take(i as int).filter(pred)[0] == nv[first as int],
            decreases names@.len() - i,
        {
            let ghost before = nv.take(i as int);
            assert(nv.take(i as int + 1).drop_last() =~= before);
            assert(nv[i as int] == names@[i as int]@);
            assert(nv.take(i as int + 1).last() == nv[i as int]);
            proof {
                lemma_filter_take_step(nv, pred, i as int);
                if count > 0 {
                    assert(before.filter(pred).len() > 0);
                }
            }
            if top_dir(&names[i]) {
                if count == 0 {
                    first = i;
                    proof {
                        assert(nv.take(i as int + 1).filter(pred) == before.filter(pred).push(nv[i as int]));
                    }
                } else {
                    proof {
                        assert(nv.take(i as int + 1).filter(pred) == before.filter(pred).push(nv[i as int]));
                        assert(nv.take(i as int + 1).filter(pred)[0] == before.filter(pred)[0]);
                    }
                }
                count = count + 1;
            } else {
                assert(nv.take(i as int + 1).filter(pred) == before.filter(pred));
            }
            i = i + 1;
        }
        assert(nv.take(i as int) =~= nv);
        let root = if count == 1 {
            names[first].clone()
        } else {
            String::new()
        };
        Ok(ZipFileSystem { archive, root })
    }

    /// The entries directly in the root, in the archive's order.
    pub fn list_root(&self) -> (r: Vec<String>)
        ensures
            r@.map_values(|s: String| s@) == root_listing(self.names(), self.root()),
    {
        let names = archive_file_names(&self.archive);
        let ghost nv = names@.map_values(|s: String| s@);
        let root = chars_of(self.root.as_str());
        let ghost pred = |n: Seq<char>| in_root(n, self.root@);
        let mut r: Vec<String> = Vec::new();
        let mut i: usize = 0;
        while i < names.len()
            invariant
                i <= names@.len(),
                nv == names@.map_values(|s: String| s@),
                root@ == self.root@,
                pred == (|n: Seq<char>| in_root(n, self.root@)),
                r@.map_values(|s: String| s@) == nv.take(i as int).filter(pred),
            decreases names@.len() - i,
        {
            let ghost before = nv.take(i as int);
            let ghost old_r = r@;
            assert(nv.take(i as int + 1).drop_last() =~= before);
            assert(nv[i as int] == names@[i as int]@);
            assert(nv.take(i as int + 1).last() == nv[i as int]);
            proof {
                lemma_filter_take_step(nv, pred, i as int);
            }
            if entry_in_root(&names[i], &root) {
                let n = names[i].clone();
                r.push(n);
                assert(r@.map_values(|s: String| s@) =~= old_r.map_values(|s: String| s@).push(nv[i as int]));
            }
            i = i + 1;
        }
        assert(nv.take(i as int) =~= nv);
        r
    }

    /// Whether the entry at `path` under the root opens.
    pub fn path_exists(&mut self, path: &str) -> (r: bool)
        ensures
            old(self).same_entries(&*final(self)),
            r == (old(self).names().contains(old(self).root() + path@) && old(self).opens(
                old(self).root() + path@,
            )),
    {
        let full = self.root.clone().concat(path);
        match archive_index_for_name(&self.archive, full.as_str()) {
            Some(i) => archive_opens_index(&mut self.archive, i),
            None => false,
        }
    }

    /// The contents of the entry at `path` under the root: missing exactly
    /// when no entry has that name, an archive error exactly when the entry
    /// does not open or does not read to its end.
    pub fn load_file(&mut self, path: &str) -> (r: Result<Vec<u8>, FsError>)
        ensures
            old(self).same_entries(&*final(self)),
            r == Err::<Vec<u8>, FsError>(FsError::NotFound) <==> !old(self).names().contains(
                old(self).root() + path@,
            ),
            r == Err::<Vec<u8>, FsError>(FsError::Archive) <==> old(self).names().contains(
                old(self).root() + path@,
            ) && !(old(self).opens(old(self).root() + path@) && old(self).reads(old(self).root() + path@)),
            r matches Ok(data) ==> data@ == old(self).file(old(self).root() + path@),
            r matches Err(e) ==> e == FsError::NotFound || e == FsError::Archive,
    {
        let full = self.root.clone().concat(path);
        match archive_index_for_name(&self.archive, full.as_str()) {
            Some(i) => match archive_read_index(&mut self.archive, i) {
                Ok(data) => Ok(data),
                Err(_) => Err(FsError::Archive),
            },
            None => Err(FsError::NotFound),
        }
    }
}

/// A zip archive being written into a buffer in memory.
#[verifier::external_body]
pub struct ZipOut {
    inner: ZipWriter<Cursor<Vec<u8>>>,
}

/// How an entry's data is stored in an archive.
#[derive(Clone, Copy, Debug, PartialEq, Eq, Structural)]
pub enum EntryCompression {
    Stored,
    Deflated,
}

/// The file-type bits the zip writer adds to a file entry's Unix mode.
pub const FILE_TYPE_BITS: u32 = 0o100000;

/// The file-type bits the zip writer adds to a directory entry's Unix mode.
pub const DIR_TYPE_BITS: u32 = 0o40000;

/// How each entry of a zip writer is stored, and its Unix mode, in entry
/// order.
pub uninterp spec fn zip_modes(w: ZipOut) -> Seq<(EntryCompression, u32)>;

/// The names of the entries a zip writer holds, in the order they were
/// started.
pub uninterp spec fn zip_written(w: ZipOut) -> Seq<Seq<char>>;

/// The data each entry of a zip writer has been given, in entry order.
pub uninterp spec fn zip_data(w: ZipOut) -> Seq<Seq<u8>>;

/// Whether a zip writer has a file entry open for data (its last entry).
pub uninterp spec fn zip_writing(w: ZipOut) -> bool;

/// The bytes of the archive a zip writer makes when it is finished.
pub uninterp spec fn zip_output(w: ZipOut) -> Seq<u8>;

/// Data small enough that neither it nor its compressed form reaches the
/// 4 GiB an entry holds without the large-file option.
pub open spec fn entry_fits(d: Seq<u8>) -> bool {
    d.len() < 0x8000_0000
}

/// Every entry's data fits.
pub open spec fn all_fit(ds: Seq<Seq<u8>>) -> bool {
    forall|k: int| 0 <= k < ds.len() ==> entry_fits(#[trigger] ds[k])
}

/// How many bytes `c` takes in UTF-8.
pub open spec fn char_utf8_len(c: char) -> nat {
    if (c as u32) < 0x80 {
        1
    } else if (c as u32) < 0x800 {
        2
    } else if (c as u32) < 0x10000 {
        3
    } else {
        4
    }
}

/// How many bytes `s` takes in UTF-8.
pub open spec fn utf8_len(s: Seq<char>) -> nat
    decreases s.len(),
{
    if s.len() == 0 {
        0
    } else {
        utf8_len(s.drop_last()) + char_utf8_len(s.last())
    }
}

/// A name short enough for an entry header (at most 65535 bytes).
pub open spec fn name_fits(s: Seq<char>) -> bool {
    utf8_len(s) <= 65535
}

/// `ZipWriter::new` over an empty buffer: it holds no entries.
#[verifier::external_body]
fn new_zip_writer() -> (w: ZipOut)
    ensures
        zip_written(w) == Seq::<Seq<char>>::empty(),
        zip_data(w) == Seq::<Seq<u8>>::empty(),
        zip_modes(w) == Seq::<(EntryCompression, u32)>::empty(),
        !zip_writing(w),
{
    ZipOut { inner: ZipWriter::new(Cursor::new(Vec::new())) }
}

/// The name `ZipWriter::add_directory` stores a directory under: the name
/// itself when it ends in `/` or `\`, else the name with `/` added.
pub open spec fn dir_entry_name(name: Seq<char>) -> Seq<char> {
    if name.len() > 0 && (name.last() == '/' || name.last() == '\\') {
        name
    } else {
        name.push('/')
    }
}

/// `ZipWriter::add_directory` with the given method and Unix permissions:
/// on success the directory's entry, with no data, comes last; the writer
/// stores a directory whatever the method, and gives it the permission
/// bits of `permissions` with the directory bits. It fails on
/// a name already taken; writing into memory, it fails otherwise only when
/// the entry before it outgrows 4 GiB (the header takes the name's length
/// as 16 bits, which a longer name would overflow).
#[verifier::external_body]
fn zip_add_directory(
    w: &mut ZipOut,
    name: String,
    method: EntryCompression,
    permissions: u32,
) -> (r: Result<(), ZipError>)
    requires
        name_fits(dir_entry_name(name@)),
    ensures
        r is Ok ==> zip_written(*final(w)) == zip_written(*old(w)).push(dir_entry_name(name@))
            && zip_data(*final(w)) == zip_data(*old(w)).push(Seq::empty()) && !zip_writing(*final(w)),
        r is Ok ==> zip_modes(*final(w)) == zip_modes(*old(w)).push(
            (EntryCompression::Stored, (permissions & 0o777) | DIR_TYPE_BITS),
        ),
        r is Ok ==> !zip_written(*old(w)).contains(dir_entry_name(name@)),
        !zip_written(*old(w)).contains(dir_entry_name(name@)) && all_fit(zip_data(*old(w))) ==> r is Ok,
{
    let method = match method {
        EntryCompression::Stored => CompressionMethod::Stored,
        EntryCompression::Deflated => CompressionMethod::Deflated,
    };
    w.inner.add_directory(name, SimpleFileOptions::default().compression_method(method).unix_permissions(permissions))
}

/// `ZipWriter::start_file` with the given method and Unix permissions: on
/// success a file entry named `name`, with no data yet, comes last and is
/// open for data, stored with that method, with the permission bits of
/// `permissions` and the regular-file bits. It fails on a name already taken; writing into memory,
/// it fails otherwise only when the entry before it outgrows 4 GiB (the
/// header takes the name's length as 16 bits, which a longer name would
/// overflow).
#[verifier::external_body]
fn zip_start_file(
    w: &mut ZipOut,
    name: String,
    method: EntryCompression,
    permissions: u32,
) -> (r: Result<(), ZipError>)
    requires
        name_fits(name@),
    ensures
        r is Ok ==> zip_written(*final(w)) == zip_written(*old(w)).push(name@) && zip_data(*final(w))
            == zip_data(*old(w)).push(Seq::empty()) && zip_writing(*final(w)),
        r is Ok ==> zip_modes(*final(w)) == zip_modes(*old(w)).push((method, (permissions & 0o777) | FILE_TYPE_BITS)),
        r is Ok ==> !zip_written(*old(w)).contains(name@),
        !zip_written(*old(w)).contains(name@) && all_fit(zip_data(*old(w))) ==> r is Ok,
{
    let method = match method {
        EntryCompression::Stored => CompressionMethod::Stored,
        EntryCompression::Deflated => CompressionMethod::Deflated,
    };
    w.inner.start_file(name, SimpleFileOptions::default().compression_method(method).unix_permissions(permissions))
}

/// `Write::write_all` on a zip writer: the data goes at the end of the open
/// entry. It fails only when no file entry is open, or when the entry
/// outgrows 4 GiB (a failed write may drop the open entry).
#[verifier::external_body]
fn zip_write_all(w: &mut ZipOut, data: &[u8]) -> (r: Result<(), ZipError>)
    ensures
        r is Ok ==> zip_written(*final(w)) == zip_written(*old(w)) && zip_writing(*final(w)) == zip_writing(*old(w))
            && zip_modes(*final(w)) == zip_modes(*old(w)),
        r is Ok && zip_writing(*old(w)) && zip_data(*old(w)).len() > 0 ==> zip_data(*final(w)) == zip_data(
            *old(w),
        ).update(zip_data(*old(w)).len() - 1, zip_data(*old(w)).last() + data@),
        zip_writing(*old(w)) && zip_data(*old(w)).len() > 0 && entry_fits(zip_data(*old(w)).last() + data@)
            ==> r is Ok,
{
    w.inner.write_all(data).map_err(ZipError::from)
}

/// `ZipArchive::by_index`, then `std::io::copy` of the entry to its end into
/// the writer's open entry (the entry borrows the archive, so both happen
/// here). The archive stays as it was. It succeeds only when the entry
/// opens and reads, and then the entry's contents go at the end of the open
/// entry; it fails only when the entry does not open or read, no file entry
/// is open, or the open entry outgrows 4 GiB.
#[verifier::external_body]
fn zip_copy_entry(
    archive: &mut ZipArchive<Cursor<Vec<u8>>>,
    index: usize,
    w: &mut ZipOut,
) -> (r: Result<(), ZipError>)
    requires
        index < archive_names(*old(archive)).len(),
    ensures
        same_archive(*final(archive), *old(archive)),
        r is Ok ==> zip_written(*final(w)) == zip_written(*old(w)) && zip_writing(*final(w)) == zip_writing(*old(w))
            && zip_modes(*final(w)) == zip_modes(*old(w)),
        r is Ok ==> archive_entry_opens(*old(archive), archive_names(*old(archive))[index as int])
            && archive_reads(*old(archive), archive_names(*old(archive))[index as int]),
        r is Ok && zip_writing(*old(w)) && zip_data(*old(w)).len() > 0 ==> zip_data(*final(w)) == zip_data(
            *old(w),
        ).update(
            zip_data(*old(w)).len() - 1,
            zip_data(*old(w)).last() + archive_file(*old(archive), archive_names(*old(archive))[index as int]),
        ),
        archive_entry_opens(*old(archive), archive_names(*old(archive))[index as int]) && archive_reads(
            *old(archive),
            archive_names(*old(archive))[index as int],
        ) && zip_writing(*old(w)) && zip_data(*old(w)).len() > 0 && entry_fits(
            zip_data(*old(w)).last() + archive_file(*old(archive), archive_names(*old(archive))[index as int]),
        ) ==> r is Ok,
{
    let mut entry = archive.by_index(index)?;
    std::io::copy(&mut entry, &mut w.inner)?;
    Ok(())
}

/// Whether an entry name is a directory's: it ends in `/` or `\`.
pub open spec fn is_dir_name(name: Seq<char>) -> bool {
    name.len() > 0 && (name.last() == '/' || name.last() == '\\')
}

/// `ZipArchive::by_index`, then the entry's `enclosed_name` shown as a
/// string, and `is_dir` (the entry borrows the archive, so all happen
/// here). It succeeds exactly when the entry opens. Whether the entry has an
/// enclosed name turns on the platform's paths and is not stated; when it
/// has one, it is the entry's name. The directory flag is the name's.
#[verifier::external_body]
fn zip_entry_info(archive: &mut ZipArchive<Cursor<Vec<u8>>>, index: usize) -> (r: Result<(Option<String>, bool), ZipError>)
    requires
        index < archive_names(*old(archive)).len(),
    ensures
        same_archive(*final(archive), *old(archive)),
        r is Ok <==> archive_entry_opens(*old(archive), archive_names(*old(archive))[index as int]),
        r matches Ok((Some(n), _)) ==> n@ == archive_names(*old(archive))[index as int],
        r matches Ok((_, d)) ==> d == is_dir_name(archive_names(*old(archive))[index as int]),
{
    let entry = archive.by_index(index)?;
    Ok((entry.enclosed_name().map(|p| p.display().to_string()), entry.is_dir()))
}

/// `ZipWriter::finish`, the buffer taken out: the archive's bytes. Writing
/// into memory, it fails only when the open entry outgrows 4 GiB.
#[verifier::external_body]
fn zip_finish(w: ZipOut) -> (r: Result<Vec<u8>, ZipError>)
    ensures
        r matches Ok(bytes) ==> bytes@ == zip_output(w),
        all_fit(zip_data(w)) ==> r is Ok,
{
    w.inner.finish().map(Cursor::into_inner)
}

/// The Unix permissions entries are written with.
pub const ENTRY_PERMISSIONS: u32 = 0o755;

/// The entries an update writes for the archive's own entries, given what
/// each entry's enclosed name and directory flag were: entries without an
/// enclosed name are dropped, directories kept, and files kept unless a
/// patch replaces them.
pub open spec fn kept_entries(infos: Seq<(Option<Seq<char>>, bool)>, patched: Seq<Seq<char>>) -> Seq<Seq<char>>
    decreases infos.len(),
{
    if infos.len() == 0 {
        Seq::empty()
    } else {
        let before = kept_entries(infos.drop_last(), patched);
        match infos.last() {
            (None, _) => before,
            (Some(name), true) => before.push(dir_entry_name(name)),
            (Some(name), false) => if patched.contains(name) {
                before
            } else {
                before.push(name)
            },
        }
    }
}

/// The data of the kept entries, in the same order: none for a directory,
/// the archive's contents for a file.
pub open spec fn kept_data(
    archive: ZipArchive<Cursor<Vec<u8>>>,
    infos: Seq<(Option<Seq<char>>, bool)>,
    patched: Seq<Seq<char>>,
) -> Seq<Seq<u8>>
    decreases infos.len(),
{
    if infos.len() == 0 {
        Seq::empty()
    } else {
        let before = kept_data(archive, infos.drop_last(), patched);
        match infos.last() {
            (None, _) => before,
            (Some(name), true) => before.push(Seq::empty()),
            (Some(name), false) => if patched.contains(name) {
                before
            } else {
                before.push(archive_file(archive, name))
            },
        }
    }
}

/// What the entries of an archive with names `names` said of themselves:
/// a directory flag that is the name's, and no enclosed name or the name.
pub open spec fn infos_match(names: Seq<Seq<char>>, infos: Seq<(Option<Seq<char>>, bool)>) -> bool {
    &&& infos.len() == names.len()
    &&& forall|i: int|
        0 <= i < infos.len() ==> (#[trigger] infos[i]).1 == is_dir_name(names[i]) && (infos[i].0 matches Some(
            m,
        ) ==> m == names[i])
}

/// The data of each patch, in order.
pub open spec fn patch_data(patches: Patches) -> Seq<Seq<u8>> {
    patches.entries().map_values(|e: (Seq<char>, Seq<u8>)| e.1)
}

/// Every file entry that was kept (it has an enclosed name, and no patch
/// replaces it) reads to its end.
pub open spec fn kept_files_read(
    archive: ZipArchive<Cursor<Vec<u8>>>,
    infos: Seq<(Option<Seq<char>>, bool)>,
    patched: Seq<Seq<char>>,
) -> bool {
    let names = archive_names(archive);
    forall|k: int|
        0 <= k < infos.len() && (#[trigger] infos[k]).0 is Some && !is_dir_name(names[k]) && !patched.contains(
            names[k],
        ) ==> archive_reads(archive, names[k])
}

/// When an update is sure to succeed: every entry opens, every file entry
/// no patch replaces reads to its end and fits, no patch takes a
/// directory's name, and every patch fits.
pub open spec fn update_succeeds(archive: ZipArchive<Cursor<Vec<u8>>>, patches: Patches) -> bool {
    let names = archive_names(archive);
    &&& forall|k: int| 0 <= k < names.len() ==> archive_entry_opens(archive, #[trigger] names[k])
    &&& forall|k: int|
        0 <= k < names.len() && !is_dir_name(names[k]) && !patches.paths().contains(names[k]) ==> archive_reads(
            archive,
            #[trigger] names[k],
        ) && entry_fits(archive_file(archive, names[k]))
    &&& forall|k: int| 0 <= k < names.len() && is_dir_name(names[k]) ==> !patches.paths().contains(#[trigger] names[k])
    &&& all_fit(patch_data(patches))
}

/// How an update stores an entry: a directory stored, a file deflated,
/// each with the permission bits of `ENTRY_PERMISSIONS` and its type bits.
pub open spec fn update_mode(is_dir: bool) -> (EntryCompression, u32) {
    if is_dir {
        (EntryCompression::Stored, (ENTRY_PERMISSIONS & 0o777) | DIR_TYPE_BITS)
    } else {
        (EntryCompression::Deflated, (ENTRY_PERMISSIONS & 0o777) | FILE_TYPE_BITS)
    }
}

/// The modes of the written entries are an update's: of the first `kept`
/// entries, those named as directories are directories; all else are files.
pub open spec fn modes_match(modes: Seq<(EntryCompression, u32)>, written: Seq<Seq<char>>, kept: nat) -> bool {
    &&& modes.len() == written.len()
    &&& forall|k: int| 0 <= k < modes.len() ==> #[trigger] modes[k] == update_mode(k < kept && is_dir_name(written[k]))
}

/// What an update of `archive` with `patches` that returned `r` did: on
/// success the bytes are the archive a zip writer made, whose entries are
/// the kept entries (for what each entry said of itself) then the patches,
/// with no name twice, with the kept files' contents then the patches'
/// data, and every entry opened and every kept file read; a success is
/// owed when `update_succeeds` holds; a failure is an archive error.
pub open spec fn update_outcome(
    archive: ZipArchive<Cursor<Vec<u8>>>,
    patches: Patches,
    r: Result<Vec<u8>, FsError>,
) -> bool {
    &&& r matches Ok(bytes) ==> exists|infos: Seq<(Option<Seq<char>>, bool)>, w: ZipOut|
        infos_match(archive_names(archive), infos) && zip_written(w) == kept_entries(infos, patches.paths())
            + patches.paths() && zip_written(w).no_duplicates() && kept_files_read(archive, infos, patches.paths())
            && zip_data(w) == kept_data(archive, infos, patches.paths()) + patch_data(patches) && modes_match(
            zip_modes(w),
            zip_written(w),
            kept_entries(infos, patches.paths()).len(),
        ) && bytes@ == zip_output(w)
    &&& r is Ok ==> forall|k: int|
        0 <= k < archive_names(archive).len() ==> archive_entry_opens(archive, #[trigger] archive_names(archive)[k])
    &&& update_succeeds(archive, patches) ==> r is Ok
    &&& r matches Err(e) ==> e == FsError::Archive
}

/// A sequence without repeats keeps none when an element it lacks is
/// pushed.
proof fn lemma_push_distinct(s: Seq<Seq<char>>, x: Seq<char>)
    requires
        s.no_duplicates(),
        !s.contains(x),
    ensures
        s.push(x).no_duplicates(),
{
    assert forall|a: int, b: int| 0 <= a < s.push(x).len() && 0 <= b < s.push(x).len() && a != b implies s.push(x)[a]
        != s.push(x)[b] by {
        if a < s.len() && b < s.len() {
        } else if a < s.len() {
            assert(s.contains(s[a]));
        } else if b < s.len() {
            assert(s.contains(s[b]));
        }
    }
}

/// Whether every name of `names` fits an entry header.
pub open spec fn names_fit(names: Seq<Seq<char>>) -> bool {
    forall|k: int| 0 <= k < names.len() ==> name_fits(#[trigger] names[k])
}

/// A prefix takes no more UTF-8 bytes than the whole.
proof fn lemma_utf8_len_prefix(s: Seq<char>, k: int)
    requires
        0 <= k <= s.len(),
    ensures
        utf8_len(s.take(k)) <= utf8_len(s),
    decreases s.len(),
{
    if k == s.len() {
        assert(s.take(k) =~= s);
    } else {
        assert(s.drop_last().take(k) =~= s.take(k));
        lemma_utf8_len_prefix(s.drop_last(), k);
    }
}

/// Whether `s` fits an entry header: at most 65535 bytes in UTF-8.
fn fits_entry_header(s: &str) -> (r: bool)
    ensures
        r == name_fits(s@),
{
    let cs = chars_of(s);
    let mut total: usize = 0;
    let mut i: usize = 0;
    while i < cs.len()
        invariant
            i <= cs@.len(),
            cs@ == s@,
            total == utf8_len(cs@.take(i as int)),
            total <= 65535,
        decreases cs@.len() - i,
    {
        let c = cs[i];
        let n: usize = if (c as u32) < 0x80 {
            1
        } else if (c as u32) < 0x800 {
            2
        } else if (c as u32) < 0x10000 {
            3
        } else {
            4
        };
        assert(cs@.take(i as int + 1).drop_last() =~= cs@.take(i as int));
        total = total + n;
        if total > 65535 {
            proof {
                lemma_utf8_len_prefix(s@, i as int + 1);
            }
            return false;
        }
        i = i + 1;
    }
    assert(cs@.take(i as int) =~= s@);
    true
}

/// Whether every string of `v` fits an entry header.
fn all_fit_entry_header(v: &Vec<String>) -> (r: bool)
    ensures
        r == names_fit(v@.map_values(|s: String| s@)),
{
    let ghost names = v@.map_values(|s: String| s@);
    let mut i: usize = 0;
    while i < v.len()
        invariant
            i <= v@.len(),
            names == v@.map_values(|s: String| s@),
            forall|k: int| 0 <= k < i ==> name_fits(#[trigger] names[k]),
        decreases v@.len() - i,
    {
        if !fits_entry_header(v[i].as_str()) {
            assert(names[i as int] == v@[i as int]@);
            return false;
        }
        i = i + 1;
    }
    true
}

/// `update_zip` for any archive and patches: `None`, with the archive
/// untouched, when a name of the archive or of the patches is too long for
/// an entry header; else what `update_zip` gives.
pub fn update_zip_checked(zip: &mut ZipArchive<Cursor<Vec<u8>>>, patches: &Patches) -> (r: Option<
    Result<Vec<u8>, FsError>,
>)
    ensures
        same_archive(*final(zip), *old(zip)),
        r is None <==> !(names_fit(archive_names(*old(zip))) && names_fit(patches.paths())),
        r matches Some(u) ==> update_outcome(*old(zip), *patches, u),
{
    let names = archive_file_names(zip);
    let paths = patches.path_list();
    if !all_fit_entry_header(&names) || !all_fit_entry_header(&paths) {
        return None;
    }
    Some(update_zip(zip, patches))
}

/// The archive in `zip` rewritten with `patches`: its directories and the
/// files no patch replaces, in order, each file with its contents (entries
/// whose names would leave the archive's folder are dropped), then each
/// patch with its data, in order. Files are deflated and directories
/// stored, all with the permissions `ENTRY_PERMISSIONS` (`update_mode`).
/// It succeeds only when every entry
/// opens, every kept file reads and no two written entries share a name;
/// it succeeds whenever every entry opens, every file no patch replaces
/// reads and fits, no patch takes a directory's name and every patch fits.
/// Between the two lie entries too large for the zip format, and
/// directories dropped for their names. Every name must fit an entry
/// header.
#[verifier::rlimit(40)]
pub fn update_zip(zip: &mut ZipArchive<Cursor<Vec<u8>>>, patches: &Patches) -> (r: Result<Vec<u8>, FsError>)
    requires
        names_fit(archive_names(*old(zip))),
        names_fit(patches.paths()),
    ensures
        same_archive(*final(zip), *old(zip)),
        update_outcome(*old(zip), *patches, r),
{
    proof {
        use_type_invariant(patches);
    }
    let ghost zip0 = *zip;
    let ghost names0 = archive_names(*zip);
    let ghost paths0 = patches.paths();
    let ghost ok = update_succeeds(*zip, *patches);
    let count = archive_file_names(zip).len();
    assert(names0.no_duplicates());
    let mut w = new_zip_writer();
    let ghost mut infos: Seq<(Option<Seq<char>>, bool)> = Seq::empty();
    let mut i: usize = 0;
    while i < count
        invariant
            i <= count,
            count == names0.len(),
            names0 == archive_names(zip0),
            names0.no_duplicates(),
            zip0 == *old(zip),
            same_archive(*zip, zip0),
            paths_distinct(patches.entries()),
            paths0 == patches.paths(),
            names_fit(names0),
            ok == update_succeeds(zip0, *patches),
            infos.len() == i,
            forall|k: int|
                0 <= k < i ==> (#[trigger] infos[k]).1 == is_dir_name(names0[k]) && (infos[k].0 matches Some(
                    m,
                ) ==> m == names0[k]),
            forall|k: int| 0 <= k < i ==> archive_entry_opens(zip0, #[trigger] names0[k]),
            zip_written(w) == kept_entries(infos, paths0),
            zip_written(w).no_duplicates(),
            modes_match(zip_modes(w), zip_written(w), zip_written(w).len()),
            kept_files_read(zip0, infos, paths0),
            zip_data(w) == kept_data(zip0, infos, paths0),
            ok ==> all_fit(zip_data(w)),
            forall|x: Seq<char>|
                #[trigger] zip_written(w).contains(x) ==> names0.take(i as int).contains(x) && (!is_dir_name(x)
                    ==> !paths0.contains(x)),
        decreases count - i,
    {
        let ghost w0 = w;
        proof {
            assert(names0.take(i as int + 1) =~= names0.take(i as int).push(names0[i as int]));
            assert(!names0.take(i as int).contains(names0[i as int])) by {
                if names0.take(i as int).contains(names0[i as int]) {
                    let k = choose|k: int| 0 <= k < i && names0.take(i as int)[k] == names0[i as int];
                    assert(names0[k] == names0[i as int]);
                }
            }
        }
        let info = zip_entry_info(zip, i);
        let (name, is_dir) = match info {
            Ok(x) => x,
            Err(_) => {
                proof {
                    if ok {
                        assert(archive_entry_opens(zip0, names0[i as int]));
                    }
                }
                return Err(FsError::Archive);
            },
        };
        let ghost entry = (match &name {
            Some(n) => Some(n@),
            None => None,
        }, is_dir);
        let ghost next = infos.push(entry);
        assert(next.drop_last() =~= infos);
        match name {
            None => {},
            Some(path) => {
                assert(path@ == names0[i as int]);
                if is_dir {
                    assert(dir_entry_name(path@) == path@);
                    if zip_add_directory(&mut w, path, EntryCompression::Deflated, ENTRY_PERMISSIONS).is_err() {
                        return Err(FsError::Archive);
                    }
                } else if !patches.contains(path.as_str()) {
                    if zip_start_file(&mut w, path, EntryCompression::Deflated, ENTRY_PERMISSIONS).is_err() {
                        return Err(FsError::Archive);
                    }
                    if zip_copy_entry(zip, i, &mut w).is_err() {
                        return Err(FsError::Archive);
                    }
                    proof {
                        assert(zip_data(w) =~= zip_data(w0).push(archive_file(zip0, names0[i as int])));
                    }
                }
            },
        }
        proof {
            infos = next;
            if zip_written(w) != zip_written(w0) {
                lemma_push_distinct(zip_written(w0), names0[i as int]);
            }
            assert forall|k: int| 0 <= k < zip_data(w).len() && ok implies entry_fits(#[trigger] zip_data(w)[k]) by {
                if k < zip_data(w0).len() {
                    assert(zip_data(w)[k] == zip_data(w0)[k]);
                }
            }
            assert forall|x: Seq<char>| #[trigger] zip_written(w).contains(x) implies names0.take(i as int + 1).contains(x)
                && (!is_dir_name(x) ==> !paths0.contains(x)) by {
                if zip_written(w0).contains(x) {
                    let k = choose|k: int| 0 <= k < i && names0.take(i as int)[k] == x;
                    assert(names0.take(i as int + 1)[k] == x);
                } else {
                    assert(x == names0[i as int]);
                    assert(names0.take(i as int + 1)[i as int] == x);
                }
            }
        }
        i = i + 1;
    }
    let paths = patches.path_list();
    let ghost kept = zip_written(w);
    let ghost kdata = zip_data(w);
    proof {
        assert(names0.take(i as int) =~= names0);
        assert(paths0.no_duplicates()) by {
            assert forall|a: int, b: int| 0 <= a < paths0.len() && 0 <= b < paths0.len() && a != b implies paths0[a] != paths0[b] by {
                assert(patches.entries()[a].0 != patches.entries()[b].0);
            }
        }
        assert forall|x: Seq<char>| #[trigger] kept.contains(x) && ok implies !paths0.contains(x) by {
            let k = choose|k: int| 0 <= k < names0.len() && names0[k] == x;
            if is_dir_name(x) {
                assert(is_dir_name(names0[k]));
            }
        }
    }
    let mut j: usize = 0;
    assert(paths0.take(0) =~= Seq::<Seq<char>>::empty());
    assert(patch_data(*patches).take(0) =~= Seq::<Seq<u8>>::empty());
    assert(kept + paths0.take(0) =~= kept);
    assert(kdata + patch_data(*patches).take(0) =~= kdata);
    while j < paths.len()
        invariant
            j <= paths@.len(),
            paths@.map_values(|s: String| s@) == paths0,
            paths0 == patches.paths(),
            paths0.no_duplicates(),
            paths_distinct(patches.entries()),
            names_fit(paths0),
            same_archive(*zip, *old(zip)),
            ok == update_succeeds(*old(zip), *patches),
            zip_written(w) == kept + paths0.take(j as int),
            zip_written(w).no_duplicates(),
            modes_match(zip_modes(w), zip_written(w), kept.len()),
            zip_data(w) == kdata + patch_data(*patches).take(j as int),
            ok ==> all_fit(zip_data(w)),
            ok ==> forall|x: Seq<char>| #[trigger] kept.contains(x) ==> !paths0.contains(x),
        decreases paths@.len() - j,
    {
        let ghost w0 = w;
        let ghost pj = paths0[j as int];
        assert(paths@[j as int]@ == pj);
        assert(paths0[j as int] == patches.entries()[j as int].0);
        proof {
            assert(patch_data(*patches).take(j as int + 1) =~= patch_data(*patches).take(j as int).push(
                patches.entries()[j as int].1,
            ));
            assert(paths0.take(j as int + 1) =~= paths0.take(j as int).push(pj));
            assert(!zip_written(w0).contains(pj) || !ok) by {
                if ok && zip_written(w0).contains(pj) {
                    let k = choose|k: int| 0 <= k < zip_written(w0).len() && zip_written(w0)[k] == pj;
                    if k < kept.len() {
                        assert(kept[k] == pj);
                        assert(kept.contains(pj));
                        assert(paths0.contains(pj));
                    } else {
                        assert(paths0.take(j as int)[k - kept.len()] == pj);
                        assert(paths0[k - kept.len()] == paths0[j as int]);
                    }
                }
            }
            lemma_lookup_at(patches.entries(), j as int);
        }
        if zip_start_file(&mut w, paths[j].clone(), EntryCompression::Deflated, ENTRY_PERMISSIONS).is_err() {
            return Err(FsError::Archive);
        }
        let ghost w1 = w;
        let data = match patches.get(paths[j].as_str()) {
            Some(d) => d,
            None => return Err(FsError::Archive),
        };
        assert(data@ == patches.entries()[j as int].1);
        if zip_write_all(&mut w, data.as_slice()).is_err() {
            proof {
                if ok {
                    assert(zip_data(w1).last() + data@ =~= data@);
                    assert(entry_fits(patch_data(*patches)[j as int]));
                }
            }
            return Err(FsError::Archive);
        }
        proof {
            lemma_push_distinct(zip_written(w0), pj);
            assert(zip_data(w1).last() + data@ =~= data@);
            assert(zip_data(w) =~= zip_data(w0).push(data@));
            assert forall|k: int| 0 <= k < zip_data(w).len() && ok implies entry_fits(#[trigger] zip_data(w)[k]) by {
                if k < zip_data(w0).len() {
                    assert(zip_data(w)[k] == zip_data(w0)[k]);
                } else {
                    assert(entry_fits(patch_data(*patches)[j as int]));
                }
            }
        }
        j = j + 1;
    }
    assert(paths0.take(j as int) =~= paths0);
    assert(patch_data(*patches).take(j as int) =~= patch_data(*patches));
    let ghost written = w;
    match zip_finish(w) {
        Ok(bytes) => {
            assert(infos_match(names0, infos));
            Ok(bytes)
        },
        Err(_) => Err(FsError::Archive),
    }
}

} // verus!
