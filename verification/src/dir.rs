//! A directory that relative paths are resolved inside of.
//!
//! Joining a path to a directory walks its components: names go one level
//! down, `..` one level up but never above the directory, `.` and a leading
//! root are ignored, and a drive prefix is refused. Whether a path is a
//! directory on disk is asked by the caller and handed in.

use vstd::prelude::*;
use crate::bin::views_of;

verus! {

/// Why a directory could not be opened or a path joined.
#[derive(Clone, Copy, Debug, PartialEq, Eq, Structural)]
pub enum DirError {
    /// The path is not a directory.
    NotDir,
    /// The path holds a drive or share prefix.
    PrefixInsideDir,
    /// The path climbs above the directory.
    PathTraversal,
}

/// One component of a path.
#[derive(Clone, Debug)]
pub enum PathComponent {
    Prefix,
    RootDir,
    CurDir,
    ParentDir,
    Normal(String),
}

/// A path component, with a name's characters.
pub enum ComponentView {
    Prefix,
    RootDir,
    CurDir,
    ParentDir,
    Normal(Seq<char>),
}

impl View for PathComponent {
    type V = ComponentView;

    open spec fn view(&self) -> ComponentView {
        match self {
            PathComponent::Prefix => ComponentView::Prefix,
            PathComponent::RootDir => ComponentView::RootDir,
            PathComponent::CurDir => ComponentView::CurDir,
            PathComponent::ParentDir => ComponentView::ParentDir,
            PathComponent::Normal(s) => ComponentView::Normal(s@),
        }
    }
}

/// `s` cut at each `/` (with empty pieces where two `/` meet or one ends
/// the text).
pub open spec fn split_at_slash(s: Seq<char>) -> Seq<Seq<char>>
    decreases s.len(),
{
    if s.len() == 0 {
        seq![Seq::empty()]
    } else if s.last() == '/' {
        split_at_slash(s.drop_last()).push(Seq::empty())
    } else {
        let t = split_at_slash(s.drop_last());
        t.update(t.len() - 1, t.last().push(s.last()))
    }
}

/// A path that every platform splits alike: it holds no `\` and no `:`
/// (so no second kind of separator and no drive), and does not start with
/// two `/` (which some platforms read as a network share).
pub open spec fn portable(s: Seq<char>) -> bool {
    &&& forall|i: int| 0 <= i < s.len() ==> #[trigger] s[i] != '\\' && s[i] != ':'
    &&& !(s.len() >= 2 && s[0] == '/' && s[1] == '/')
}

/// The components that pieces between `/`s make: empty pieces and `.` make
/// none, `..` climbs, any other piece is a name.
pub open spec fn piece_components(pieces: Seq<Seq<char>>) -> Seq<ComponentView>
    decreases pieces.len(),
{
    if pieces.len() == 0 {
        Seq::empty()
    } else {
        let rest = piece_components(pieces.drop_first());
        let p = pieces[0];
        if p.len() == 0 || p == seq!['.'] {
            rest
        } else if p == seq!['.', '.'] {
            seq![ComponentView::ParentDir] + rest
        } else {
            seq![ComponentView::Normal(p)] + rest
        }
    }
}

/// The names and climbs of a portable path, in order.
pub open spec fn portable_components(s: Seq<char>) -> Seq<ComponentView> {
    piece_components(split_at_slash(s))
}

/// `comps` without its root and `.` marks, which a join passes over.
pub open spec fn strip_marks(comps: Seq<ComponentView>) -> Seq<ComponentView>
    decreases comps.len(),
{
    if comps.len() == 0 {
        comps
    } else {
        let rest = strip_marks(comps.drop_first());
        match comps[0] {
            ComponentView::RootDir => rest,
            ComponentView::CurDir => rest,
            c => seq![c] + rest,
        }
    }
}

/// The components of `p` as `std::path::Path::components` splits it on
/// this platform. How a path splits turns on the platform's separators
/// and prefixes; what is stated is what holds on every platform for a
/// portable path: leaving out the root and the `.` marks, its components
/// are its pieces between `/`s, with empty pieces and `.` dropped, `..` a
/// climb and every other piece a name (std's documentation: `/` separates
/// on every platform, repeated separators and `.` are normalised away, and
/// only `\`, a drive or a leading `//` start a prefix). Other paths are not
/// stated.
#[verifier::external_body]
fn path_components(p: &str) -> (v: Vec<PathComponent>)
    ensures
        portable(p@) ==> strip_marks(views_of(v@)) == portable_components(p@),
{
    let mut v = Vec::new();
    for c in std::path::Path::new(p).components() {
        v.push(match c {
            std::path::Component::Prefix(_) => PathComponent::Prefix,
            std::path::Component::RootDir => PathComponent::RootDir,
            std::path::Component::CurDir => PathComponent::CurDir,
            std::path::Component::ParentDir => PathComponent::ParentDir,
            std::path::Component::Normal(n) => PathComponent::Normal(n.to_string_lossy().into_owned()),
        });
    }
    v
}

/// Walks `comps` from the names `names` below the directory.
pub open spec fn spec_join_names(comps: Seq<ComponentView>, names: Seq<Seq<char>>) -> Result<
    Seq<Seq<char>>,
    DirError,
>
    decreases comps.len(),
{
    if comps.len() == 0 {
        Ok(names)
    } else {
        match comps[0] {
            ComponentView::Prefix => Err(DirError::PrefixInsideDir),
            ComponentView::ParentDir => if names.len() == 0 {
                Err(DirError::PathTraversal)
            } else {
                spec_join_names(comps.drop_first(), names.drop_last())
            },
            ComponentView::Normal(n) => spec_join_names(comps.drop_first(), names.push(n)),
            _ => spec_join_names(comps.drop_first(), names),
        }
    }
}

/// A path below a root: the root, then names one level each.
#[derive(Clone, Debug)]
pub struct DirPath {
    pub root: String,
    pub names: Vec<String>,
}

/// A directory.
pub struct Dir(DirPath);

impl Dir {
    /// The directory's root.
    pub closed spec fn root(&self) -> Seq<char> {
        self.0.root@
    }

    /// The directory's names below its root.
    pub closed spec fn names(&self) -> Seq<Seq<char>> {
        views_of(self.0.names@)
    }

    /// A directory at `path`, when `is_dir` says the path is a directory.
    pub fn new(path: DirPath, is_dir: bool) -> (r: Result<Dir, DirError>)
        ensures
            is_dir ==> (r matches Ok(d) && d.root() == path.root@ && d.names() == views_of(
                path.names@,
            )),
            !is_dir ==> r == Err::<Dir, DirError>(DirError::NotDir),
    {
        if !is_dir {
            return Err(DirError::NotDir);
        }
        Ok(Dir(path))
    }

    /// Joins components to this directory.
    pub fn join_components(&self, comps: &[PathComponent]) -> (r: Result<DirPath, DirError>)
        ensures
            match spec_join_names(views_of(comps@), Seq::empty()) {
                Ok(extra) => r matches Ok(p) && p.root@ == self.root() && views_of(p.names@)
                    == self.names() + extra,
                Err(e) => r matches Err(x) && x == e,
            },
    {
        let mut names: Vec<String> = self.0.names.clone();
        let ghost base = self.names();
        assert(views_of(names@) == base);
        let mut added: Vec<String> = Vec::new();
        let mut i: usize = 0;
        let ghost cs = views_of(comps@);
        assert(cs.skip(0) =~= cs);
        assert(views_of(added@) =~= Seq::<Seq<char>>::empty());
        assert(base + Seq::<Seq<char>>::empty() =~= base);
        while i < comps.len()
            invariant
                i <= comps@.len(),
                cs == views_of(comps@),
                views_of(names@) == base + views_of(added@),
                spec_join_names(cs, Seq::empty()) == spec_join_names(cs.skip(i as int), views_of(added@)),
            decreases comps.len() - i,
        {
            let ghost rest = cs.skip(i as int);
            assert(rest[0] == comps@[i as int]@);
            assert(rest.drop_first() =~= cs.skip(i + 1));
            match &comps[i] {
                PathComponent::Prefix => {
                    return Err(DirError::PrefixInsideDir);
                },
                PathComponent::ParentDir => {
                    if added.len() == 0 {
                        return Err(DirError::PathTraversal);
                    }
                    let ghost before = views_of(added@);
                    let ghost nb = views_of(names@);
                    names.pop();
                    added.pop();
                    assert(views_of(added@) =~= before.drop_last());
                    assert(views_of(names@) =~= nb.drop_last());
                    assert(views_of(names@) =~= base + views_of(added@));
                },
                PathComponent::Normal(n) => {
                    let ghost before = views_of(added@);
                    let ghost nb = views_of(names@);
                    names.push(n.clone());
                    added.push(n.clone());
                    assert(views_of(added@) =~= before.push(n@));
                    assert(views_of(names@) =~= nb.push(n@));
                    assert(views_of(names@) =~= base + views_of(added@));
                },
                PathComponent::RootDir | PathComponent::CurDir => {},
            }
            i = i + 1;
        }
        assert(cs.skip(i as int) =~= Seq::<ComponentView>::empty());
        Ok(DirPath { root: self.0.root.clone(), names })
    }

    /// Joins a path to this directory. Its components are those of
    /// `std::path::Path`, and the result is `join_components` of them.
    pub fn join(&self, path: &str) -> (r: Result<DirPath, DirError>)
        ensures
            r matches Ok(p) ==> p.root@ == self.root() && self.names().is_prefix_of(
                views_of(p.names@),
            ),
            r matches Err(e) ==> e == DirError::PrefixInsideDir || e == DirError::PathTraversal,
            portable(path@) ==> match spec_join_names(portable_components(path@), Seq::empty()) {
                Ok(extra) => r matches Ok(p) && p.root@ == self.root() && views_of(p.names@)
                    == self.names() + extra,
                Err(e) => r == Err::<DirPath, DirError>(e),
            },
    {
        let comps = path_components(path);
        let r = self.join_components(comps.as_slice());
        proof {
            lemma_join_errors(views_of(comps@), Seq::empty());
            lemma_join_strip_marks(views_of(comps@), Seq::empty());
        }
        proof {
            match spec_join_names(views_of(comps@), Seq::empty()) {
                Ok(extra) => {
                    let p = r->Ok_0;
                    assert(views_of(p.names@).take(self.names().len() as int) =~= self.names());
                },
                Err(e) => {},
            }
        }
        r
    }

    /// Opens the directory at `path` below this one; `is_dir` tells whether
    /// the joined path is a directory on disk.
    pub fn open_dir(&self, path: &str, is_dir: bool) -> (r: Result<Dir, DirError>)
        ensures
            r matches Ok(d) ==> is_dir && d.root() == self.root() && self.names().is_prefix_of(
                d.names(),
            ),
            !is_dir ==> r is Err,
            r matches Err(e) ==> e == DirError::NotDir || e == DirError::PrefixInsideDir || e
                == DirError::PathTraversal,
            portable(path@) ==> match spec_join_names(portable_components(path@), Seq::empty()) {
                Ok(extra) => if is_dir {
                    r matches Ok(d) && d.root() == self.root() && d.names() == self.names() + extra
                } else {
                    r == Err::<Dir, DirError>(DirError::NotDir)
                },
                Err(e) => r == Err::<Dir, DirError>(e),
            },
    {
        let p = match self.join(path) {
            Ok(p) => p,
            Err(e) => {
                return Err(e);
            },
        };
        Dir::new(p, is_dir)
    }

    /// Whether `path` below this directory exists; the caller tells whether
    /// the joined path exists on disk (`on_disk`). A path that cannot be joined is an
    /// error rather than absent.
    pub fn path_exists(&self, path: &str, on_disk: bool) -> (r: Result<bool, DirError>)
        ensures
            r matches Ok(b) ==> b == on_disk,
            r matches Err(e) ==> e == DirError::PrefixInsideDir || e == DirError::PathTraversal,
            portable(path@) ==> match spec_join_names(portable_components(path@), Seq::empty()) {
                Ok(_) => r == Ok::<bool, DirError>(on_disk),
                Err(e) => r == Err::<bool, DirError>(e),
            },
    {
        match self.join(path) {
            Ok(_) => Ok(on_disk),
            Err(e) => Err(e),
        }
    }

    /// The directory's path.
    pub fn path(&self) -> (p: DirPath)
        ensures
            p.root@ == self.root(),
            views_of(p.names@) == self.names(),
    {
        DirPath { root: self.0.root.clone(), names: self.0.names.clone() }
    }
}

/// A path only of names goes down those names.
pub proof fn lemma_join_names_only(comps: Seq<ComponentView>, names: Seq<Seq<char>>)
    requires
        forall|i: int| 0 <= i < comps.len() ==> #[trigger] comps[i] is Normal,
    ensures
        spec_join_names(comps, names) == Ok::<Seq<Seq<char>>, DirError>(
            names + comps.map_values(|c: ComponentView| c->Normal_0),
        ),
    decreases comps.len(),
{
    if comps.len() == 0 {
        assert(names + comps.map_values(|c: ComponentView| c->Normal_0) =~= names);
    } else {
        let n = comps[0]->Normal_0;
        assert forall|i: int| 0 <= i < comps.drop_first().len() implies #[trigger] comps.drop_first()[i] is Normal by {
            assert(comps.drop_first()[i] == comps[i + 1]);
        };
        lemma_join_names_only(comps.drop_first(), names.push(n));
        assert(names.push(n) + comps.drop_first().map_values(|c: ComponentView| c->Normal_0)
            =~= names + comps.map_values(|c: ComponentView| c->Normal_0));
    }
}

/// A join passes over the root and `.` marks.
pub proof fn lemma_join_strip_marks(comps: Seq<ComponentView>, names: Seq<Seq<char>>)
    ensures
        spec_join_names(comps, names) == spec_join_names(strip_marks(comps), names),
    decreases comps.len(),
{
    if comps.len() > 0 {
        let rest = strip_marks(comps.drop_first());
        match comps[0] {
            ComponentView::RootDir => lemma_join_strip_marks(comps.drop_first(), names),
            ComponentView::CurDir => lemma_join_strip_marks(comps.drop_first(), names),
            ComponentView::ParentDir => {
                assert((seq![comps[0]] + rest).drop_first() =~= rest);
                if names.len() > 0 {
                    lemma_join_strip_marks(comps.drop_first(), names.drop_last());
                }
            },
            ComponentView::Normal(n) => {
                assert((seq![comps[0]] + rest).drop_first() =~= rest);
                lemma_join_strip_marks(comps.drop_first(), names.push(n));
            },
            ComponentView::Prefix => {},
        }
    }
}

/// A join fails only on a drive prefix or a climb above the directory.
pub proof fn lemma_join_errors(comps: Seq<ComponentView>, names: Seq<Seq<char>>)
    ensures
        spec_join_names(comps, names) matches Err(e) ==> e == DirError::PrefixInsideDir || e
            == DirError::PathTraversal,
    decreases comps.len(),
{
    if comps.len() > 0 {
        match comps[0] {
            ComponentView::ParentDir => if names.len() > 0 {
                lemma_join_errors(comps.drop_first(), names.drop_last());
            },
            ComponentView::Normal(n) => lemma_join_errors(comps.drop_first(), names.push(n)),
            ComponentView::Prefix => {},
            _ => lemma_join_errors(comps.drop_first(), names),
        }
    }
}

/// A path that starts by climbing out of the directory is refused.
pub proof fn lemma_join_refuses_escape(comps: Seq<ComponentView>)
    requires
        comps.len() > 0,
        comps[0] is ParentDir,
    ensures
        spec_join_names(comps, Seq::empty()) == Err::<Seq<Seq<char>>, DirError>(
            DirError::PathTraversal,
        ),
{
}

} // verus!
