//! File paths as lists of components, and their order.

use vstd::prelude::*;

verus! {

/// A path, as the names on the way to a file. A path from the root of the file
/// system starts with the component `/`.
#[derive(Debug, PartialEq, Eq)]
pub struct FilePath {
    pub components: Vec<Vec<u8>>,
}

impl View for FilePath {
    type V = Seq<Seq<u8>>;

    open spec fn view(&self) -> Seq<Seq<u8>> {
        self.components@.map_values(|name: Vec<u8>| name@)
    }
}

/// The component that stands for the root of the file system: `/`.
pub open spec fn root_component() -> Seq<u8> {
    seq![47u8]
}

/// The path of the directory that holds a path, or the root of the file system
/// where there is none.
pub open spec fn parent_of(path: Seq<Seq<u8>>) -> Seq<Seq<u8>> {
    if path.len() == 0 || path.last() == root_component() {
        seq![root_component()]
    } else {
        path.drop_last()
    }
}

/// A path as seen from `base`: without it where it starts with it, else whole.
pub open spec fn relative_path(path: Seq<Seq<u8>>, base: Seq<Seq<u8>>) -> Seq<Seq<u8>> {
    if base.is_prefix_of(path) {
        path.skip(base.len() as int)
    } else {
        path
    }
}

/// A path found from `base`: behind it, unless it starts at the root itself.
pub open spec fn joined(base: Seq<Seq<u8>>, path: Seq<Seq<u8>>) -> Seq<Seq<u8>> {
    if path.len() > 0 && path[0] == root_component() {
        path
    } else {
        base + path
    }
}

/// Copies a name.
fn copy_name(name: &Vec<u8>) -> (copy: Vec<u8>)
    ensures
        copy@ == name@,
{
    let copy = name.clone();
    assert(copy@ =~= name@);
    copy
}

/// Whether two names are the same.
fn same_name(a: &Vec<u8>, b: &Vec<u8>) -> (same: bool)
    ensures
        same == (a@ == b@),
{
    if a.len() != b.len() {
        return false;
    }
    let mut i: usize = 0;
    while i < a.len()
        invariant
            i <= a@.len(),
            a@.len() == b@.len(),
            forall|j: int| 0 <= j < i ==> a@[j] == b@[j],
        decreases a.len() - i,
    {
        if a[i] != b[i] {
            return false;
        }
        i += 1;
    }
    assert(a@ =~= b@);
    true
}

/// Whether a name is the component of the root.
fn is_root_name(name: &Vec<u8>) -> (root: bool)
    ensures
        root == (name@ == root_component()),
{
    if name.len() == 1 && name[0] == 47u8 {
        assert(name@ =~= root_component());
        true
    } else {
        assert(name@ == root_component() ==> name@.len() == 1 && name@[0] == 47u8);
        false
    }
}

impl FilePath {
    /// Copies the components from `from` up to `to` behind those of `out`.
    fn copy_components(&self, from: usize, to: usize, out: &mut FilePath)
        requires
            from <= to <= self@.len(),
        ensures
            final(out)@ == old(out)@ + self@.subrange(from as int, to as int),
    {
        let mut i: usize = from;
        assert(out@ =~= old(out)@ + self@.subrange(from as int, i as int));
        while i < to
            invariant
                from <= i <= to <= self@.len(),
                out@ == old(out)@ + self@.subrange(from as int, i as int),
            decreases to - i,
        {
            let ghost before = out@;
            out.components.push(copy_name(&self.components[i]));
            assert(out@ =~= before.push(self@[i as int]));
            i += 1;
            assert(out@ =~= old(out)@ + self@.subrange(from as int, i as int));
        }
    }

    /// A path with the same components.
    pub fn copy(&self) -> (path: FilePath)
        ensures
            path@ == self@,
    {
        let mut path = FilePath { components: Vec::new() };
        self.copy_components(0, self.components.len(), &mut path);
        assert(path@ =~= self@);
        path
    }

    /// The directory that holds this path, or the root of the file system.
    pub fn parent(&self) -> (path: FilePath)
        ensures
            path@ == parent_of(self@),
    {
        let mut path = FilePath { components: Vec::new() };
        let len: usize = self.components.len();
        if len == 0 || is_root_name(&self.components[len - 1]) {
            let mut name: Vec<u8> = Vec::new();
            name.push(47u8);
            assert(name@ =~= root_component());
            path.components.push(name);
            assert(path@ =~= seq![root_component()]);
        } else {
            self.copy_components(0, len - 1, &mut path);
            assert(path@ =~= self@.drop_last());
        }
        path
    }

    /// This path as seen from `base`.
    pub fn relative_to(&self, base: &FilePath) -> (path: FilePath)
        ensures
            path@ == relative_path(self@, base@),
    {
        let len: usize = base.components.len();
        if len > self.components.len() {
            return self.copy();
        }
        let mut i: usize = 0;
        while i < len
            invariant
                i <= len == base@.len() <= self@.len(),
                forall|j: int| 0 <= j < i ==> base@[j] == self@[j],
            decreases len - i,
        {
            if !same_name(&base.components[i], &self.components[i]) {
                assert(base@[i as int] != self@[i as int]);
                return self.copy();
            }
            i += 1;
        }
        assert(base@ =~= self@.take(len as int));
        let mut path = FilePath { components: Vec::new() };
        self.copy_components(len, self.components.len(), &mut path);
        assert(path@ =~= self@.skip(len as int));
        path
    }

    /// The path found from this one by following `path`.
    pub fn join(&self, path: &FilePath) -> (whole: FilePath)
        ensures
            whole@ == joined(self@, path@),
    {
        if path.components.len() > 0 && is_root_name(&path.components[0]) {
            return path.copy();
        }
        let mut whole = self.copy();
        path.copy_components(0, path.components.len(), &mut whole);
        assert(whole@ =~= self@ + path@);
        whole
    }
}

/// A path below `base` is found again from `base` by the path seen from there.
pub proof fn relative_path_leads_back(path: Seq<Seq<u8>>, base: Seq<Seq<u8>>)
    requires
        base.is_prefix_of(path),
        base.len() < path.len() ==> path[base.len() as int] != root_component(),
    ensures
        joined(base, relative_path(path, base)) == path,
{
    assert(base + path.skip(base.len() as int) =~= path);
}

/// Seen from the directory that holds it, a file is just its own name.
pub proof fn file_seen_from_parent(path: Seq<Seq<u8>>)
    requires
        path.len() > 0,
        path.last() != root_component(),
    ensures
        relative_path(path, parent_of(path)) == seq![path.last()],
{
    assert(parent_of(path).is_prefix_of(path));
    assert(path.skip(path.len() - 1) =~= seq![path.last()]);
}

/// A path says the names of its components, one by one.
pub proof fn path_says_its_names(path: FilePath)
    ensures
        path@.len() == path.components@.len(),
        forall|i: int| 0 <= i < path@.len() ==> #[trigger] path@[i] == path.components@[i]@,
{
}

/// What holds a name is the path before it. The root of the file system, `/`, and
/// the empty path are held by that root.
pub proof fn parent_is_path_before_name(dir: Seq<Seq<u8>>, name: Seq<u8>)
    ensures
        name != seq![47u8] ==> parent_of(dir.push(name)) == dir,
        name == seq![47u8] ==> parent_of(dir.push(name)) == seq![seq![47u8]],
        parent_of(Seq::empty()) == seq![seq![47u8]],
{
    assert(dir.push(name).drop_last() =~= dir);
}

/// Seen from `base`, a path that goes on from there is what comes behind.
pub proof fn path_inside_is_what_comes_behind(base: Seq<Seq<u8>>, rest: Seq<Seq<u8>>)
    ensures
        relative_path(base + rest, base) == rest,
{
    assert(base =~= (base + rest).subrange(0, base.len() as int));
    assert((base + rest).skip(base.len() as int) =~= rest);
}

/// Seen from `base`, a path that is shorter or goes another way stays whole.
pub proof fn path_outside_stays_whole(path: Seq<Seq<u8>>, base: Seq<Seq<u8>>, i: int)
    requires
        0 <= i < base.len(),
        i < path.len() ==> path[i] != base[i],
    ensures
        relative_path(path, base) == path,
{
    if base.is_prefix_of(path) {
        assert(path.subrange(0, base.len() as int)[i] == path[i]);
    }
}

/// A path is followed from `base`, unless it starts at the root of the file
/// system, `/`.
pub proof fn path_is_followed_from_base(base: Seq<Seq<u8>>, path: Seq<Seq<u8>>)
    ensures
        path.len() == 0 || path[0] != seq![47u8] ==> joined(base, path) == base + path,
        path.len() > 0 && path[0] == seq![47u8] ==> joined(base, path) == path,
{
}

} // verus!
