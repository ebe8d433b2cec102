//! The order of files: by path, name by name and byte by byte, then by size.

use crate::path::{relative_path, FilePath};
use vstd::multiset::Multiset;
use vstd::prelude::*;

verus! {

/// A file that can be reviewed: its path and its size in bytes.
pub type SizedFile = (FilePath, u64);

/// Lexicographic order by an order of the items: negative, zero or positive as
/// `a` comes before `b`, is `b`, or comes after it. A prefix comes first.
pub open spec fn lexicographic<A>(
    a: Seq<A>,
    b: Seq<A>,
    items: spec_fn(A, A) -> int,
) -> int
    decreases a.len(),
{
    if a.len() == 0 {
        if b.len() == 0 {
            0
        } else {
            -1
        }
    } else if b.len() == 0 {
        1
    } else if items(a[0], b[0]) != 0 {
        items(a[0], b[0])
    } else {
        lexicographic(a.drop_first(), b.drop_first(), items)
    }
}

/// The order of numbers.
pub open spec fn number_order(a: int, b: int) -> int {
    if a < b {
        -1
    } else if a == b {
        0
    } else {
        1
    }
}

/// The order of names.
pub open spec fn name_order(a: Seq<u8>, b: Seq<u8>) -> int {
    lexicographic(a, b, |x: u8, y: u8| number_order(x as int, y as int))
}

/// The order of paths.
pub open spec fn path_order(a: Seq<Seq<u8>>, b: Seq<Seq<u8>>) -> int {
    lexicographic(a, b, |x: Seq<u8>, y: Seq<u8>| name_order(x, y))
}

/// The order of files.
pub open spec fn file_order(a: SizedFile, b: SizedFile) -> int {
    if path_order(a.0@, b.0@) != 0 {
        path_order(a.0@, b.0@)
    } else {
        number_order(a.1 as int, b.1 as int)
    }
}

/// Whether files are in order.
pub open spec fn sorted(files: Seq<SizedFile>) -> bool {
    forall|i: int, j: int| 0 <= i < j < files.len() ==> file_order(files[i], files[j]) <= 0
}

/// Whether files come in strictly ascending order of their paths.
pub open spec fn rising(files: Seq<SizedFile>) -> bool {
    forall|i: int, j: int|
        0 <= i < j < files.len() ==> path_order(files[i].0@, files[j].0@) < 0
}

/// Whether `order` is a total order.
pub open spec fn total_order<A>(order: spec_fn(A, A) -> int) -> bool {
    &&& forall|x: A, y: A| #[trigger] order(x, y) == 0 <==> x == y
    &&& forall|x: A, y: A| #[trigger] order(x, y) < 0 ==> order(y, x) > 0
    &&& forall|x: A, y: A| #[trigger] order(x, y) > 0 ==> order(y, x) < 0
    &&& forall|x: A, y: A, z: A|
        #[trigger] order(x, y) < 0 && #[trigger] order(y, z) < 0 ==> order(x, z) < 0
}

proof fn lemma_lexicographic_pair<A>(a: Seq<A>, b: Seq<A>, items: spec_fn(A, A) -> int)
    requires
        total_order(items),
    ensures
        lexicographic(a, b, items) == 0 <==> a == b,
        lexicographic(a, b, items) < 0 ==> lexicographic(b, a, items) > 0,
        lexicographic(a, b, items) > 0 ==> lexicographic(b, a, items) < 0,
    decreases a.len(),
{
    if a.len() == 0 {
        assert(lexicographic(a, b, items) == 0 ==> a =~= b);
    } else if b.len() > 0 {
        let c = items(a[0], b[0]);
        let d = items(b[0], a[0]);
        lemma_lexicographic_pair(a.drop_first(), b.drop_first(), items);
        if a[0] == b[0] && a.drop_first() == b.drop_first() {
            assert(a =~= seq![a[0]] + a.drop_first());
            assert(b =~= seq![b[0]] + b.drop_first());
        }
    }
}

proof fn lemma_lexicographic_chain<A>(
    a: Seq<A>,
    b: Seq<A>,
    c: Seq<A>,
    items: spec_fn(A, A) -> int,
)
    requires
        total_order(items),
        lexicographic(a, b, items) < 0,
        lexicographic(b, c, items) < 0,
    ensures
        lexicographic(a, c, items) < 0,
    decreases a.len(),
{
    if a.len() > 0 && b.len() > 0 && c.len() > 0 {
        let ab = items(a[0], b[0]);
        let bc = items(b[0], c[0]);
        let ac = items(a[0], c[0]);
        if ab == 0 && bc == 0 {
            lemma_lexicographic_chain(a.drop_first(), b.drop_first(), c.drop_first(), items);
        }
    }
}

proof fn lemma_lexicographic_total<A>(items: spec_fn(A, A) -> int)
    requires
        total_order(items),
    ensures
        total_order(|a: Seq<A>, b: Seq<A>| lexicographic(a, b, items)),
{
    let order = |a: Seq<A>, b: Seq<A>| lexicographic(a, b, items);
    assert forall|x: Seq<A>, y: Seq<A>| #[trigger] order(x, y) == 0 <==> x == y by {
        lemma_lexicographic_pair(x, y, items);
    }
    assert forall|x: Seq<A>, y: Seq<A>| #[trigger] order(x, y) < 0 implies order(y, x) > 0 by {
        lemma_lexicographic_pair(x, y, items);
    }
    assert forall|x: Seq<A>, y: Seq<A>| #[trigger] order(x, y) > 0 implies order(y, x) < 0 by {
        lemma_lexicographic_pair(x, y, items);
    }
    assert forall|x: Seq<A>, y: Seq<A>, z: Seq<A>|
        #[trigger] order(x, y) < 0 && #[trigger] order(y, z) < 0 implies order(x, z) < 0 by {
        lemma_lexicographic_chain(x, y, z, items);
    }
}

/// Names are totally ordered.
pub proof fn name_order_is_total()
    ensures
        total_order(|a: Seq<u8>, b: Seq<u8>| name_order(a, b)),
{
    let bytes = |x: u8, y: u8| number_order(x as int, y as int);
    assert(total_order(bytes));
    lemma_lexicographic_total(bytes);
    let names = |a: Seq<u8>, b: Seq<u8>| lexicographic(a, b, bytes);
    assert(names =~= |a: Seq<u8>, b: Seq<u8>| name_order(a, b));
}

/// Paths are totally ordered.
pub proof fn path_order_is_total()
    ensures
        total_order(|a: Seq<Seq<u8>>, b: Seq<Seq<u8>>| path_order(a, b)),
{
    let names = |x: Seq<u8>, y: Seq<u8>| name_order(x, y);
    name_order_is_total();
    lemma_lexicographic_total(names);
    let paths = |a: Seq<Seq<u8>>, b: Seq<Seq<u8>>| lexicographic(a, b, names);
    assert(paths =~= |a: Seq<Seq<u8>>, b: Seq<Seq<u8>>| path_order(a, b));
}

proof fn lemma_common_prefix<A>(
    base: Seq<A>,
    a: Seq<A>,
    b: Seq<A>,
    items: spec_fn(A, A) -> int,
)
    requires
        total_order(items),
    ensures
        lexicographic(base + a, base + b, items) == lexicographic(a, b, items),
    decreases base.len(),
{
    if base.len() == 0 {
        assert(base + a =~= a);
        assert(base + b =~= b);
    } else {
        lemma_common_prefix(base.drop_first(), a, b, items);
        assert((base + a).drop_first() =~= base.drop_first() + a);
        assert((base + b).drop_first() =~= base.drop_first() + b);
        assert(items(base[0], base[0]) == 0);
    }
}

/// Paths inside a directory come in the same order when seen from there.
pub proof fn relative_paths_keep_order(root: Seq<Seq<u8>>, a: Seq<Seq<u8>>, b: Seq<Seq<u8>>)
    requires
        root.is_prefix_of(a),
        root.is_prefix_of(b),
    ensures
        path_order(relative_path(a, root), relative_path(b, root)) == path_order(a, b),
{
    let names = |x: Seq<u8>, y: Seq<u8>| name_order(x, y);
    name_order_is_total();
    let (c, d) = (relative_path(a, root), relative_path(b, root));
    lemma_common_prefix(root, c, d, names);
    assert(root + c =~= a);
    assert(root + d =~= b);
}

/// Any two files are in order one way or the other, and order carries over.
proof fn lemma_file_order(a: SizedFile, b: SizedFile, c: SizedFile)
    ensures
        file_order(a, b) <= 0 || file_order(b, a) <= 0,
        file_order(a, b) > 0 ==> file_order(b, a) < 0,
        file_order(a, b) <= 0 && file_order(b, c) <= 0 ==> file_order(a, c) <= 0,
{
    path_order_is_total();
    let order = |a: Seq<Seq<u8>>, b: Seq<Seq<u8>>| path_order(a, b);
    let ab = order(a.0@, b.0@);
    let ba = order(b.0@, a.0@);
    let bc = order(b.0@, c.0@);
    let ac = order(a.0@, c.0@);
}

/// Compares two names.
fn order_names(a: &Vec<u8>, b: &Vec<u8>) -> (order: i8)
    ensures
        order == name_order(a@, b@),
{
    let mut i: usize = 0;
    proof {
        assert(a@.skip(0) =~= a@);
        assert(b@.skip(0) =~= b@);
    }
    while i < a.len() && i < b.len()
        invariant
            i <= a@.len(),
            i <= b@.len(),
            name_order(a@.skip(i as int), b@.skip(i as int)) == name_order(a@, b@),
        decreases a.len() - i,
    {
        if a[i] < b[i] {
            return -1;
        }
        if a[i] > b[i] {
            return 1;
        }
        proof {
            assert(a@.skip(i as int).drop_first() =~= a@.skip(i + 1));
            assert(b@.skip(i as int).drop_first() =~= b@.skip(i + 1));
        }
        i += 1;
    }
    if i < a.len() {
        1
    } else if i < b.len() {
        -1
    } else {
        0
    }
}

/// Compares two paths.
fn order_paths(a: &FilePath, b: &FilePath) -> (order: i8)
    ensures
        order == path_order(a@, b@),
{
    let mut i: usize = 0;
    proof {
        assert(a@.skip(0) =~= a@);
        assert(b@.skip(0) =~= b@);
    }
    while i < a.components.len() && i < b.components.len()
        invariant
            i <= a@.len(),
            i <= b@.len(),
            path_order(a@.skip(i as int), b@.skip(i as int)) == path_order(a@, b@),
        decreases a.components.len() - i,
    {
        let order: i8 = order_names(&a.components[i], &b.components[i]);
        if order != 0 {
            return order;
        }
        proof {
            assert(a@.skip(i as int).drop_first() =~= a@.skip(i + 1));
            assert(b@.skip(i as int).drop_first() =~= b@.skip(i + 1));
        }
        i += 1;
    }
    if i < a.components.len() {
        1
    } else if i < b.components.len() {
        -1
    } else {
        0
    }
}

/// Whether `a` may stand before `b`.
fn in_order(a: &SizedFile, b: &SizedFile) -> (ordered: bool)
    ensures
        ordered == (file_order(*a, *b) <= 0),
{
    let order: i8 = order_paths(&a.0, &b.0);
    if order != 0 {
        order < 0
    } else {
        a.1 <= b.1
    }
}

/// The last item of a vector counts once more than the rest.
proof fn lemma_multiset_last(files: Seq<SizedFile>)
    requires
        files.len() > 0,
    ensures
        files.to_multiset() == files.drop_last().to_multiset().insert(files.last()),
{
    assert(files =~= files.drop_last().push(files.last()));
    vstd::seq_lib::to_multiset_build(files.drop_last(), files.last());
}

/// Nothing counts in an empty list.
proof fn lemma_multiset_empty(files: Seq<SizedFile>)
    requires
        files.len() == 0,
    ensures
        files.to_multiset() == Multiset::<SizedFile>::empty(),
{
    assert forall|file: SizedFile| #[trigger] files.to_multiset().count(file) == 0 by {
        vstd::seq_lib::to_multiset_contains(files, file);
    }
    assert(files.to_multiset() =~= Multiset::<SizedFile>::empty());
}

/// Merges two sorted lists.
fn merge(left: Vec<SizedFile>, right: Vec<SizedFile>) -> (merged: Vec<SizedFile>)
    requires
        sorted(left@),
        sorted(right@),
    ensures
        sorted(merged@),
        merged@.to_multiset() == left@.to_multiset().add(right@.to_multiset()),
{
    let ghost all = left@.to_multiset().add(right@.to_multiset());
    let mut left = left;
    let mut right = right;
    // Largest first, so that both lists are taken from their ends.
    let mut falling: Vec<SizedFile> = Vec::new();
    proof {
        lemma_multiset_empty(falling@);
        assert(falling@.to_multiset().add(left@.to_multiset()).add(right@.to_multiset()) =~= all);
    }
    while left.len() > 0 || right.len() > 0
        invariant
            sorted(left@),
            sorted(right@),
            forall|i: int, j: int|
                0 <= i < j < falling@.len() ==> file_order(falling@[j], falling@[i]) <= 0,
            forall|i: int, j: int|
                0 <= i < left@.len() && 0 <= j < falling@.len() ==> file_order(
                    #[trigger] left@[i],
                    #[trigger] falling@[j],
                ) <= 0,
            forall|i: int, j: int|
                0 <= i < right@.len() && 0 <= j < falling@.len() ==> file_order(
                    #[trigger] right@[i],
                    #[trigger] falling@[j],
                ) <= 0,
            falling@.to_multiset().add(left@.to_multiset()).add(right@.to_multiset()) == all,
        decreases left.len() + right.len(),
    {
        let from_right = if left.len() == 0 {
            true
        } else if right.len() == 0 {
            false
        } else {
            in_order(&left[left.len() - 1], &right[right.len() - 1])
        };
        let ghost l = left@;
        let ghost r = right@;
        let ghost f = falling@;
        if from_right {
            proof {
                lemma_multiset_last(r);
                assert forall|i: int| 0 <= i < l.len() implies file_order(l[i], r.last()) <= 0 by {
                    lemma_file_order(l[i], l.last(), r.last());
                    if i < l.len() - 1 {
                        assert(file_order(l[i], l[l.len() - 1]) <= 0);
                    }
                }
                assert forall|i: int| 0 <= i < r.len() - 1 implies file_order(r[i], r.last())
                    <= 0 by {
                    assert(file_order(r[i], r[r.len() - 1]) <= 0);
                }
            }
            if let Some(file) = right.pop() {
                falling.push(file);
                proof {
                    vstd::seq_lib::to_multiset_build(f, file);
                    assert(falling@.to_multiset().add(left@.to_multiset()).add(right@.to_multiset())
                        =~= f.to_multiset().add(l.to_multiset()).add(r.to_multiset()));
                }
            }
        } else {
            proof {
                lemma_multiset_last(l);
                assert forall|i: int| 0 <= i < r.len() implies file_order(r[i], l.last()) <= 0 by {
                    lemma_file_order(l.last(), r.last(), l.last());
                    lemma_file_order(r[i], r.last(), l.last());
                    if i < r.len() - 1 {
                        assert(file_order(r[i], r[r.len() - 1]) <= 0);
                    }
                }
                assert forall|i: int| 0 <= i < l.len() - 1 implies file_order(l[i], l.last())
                    <= 0 by {
                    assert(file_order(l[i], l[l.len() - 1]) <= 0);
                }
            }
            if let Some(file) = left.pop() {
                falling.push(file);
                proof {
                    vstd::seq_lib::to_multiset_build(f, file);
                    assert(falling@.to_multiset().add(left@.to_multiset()).add(right@.to_multiset())
                        =~= f.to_multiset().add(l.to_multiset()).add(r.to_multiset()));
                }
            }
        }
    }
    let ghost f = falling@;
    proof {
        lemma_multiset_empty(left@);
        lemma_multiset_empty(right@);
        assert(f.to_multiset() =~= all);
    }
    let mut merged: Vec<SizedFile> = Vec::new();
    while falling.len() > 0
        invariant
            falling@.len() <= f.len(),
            falling@ == f.take(falling@.len() as int),
            merged@ == f.skip(falling@.len() as int).reverse(),
        decreases falling.len(),
    {
        if let Some(file) = falling.pop() {
            merged.push(file);
        }
        assert(falling@ =~= f.take(falling@.len() as int));
        assert(merged@ =~= f.skip(falling@.len() as int).reverse());
    }
    proof {
        assert(f.skip(0) =~= f);
        f.lemma_reverse_to_multiset();
    }
    merged
}

/// Sorts files by path, then by size.
pub fn sort_files(files: Vec<SizedFile>) -> (ordered: Vec<SizedFile>)
    ensures
        sorted(ordered@),
        ordered@.to_multiset() == files@.to_multiset(),
    decreases files.len(),
{
    if files.len() <= 1 {
        return files;
    }
    let ghost all = files@;
    let mut left = files;
    let half: usize = left.len() / 2;
    let right = left.split_off(half);
    proof {
        assert(all =~= left@ + right@);
        vstd::seq_lib::lemma_multiset_commutative(left@, right@);
    }
    let left = sort_files(left);
    let right = sort_files(right);
    merge(left, right)
}

/// What files are told apart by: the names of their paths, and their sizes.
pub open spec fn listing(files: Seq<SizedFile>) -> Seq<(Seq<Seq<u8>>, u64)> {
    files.map_values(|file: SizedFile| (file.0@, file.1))
}

/// Lists with the same items have the same items under any function.
pub(crate) proof fn lemma_map_multiset<A, B>(a: Seq<A>, b: Seq<A>, f: spec_fn(A) -> B)
    requires
        a.to_multiset() == b.to_multiset(),
    ensures
        a.map_values(f).to_multiset() == b.map_values(f).to_multiset(),
    decreases a.len(),
{
    vstd::seq_lib::to_multiset_len(a);
    vstd::seq_lib::to_multiset_len(b);
    let (fa, fb) = (a.map_values(f), b.map_values(f));
    if a.len() == 0 {
        assert(fa =~= fb);
    } else {
        let item = a.last();
        let rest = a.drop_last();
        assert(a =~= rest.push(item));
        vstd::seq_lib::to_multiset_build(rest, item);
        vstd::seq_lib::to_multiset_contains(b, item);
        let at = choose|i: int| 0 <= i < b.len() && b[i] == item;
        vstd::seq_lib::to_multiset_remove(b, at);
        assert(rest.to_multiset() =~= b.remove(at).to_multiset());
        lemma_map_multiset(rest, b.remove(at), f);
        assert(fa =~= rest.map_values(f).push(f(item)));
        vstd::seq_lib::to_multiset_build(rest.map_values(f), f(item));
        assert(fb.remove(at) =~= b.remove(at).map_values(f));
        vstd::seq_lib::to_multiset_remove(fb, at);
        vstd::seq_lib::to_multiset_contains(fb, f(item));
        assert(fb[at] == f(item));
        assert(fa.to_multiset() =~= fb.to_multiset());
    }
}

proof fn lemma_unique_listing(a: Seq<SizedFile>, b: Seq<SizedFile>)
    requires
        sorted(a),
        sorted(b),
        listing(a).to_multiset() == listing(b).to_multiset(),
    ensures
        listing(a) == listing(b),
    decreases a.len(),
{
    vstd::seq_lib::to_multiset_len(listing(a));
    vstd::seq_lib::to_multiset_len(listing(b));
    if a.len() == 0 {
        assert(listing(a) =~= listing(b));
    } else {
        lemma_last_is_largest(a, b);
        lemma_last_is_largest(b, a);
        lemma_file_order_same(a.last(), b.last());
        let (c, d) = (a.drop_last(), b.drop_last());
        let seen = (a.last().0@, a.last().1);
        assert(listing(a) =~= listing(c).push(seen));
        assert(listing(b) =~= listing(d).push(seen));
        vstd::seq_lib::to_multiset_build(listing(c), seen);
        vstd::seq_lib::to_multiset_build(listing(d), seen);
        assert(listing(c).to_multiset() =~= listing(a).to_multiset().remove(seen));
        assert(listing(d).to_multiset() =~= listing(b).to_multiset().remove(seen));
        lemma_unique_listing(c, d);
    }
}

/// No file of a list comes after the last one of a sorted list with the same
/// files.
proof fn lemma_last_is_largest(a: Seq<SizedFile>, b: Seq<SizedFile>)
    requires
        sorted(b),
        a.len() > 0,
        b.len() > 0,
        listing(a).to_multiset() == listing(b).to_multiset(),
    ensures
        file_order(a.last(), b.last()) <= 0,
{
    let seen = (a.last().0@, a.last().1);
    assert(listing(a)[a.len() - 1] == seen);
    vstd::seq_lib::to_multiset_contains(listing(a), seen);
    vstd::seq_lib::to_multiset_contains(listing(b), seen);
    let at = choose|i: int| 0 <= i < listing(b).len() && listing(b)[i] == seen;
    assert(file_order(b[at], b.last()) == file_order(a.last(), b.last()));
    if at < b.len() - 1 {
        assert(file_order(b[at], b[b.len() - 1]) <= 0);
    } else {
        path_order_is_total();
        let order = |a: Seq<Seq<u8>>, b: Seq<Seq<u8>>| path_order(a, b);
        assert(order(b.last().0@, b.last().0@) == 0);
    }
}

/// Files that may stand either way round are told apart by nothing.
proof fn lemma_file_order_same(a: SizedFile, b: SizedFile)
    requires
        file_order(a, b) <= 0,
        file_order(b, a) <= 0,
    ensures
        a.0@ == b.0@,
        a.1 == b.1,
{
    path_order_is_total();
    let order = |a: Seq<Seq<u8>>, b: Seq<Seq<u8>>| path_order(a, b);
    let ab = order(a.0@, b.0@);
    let ba = order(b.0@, a.0@);
}

/// The same files in order are the same list, whatever order they came in.
pub proof fn sorted_files_are_one_list(a: Seq<SizedFile>, b: Seq<SizedFile>)
    requires
        sorted(a),
        sorted(b),
        a.to_multiset() == b.to_multiset(),
    ensures
        listing(a) == listing(b),
{
    lemma_map_multiset(a, b, |file: SizedFile| (file.0@, file.1));
    lemma_unique_listing(a, b);
}

/// Files in order rise strictly where no path occurs twice.
pub proof fn sorted_distinct_files_rise(files: Seq<SizedFile>)
    requires
        sorted(files),
        files.map_values(|file: SizedFile| file.0@).no_duplicates(),
    ensures
        rising(files),
{
    path_order_is_total();
    let order = |a: Seq<Seq<u8>>, b: Seq<Seq<u8>>| path_order(a, b);
    let paths = files.map_values(|file: SizedFile| file.0@);
    assert forall|i: int, j: int| 0 <= i < j < files.len() implies path_order(
        files[i].0@,
        files[j].0@,
    ) < 0 by {
        assert(file_order(files[i], files[j]) <= 0);
        assert(paths[i] != paths[j]);
        assert(order(files[i].0@, files[j].0@) != 0);
    }
}

proof fn lemma_skip_common<A>(a: Seq<A>, b: Seq<A>, n: int, items: spec_fn(A, A) -> int)
    requires
        total_order(items),
        0 <= n <= a.len(),
        n <= b.len(),
        forall|m: int| 0 <= m < n ==> a[m] == b[m],
    ensures
        lexicographic(a, b, items) == lexicographic(a.skip(n), b.skip(n), items),
{
    lemma_common_prefix(a.take(n), a.skip(n), b.skip(n), items);
    assert(a =~= a.take(n) + a.skip(n));
    assert(b =~= a.take(n) + b.skip(n));
}

/// Of two files in order whose paths share the first `p` names and differ in the
/// next, the first has the smaller byte where that name first differs, or has the
/// shorter name there, with nothing behind what both share.
pub proof fn files_are_in_order_of_first_difference(
    files: Seq<SizedFile>,
    i: int,
    j: int,
    p: int,
    q: int,
)
    requires
        sorted(files),
        0 <= i < j < files.len(),
        0 <= p < files[i].0.components@.len(),
        p < files[j].0.components@.len(),
        forall|m: int|
            0 <= m < p ==> (#[trigger] files[i].0.components@[m])@ == files[j].0.components@[m]@,
        0 <= q <= files[i].0.components@[p]@.len(),
        q <= files[j].0.components@[p]@.len(),
        forall|m: int|
            0 <= m < q ==> #[trigger] files[i].0.components@[p]@[m]
                == files[j].0.components@[p]@[m],
    ensures
        q < files[j].0.components@[p]@.len() || q == files[i].0.components@[p]@.len(),
        q < files[i].0.components@[p]@.len() ==> files[i].0.components@[p]@[q]
            <= files[j].0.components@[p]@[q],
{
    let names = |x: Seq<u8>, y: Seq<u8>| name_order(x, y);
    let bytes = |x: u8, y: u8| number_order(x as int, y as int);
    name_order_is_total();
    assert(total_order(bytes));
    let (a, b) = (files[i].0@, files[j].0@);
    assert forall|m: int| 0 <= m < p implies a[m] == b[m] by {
        assert(files[i].0.components@[m]@ == files[j].0.components@[m]@);
    }
    lemma_skip_common(a, b, p, names);
    let (x, y) = (files[i].0.components@[p]@, files[j].0.components@[p]@);
    assert(a.skip(p)[0] == x);
    assert(b.skip(p)[0] == y);
    lemma_skip_common(x, y, q, bytes);
    assert(file_order(files[i], files[j]) <= 0);
    assert(names(x, y) == name_order(x, y));
    assert(name_order(x, y) == lexicographic(x.skip(q), y.skip(q), bytes));
    assert(path_order(a, b) == lexicographic(a.skip(p), b.skip(p), names));
    if q < x.len() {
        assert(x.skip(q)[0] == x[q]);
        if q < y.len() {
            assert(y.skip(q)[0] == y[q]);
        }
    }
}

/// Of two files in order, where the path of one goes on from that of the other,
/// the shorter comes first. Files with the same path come in order of size.
pub proof fn shorter_paths_come_first(files: Seq<SizedFile>, i: int, j: int)
    requires
        sorted(files),
        0 <= i < j < files.len(),
        files[j].0.components@.len() <= files[i].0.components@.len(),
        forall|m: int|
            0 <= m < files[j].0.components@.len() ==> (#[trigger] files[i].0.components@[m])@
                == files[j].0.components@[m]@,
    ensures
        files[j].0.components@.len() == files[i].0.components@.len(),
        files[i].1 <= files[j].1,
{
    let names = |x: Seq<u8>, y: Seq<u8>| name_order(x, y);
    name_order_is_total();
    let (a, b) = (files[i].0@, files[j].0@);
    let n = b.len() as int;
    assert forall|m: int| 0 <= m < n implies a[m] == b[m] by {
        assert(files[i].0.components@[m]@ == files[j].0.components@[m]@);
    }
    lemma_skip_common(a, b, n, names);
    assert(file_order(files[i], files[j]) <= 0);
    assert(path_order(a, b) == lexicographic(a.skip(n), b.skip(n), names));
}

} // verus!
