//! What holds of the flattened tree, whatever the tree.

use crate::entities::{
    file_entries, join, names_valid, prefixed, valid_name, walk_first, walk_tree, DirEntryView,
    Directory, DirectoryView, EntryType,
};
use vstd::prelude::*;

verus! {

/// A place in a tree: the child indices that lead from the root to a
/// directory, and either that directory itself or one of its files, by index.
pub struct Place {
    pub dir: Seq<int>,
    pub file: Option<int>,
}

/// Whether the child indices `loc` lead from `d` to a directory of its tree.
pub open spec fn reaches(d: DirectoryView, loc: Seq<int>) -> bool
    decreases loc.len(),
{
    loc.len() == 0 || (0 <= loc[0] < d.directories.len() && reaches(
        d.directories[loc[0]],
        loc.drop_first(),
    ))
}

/// The directory to which the child indices `loc` lead from `d`.
pub open spec fn dir_at(d: DirectoryView, loc: Seq<int>) -> DirectoryView
    decreases loc.len(),
{
    if loc.len() == 0 {
        d
    } else {
        dir_at(d.directories[loc[0]], loc.drop_first())
    }
}

/// The names from `d` down to the directory at `loc`, joined by slashes.
pub open spec fn path_at(d: DirectoryView, loc: Seq<int>) -> Seq<char>
    decreases loc.len(),
{
    if loc.len() == 0 {
        d.name
    } else {
        join(d.name, path_at(d.directories[loc[0]], loc.drop_first()))
    }
}

/// Whether the place holds something that is to be created: a file of a
/// directory of the tree, or a directory of the tree that has no children.
pub open spec fn occupied(d: DirectoryView, place: Place) -> bool {
    &&& reaches(d, place.dir)
    &&& match place.file {
        Some(j) => 0 <= j < dir_at(d, place.dir).files.len(),
        None => dir_at(d, place.dir).is_leaf(),
    }
}

/// The entry that stands for what the place holds: its tag, and the names
/// of its ancestors and its own name joined by slashes.
pub open spec fn entry_of(d: DirectoryView, place: Place) -> DirEntryView {
    match place.file {
        Some(j) => DirEntryView {
            entry_type: EntryType::File,
            full_path: join(path_at(d, place.dir), dir_at(d, place.dir).files[j].name),
        },
        None => DirEntryView {
            entry_type: EntryType::Directory,
            full_path: path_at(d, place.dir),
        },
    }
}

/// Where in the flattened tree the entry of the place stands.
pub open spec fn position(d: DirectoryView, place: Place) -> int
    decreases place.dir.len(),
{
    if place.dir.len() == 0 {
        match place.file {
            Some(j) => walk_first(d.directories, d.directories.len()).len() + j,
            None => 0,
        }
    } else {
        walk_first(d.directories, place.dir[0] as nat).len() + position(
            d.directories[place.dir[0]],
            Place { dir: place.dir.drop_first(), file: place.file },
        )
    }
}

/// Whether `path` begins with `prefix`.
pub open spec fn starts_with(path: Seq<char>, prefix: Seq<char>) -> bool {
    prefix.len() <= path.len() && path.take(prefix.len() as int) == prefix
}

/// Determinism: two trees of the same value flatten to the same list, entry
/// by entry and in the same order.
pub proof fn lemma_walk_is_determined_by_tree(a: Directory, b: Directory)
    requires
        a@ == b@,
    ensures
        walk_tree(a@) == walk_tree(b@),
{
}

/// Path rooting: a leaf directory flattens to its own name alone; every
/// path of any other directory begins with the directory's name and a slash.
pub proof fn lemma_walk_is_rooted(d: DirectoryView)
    ensures
        d.is_leaf() ==> walk_tree(d) == seq![
            DirEntryView { entry_type: EntryType::Directory, full_path: d.name },
        ],
        !d.is_leaf() ==> forall|i: int|
            0 <= i < walk_tree(d).len() ==> starts_with(
                (#[trigger] walk_tree(d)[i]).full_path,
                d.name + seq!['/'],
            ),
{
    if !d.is_leaf() {
        let inner = walk_first(d.directories, d.directories.len()) + file_entries(d.files);
        assert forall|i: int| 0 <= i < walk_tree(d).len() implies starts_with(
            (#[trigger] walk_tree(d)[i]).full_path,
            d.name + seq!['/'],
        ) by {
            let path = walk_tree(d)[i].full_path;
            assert(path == d.name + seq!['/'] + inner[i].full_path);
            assert(path.take((d.name + seq!['/']).len() as int) =~= d.name + seq!['/']);
        }
    }
}

/// The entries of the first `m` directories hold those of directory `k`,
/// for `k < m`, as one block that begins behind the entries of the first `k`.
pub proof fn lemma_child_block(ds: Seq<DirectoryView>, m: nat, k: nat)
    requires
        k < m <= ds.len(),
    ensures
        walk_first(ds, k).len() + walk_tree(ds[k as int]).len() <= walk_first(ds, m).len(),
        forall|i: int|
            0 <= i < walk_tree(ds[k as int]).len() ==> #[trigger] walk_first(ds, m)[walk_first(
                ds,
                k,
            ).len() + i] == walk_tree(ds[k as int])[i],
    decreases m,
{
    if m > k + 1 {
        lemma_child_block(ds, (m - 1) as nat, k);
    }
}

/// Each entry of the first `m` directories belongs to the block of one of
/// them.
pub proof fn lemma_block_of(ds: Seq<DirectoryView>, m: nat, i: int) -> (k: nat)
    requires
        m <= ds.len(),
        0 <= i < walk_first(ds, m).len(),
    ensures
        k < m,
        walk_first(ds, k).len() <= i < walk_first(ds, k).len() + walk_tree(ds[k as int]).len(),
        walk_first(ds, m)[i] == walk_tree(ds[k as int])[i - walk_first(ds, k).len()],
    decreases m,
{
    if i < walk_first(ds, (m - 1) as nat).len() {
        lemma_block_of(ds, (m - 1) as nat, i)
    } else {
        (m - 1) as nat
    }
}

/// Joining is associative.
pub proof fn lemma_join_assoc(a: Seq<char>, b: Seq<char>, c: Seq<char>)
    ensures
        join(a, join(b, c)) == join(join(a, b), c),
{
    assert(join(a, join(b, c)) =~= join(join(a, b), c));
}

/// Completeness, first half: whatever a place of the tree holds has its
/// entry in the flattened tree, at the place's position, with the tag of its
/// kind and the path from the root down to it.
pub proof fn lemma_place_has_entry(d: DirectoryView, place: Place)
    requires
        occupied(d, place),
    ensures
        0 <= position(d, place) < walk_tree(d).len(),
        walk_tree(d)[position(d, place)] == entry_of(d, place),
    decreases place.dir.len(),
{
    let subs = walk_first(d.directories, d.directories.len());
    let inner = subs + file_entries(d.files);
    if place.dir.len() == 0 {
        if place.file is Some {
            let j = place.file->Some_0;
            assert(inner[subs.len() + j] == file_entries(d.files)[j]);
        }
    } else {
        let k = place.dir[0];
        let child = d.directories[k];
        let below = Place { dir: place.dir.drop_first(), file: place.file };
        lemma_place_has_entry(child, below);
        lemma_child_block(d.directories, d.directories.len(), k as nat);
        let p = position(child, below);
        let at = walk_first(d.directories, k as nat).len() + p;
        assert(subs[at] == walk_tree(child)[p]);
        assert(inner[at] == subs[at]);
        assert(walk_tree(d)[at] == prefixed(d.name, entry_of(child, below)));
        if place.file is Some {
            lemma_join_assoc(
                d.name,
                path_at(child, below.dir),
                dir_at(child, below.dir).files[place.file->Some_0].name,
            );
        }
    }
}

/// Completeness, one entry each: two different places of the tree have
/// their entries at different positions.
pub proof fn lemma_places_do_not_share(d: DirectoryView, p: Place, q: Place)
    requires
        occupied(d, p),
        occupied(d, q),
        p != q,
    ensures
        position(d, p) != position(d, q),
    decreases p.dir.len(),
{
    let n = d.directories.len();
    if p.dir.len() == 0 && q.dir.len() == 0 {
        assert(p.dir =~= q.dir);
    } else if p.dir.len() == 0 {
        let below = Place { dir: q.dir.drop_first(), file: q.file };
        lemma_place_has_entry(d.directories[q.dir[0]], below);
        lemma_child_block(d.directories, n, q.dir[0] as nat);
    } else if q.dir.len() == 0 {
        let below = Place { dir: p.dir.drop_first(), file: p.file };
        lemma_place_has_entry(d.directories[p.dir[0]], below);
        lemma_child_block(d.directories, n, p.dir[0] as nat);
    } else {
        let kp = p.dir[0];
        let kq = q.dir[0];
        let below_p = Place { dir: p.dir.drop_first(), file: p.file };
        let below_q = Place { dir: q.dir.drop_first(), file: q.file };
        lemma_place_has_entry(d.directories[kp], below_p);
        lemma_place_has_entry(d.directories[kq], below_q);
        if kp == kq {
            if below_p == below_q {
                assert(p.dir =~= seq![kp] + below_p.dir);
                assert(q.dir =~= seq![kq] + below_q.dir);
            }
            lemma_places_do_not_share(d.directories[kp], below_p, below_q);
        } else if kp < kq {
            lemma_child_block(d.directories, kq as nat, kp as nat);
        } else {
            lemma_child_block(d.directories, kp as nat, kq as nat);
        }
    }
}

/// Completeness, second half: every entry of the flattened tree is the
/// entry of a place of the tree. So only files and leaf directories appear,
/// and a directory that has children never does.
pub proof fn lemma_entry_has_place(d: DirectoryView, i: int) -> (place: Place)
    requires
        0 <= i < walk_tree(d).len(),
    ensures
        occupied(d, place),
        position(d, place) == i,
        walk_tree(d)[i] == entry_of(d, place),
    decreases d,
{
    let subs = walk_first(d.directories, d.directories.len());
    let place = if d.is_leaf() {
        Place { dir: Seq::empty(), file: None }
    } else if i >= subs.len() {
        Place { dir: Seq::empty(), file: Some(i - subs.len()) }
    } else {
        let k = lemma_block_of(d.directories, d.directories.len(), i);
        let below = lemma_entry_has_place(
            d.directories[k as int],
            i - walk_first(d.directories, k).len(),
        );
        let dir = seq![k as int] + below.dir;
        assert(dir.drop_first() =~= below.dir);
        Place { dir, file: below.file }
    };
    lemma_place_has_entry(d, place);
    place
}

/// Whether the entry of index `i` in the flattened tree is the entry of a
/// place of the tree.
pub open spec fn stands_for_a_place(d: DirectoryView, i: int) -> bool {
    exists|place: Place|
        occupied(d, place) && #[trigger] position(d, place) == i && walk_tree(d)[i] == entry_of(
            d,
            place,
        )
}

/// Completeness: the entries of the flattened tree and the occupied places
/// of the tree match one to one. Every file of the tree has exactly one
/// entry, tagged `File`, under the names of its ancestors and its own name;
/// every directory without children has exactly one, tagged `Directory`,
/// under the path down to it; and there is no other entry.
pub proof fn lemma_walk_is_complete(d: DirectoryView)
    ensures
        forall|place: Place| #[trigger]
            occupied(d, place) ==> 0 <= position(d, place) < walk_tree(d).len() && walk_tree(
                d,
            )[position(d, place)] == entry_of(d, place),
        forall|p: Place, q: Place|
            #![trigger occupied(d, p), occupied(d, q)]
            occupied(d, p) && occupied(d, q) && p != q ==> position(d, p) != position(d, q),
        forall|i: int| 0 <= i < walk_tree(d).len() ==> #[trigger] stands_for_a_place(d, i),
{
    assert forall|place: Place| #[trigger] occupied(d, place) implies 0 <= position(d, place)
        < walk_tree(d).len() && walk_tree(d)[position(d, place)] == entry_of(d, place) by {
        lemma_place_has_entry(d, place);
    }
    assert forall|p: Place, q: Place|
        #![trigger occupied(d, p), occupied(d, q)]
        occupied(d, p) && occupied(d, q) && p != q implies position(d, p) != position(d, q) by {
        lemma_places_do_not_share(d, p, q);
    }
    assert forall|i: int| 0 <= i < walk_tree(d).len() implies #[trigger] stands_for_a_place(
        d,
        i,
    ) by {
        let place = lemma_entry_has_place(d, i);
    }
}

/// No entry of a flattened tree is tagged `Unknown`.
pub proof fn lemma_walk_tags_are_known(d: DirectoryView)
    ensures
        crate::creator::all_known(walk_tree(d)),
{
    assert forall|i: int| 0 <= i < walk_tree(d).len() implies (#[trigger] walk_tree(
        d,
    )[i]).entry_type != EntryType::Unknown by {
        let place = lemma_entry_has_place(d, i);
    }
}

/// A path is clean where it is not empty, neither begins nor ends with a
/// slash, and holds no two slashes in a row: no segment of it is empty.
pub open spec fn clean_path(path: Seq<char>) -> bool {
    &&& path.len() > 0
    &&& path[0] != '/'
    &&& path[path.len() - 1] != '/'
    &&& forall|i: int| 0 <= i < path.len() - 1 ==> !(path[i] == '/' && #[trigger] path[i + 1] == '/')
}

/// Two clean paths joined are a clean path.
pub proof fn lemma_join_is_clean(a: Seq<char>, b: Seq<char>)
    requires
        clean_path(a),
        clean_path(b),
    ensures
        clean_path(join(a, b)),
{
    let joined = join(a, b);
    assert forall|i: int| 0 <= i < joined.len() - 1 implies !(joined[i] == '/'
        && #[trigger] joined[i + 1] == '/') by {
        if i + 1 < a.len() {
            assert(joined[i] == a[i] && joined[i + 1] == a[i + 1]);
        } else if i + 1 == a.len() {
            assert(joined[i] == a[a.len() - 1]);
        } else if i == a.len() {
            assert(joined[i + 1] == b[0]);
        } else {
            assert(joined[i] == b[i - a.len() - 1]);
            assert(joined[i + 1] == b[i - a.len() - 1 + 1]);
        }
    }
}

/// In a tree of valid names the path down to any directory is clean.
pub proof fn lemma_path_at_is_clean(d: DirectoryView, loc: Seq<int>)
    requires
        names_valid(d),
        reaches(d, loc),
    ensures
        clean_path(path_at(d, loc)),
        names_valid(dir_at(d, loc)),
    decreases loc.len(),
{
    if loc.len() > 0 {
        lemma_path_at_is_clean(d.directories[loc[0]], loc.drop_first());
        lemma_join_is_clean(d.name, path_at(d.directories[loc[0]], loc.drop_first()));
    }
}

/// In a tree of valid names every path of the flattened tree is clean: it
/// neither begins nor ends with a slash and has no empty segment.
pub proof fn lemma_walk_paths_are_clean(d: DirectoryView)
    requires
        names_valid(d),
    ensures
        forall|i: int| 0 <= i < walk_tree(d).len() ==> clean_path((#[trigger] walk_tree(d)[i]).full_path),
{
    assert forall|i: int| 0 <= i < walk_tree(d).len() implies clean_path(
        (#[trigger] walk_tree(d)[i]).full_path,
    ) by {
        let place = lemma_entry_has_place(d, i);
        lemma_path_at_is_clean(d, place.dir);
        if place.file is Some {
            let name = dir_at(d, place.dir).files[place.file->Some_0].name;
            assert(valid_name(name));
            lemma_join_is_clean(path_at(d, place.dir), name);
        }
    }
}

} // verus!
