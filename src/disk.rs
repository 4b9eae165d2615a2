//! What the writes do to a disk, and the errors they end with.
use vstd::prelude::*;
use crate::store::{after_initialise, place_note, child_ops, flat, folder_image, head_ops, note_image, ops_at, place, child_path, EntryV, FsOp, LibError, MetaFileV, OpV};
use crate::tree::{FolderV, NoteV, PathV};
use crate::library::{after_add_folder, after_add_note};

verus! {

/// A disk as the library sees it: the directories that exist, the metadata
/// file in each, and the note directories that hold a content file.
pub struct DiskV {
    pub dirs: Set<PathV>,
    pub meta: Map<PathV, MetaFileV>,
    pub content: Set<PathV>,
}

/// How a write failed.
#[derive(Debug, Clone, Copy, PartialEq, Eq, Structural)]
pub enum IoFailure {
    /// The directory to create is there already.
    AlreadyExists,
    /// Any other failure.
    Other,
}

/// The error that ends a run of writes when `op` fails with `failure`.
pub open spec fn op_error(op: OpV, failure: IoFailure) -> LibError {
    match op {
        OpV::CreateDir(_) => if failure == IoFailure::AlreadyExists {
            LibError::SiblingCollision
        } else {
            LibError::Io
        },
        _ => LibError::Io,
    }
}

/// The error that ends a run of writes when `op` fails with `failure`: a
/// directory that exists already is a collision with a sibling, anything
/// else an I/O error.
pub fn failure_error(op: &FsOp, failure: IoFailure) -> (e: LibError)
    ensures
        e == op_error(op@, failure),
{
    match op {
        FsOp::CreateDir(_) => match failure {
            IoFailure::AlreadyExists => LibError::SiblingCollision,
            IoFailure::Other => LibError::Io,
        },
        _ => LibError::Io,
    }
}

/// One write on `d`. A directory is created only where none is and its
/// parent exists (a path ending in an empty name names its parent, so it
/// exists already); files go only into existing directories; a content file
/// that exists is left as it is.
pub open spec fn apply_op(d: DiskV, op: OpV) -> Result<DiskV, LibError> {
    match op {
        OpV::CreateDir(p) => if d.dirs.contains(p) || (p.len() > 0 && p.last().len() == 0) {
            Err(op_error(op, IoFailure::AlreadyExists))
        } else if p.len() > 1 && !d.dirs.contains(p.drop_last()) {
            Err(op_error(op, IoFailure::Other))
        } else {
            Ok(DiskV { dirs: d.dirs.insert(p), ..d })
        },
        OpV::WriteMeta(p, m) => if d.dirs.contains(p) {
            Ok(DiskV { meta: d.meta.insert(p, m), ..d })
        } else {
            Err(op_error(op, IoFailure::Other))
        },
        OpV::TouchContent(p) => if d.dirs.contains(p) {
            Ok(DiskV { content: d.content.insert(p), ..d })
        } else {
            Err(op_error(op, IoFailure::Other))
        },
    }
}

/// The writes `ops` on `d` in order, stopping at the first that fails. Writes
/// made before a failure stay.
pub open spec fn apply_ops(d: DiskV, ops: Seq<OpV>) -> (DiskV, Result<(), LibError>)
    decreases ops.len(),
{
    if ops.len() == 0 {
        (d, Ok(()))
    } else {
        match apply_op(d, ops[0]) {
            Ok(d2) => apply_ops(d2, ops.drop_first()),
            Err(e) => (d, Err(e)),
        }
    }
}

/// Initialising a folder onto a directory that exists fails with a sibling
/// collision and leaves the disk as it was: no metadata file is written.
/// Recorded by `initialise`, that outcome leaves the folder as it was.
pub proof fn lemma_initialise_onto_existing(d: DiskV, f: FolderV, path: PathV)
    requires
        d.dirs.contains(path),
    ensures
        apply_ops(d, ops_at(folder_image(place(f, path)), path)) == (
            d,
            Err::<(), LibError>(LibError::SiblingCollision),
        ),
        after_initialise(f, path, apply_ops(d, ops_at(folder_image(place(f, path)), path)).1) == f,
{
    let ops = ops_at(folder_image(place(f, path)), path);
    assert(ops[0] == OpV::CreateDir(path));
}

/// Writing a new note whose directory exists fails with a sibling collision
/// and leaves the disk as it was; recorded by `add_note`, that outcome leaves
/// the parent `g` as it was.
pub proof fn lemma_note_onto_existing(d: DiskV, g: FolderV, n: NoteV, dir: PathV)
    requires
        d.dirs.contains(child_path(dir, n.meta.title)),
    ensures
        apply_ops(d, ops_at(note_image(n), child_path(dir, n.meta.title))) == (
            d,
            Err::<(), LibError>(LibError::SiblingCollision),
        ),
        after_add_note(
            g,
            place_note(n, dir),
            apply_ops(d, ops_at(note_image(n), child_path(dir, n.meta.title))).1,
        ) == g,
{
    let ops = ops_at(note_image(n), child_path(dir, n.meta.title));
    assert(ops[0] == OpV::CreateDir(child_path(dir, n.meta.title)));
}

/// `q` is `p` or lies below it.
pub open spec fn under(p: PathV, q: PathV) -> bool {
    p.len() <= q.len() && q.take(p.len() as int) == p
}

/// In `e` and below it, the children of each directory have non-empty names,
/// no two alike.
pub open spec fn names_ok(e: EntryV) -> bool
    decreases e,
{
    &&& forall|i: int| 0 <= i < e.children.len() ==> (#[trigger] e.children[i]).name.len() > 0
    &&& forall|i: int, j: int|
        0 <= i < j < e.children.len() ==> (#[trigger] e.children[i]).name != (
        #[trigger] e.children[j]).name
    &&& forall|i: int| 0 <= i < e.children.len() ==> names_ok(#[trigger] e.children[i])
}

/// `p` ends in a non-empty name, nothing exists at or below it, and the
/// directory that is to hold it exists.
pub open spec fn fresh_at(d: DiskV, p: PathV) -> bool {
    &&& p.len() > 0
    &&& p.last().len() > 0
    &&& p.len() > 1 ==> d.dirs.contains(p.drop_last())
    &&& forall|q: PathV| #[trigger] d.dirs.contains(q) ==> !under(p, q)
}

proof fn lemma_apply_append(d: DiskV, a: Seq<OpV>, b: Seq<OpV>)
    ensures
        apply_ops(d, a + b) == (match apply_ops(d, a) {
            (d1, Ok(_)) => apply_ops(d1, b),
            (d1, Err(e)) => (d1, Err(e)),
        }),
    decreases a.len(),
{
    if a.len() > 0 {
        assert((a + b).drop_first() =~= a.drop_first() + b);
        assert((a + b)[0] == a[0]);
        match apply_op(d, a[0]) {
            Ok(d2) => lemma_apply_append(d2, a.drop_first(), b),
            Err(_) => {},
        }
    } else {
        assert(a + b =~= b);
    }
}

/// The disk after the writes for the directory `e` itself and its first `k`
/// children.
pub open spec fn after_children(d: DiskV, e: EntryV, p: PathV, k: int) -> (DiskV, Result<(), LibError>) {
    apply_ops(d, head_ops(e, p) + flat(child_ops(e, p).take(k)))
}

proof fn lemma_children_fresh(d: DiskV, e: EntryV, p: PathV, k: int)
    requires
        names_ok(e),
        fresh_at(d, p),
        0 <= k <= e.children.len(),
    ensures
        after_children(d, e, p, k).1 == Ok::<(), LibError>(()),
        after_children(d, e, p, k).0.dirs.contains(p),
        forall|q: PathV| #[trigger] d.dirs.contains(q) ==> after_children(d, e, p, k).0.dirs.contains(q),
        forall|q: PathV|
            #[trigger] after_children(d, e, p, k).0.dirs.contains(q) ==> d.dirs.contains(q) || q == p
                || (under(p, q) && q.len() > p.len() && exists|j: int|
                0 <= j < k && q[p.len() as int] == #[trigger] e.children[j].name),
    decreases e, 0int, k,
{
    let h = head_ops(e, p);
    let parts = child_ops(e, p);
    if k == 0 {
        assert(parts.take(0) =~= Seq::<Seq<OpV>>::empty());
        assert(h + flat(parts.take(0)) =~= h);
        let d1 = DiskV { dirs: d.dirs.insert(p), ..d };
        assert(p.take(p.len() as int) =~= p);
        assert(!d.dirs.contains(p));
        assert(apply_op(d, OpV::CreateDir(p)) == Ok::<DiskV, LibError>(d1));
        assert(h[0] == OpV::CreateDir(p));
        reveal_with_fuel(apply_ops, 4);
        assert(h.drop_first().len() <= 2);
        if h.drop_first().len() > 0 {
            assert(h.drop_first().drop_first().len() <= 1);
        }
    } else {
        lemma_children_fresh(d, e, p, k - 1);
        let cur = after_children(d, e, p, k - 1).0;
        let c = e.children[k - 1];
        let cp = p.push(c.name);
        assert(cp.drop_last() =~= p);
        assert forall|q: PathV| #[trigger] cur.dirs.contains(q) implies !under(cp, q) by {
            if under(cp, q) {
                assert(q.take(p.len() as int) =~= q.take(p.len() + 1int).take(p.len() as int));
                assert(q.take(p.len() + 1int)[p.len() as int] == c.name);
                assert(q[p.len() as int] == c.name);
                if d.dirs.contains(q) {
                    assert(!under(p, q));
                } else if q == p {
                } else {
                    let j = choose|j: int|
                        0 <= j < k - 1 && q[p.len() as int] == #[trigger] e.children[j].name;
                    assert(e.children[j].name != e.children[k - 1].name);
                }
            }
        }
        assert(names_ok(c));
        assert(decreases_to!(e => e.children));
        assert(decreases_to!(e.children => e.children[k - 1]));
        lemma_ops_fresh(cur, c, cp);
        let next = apply_ops(cur, ops_at(c, cp)).0;
        assert(parts[k - 1] == ops_at(c, cp));
        crate::store::lemma_flat_take(parts, k - 1);
        assert(h + flat(parts.take(k)) =~= (h + flat(parts.take(k - 1))) + parts[k - 1]);
        lemma_apply_append(d, h + flat(parts.take(k - 1)), parts[k - 1]);
        assert(after_children(d, e, p, k) == apply_ops(cur, ops_at(c, cp)));
        assert forall|q: PathV| #[trigger] next.dirs.contains(q) implies d.dirs.contains(q) || q == p
            || (under(p, q) && q.len() > p.len() && exists|j: int|
            0 <= j < k && q[p.len() as int] == #[trigger] e.children[j].name) by {
            if !cur.dirs.contains(q) {
                assert(under(cp, q));
                assert(q.take(p.len() as int) =~= q.take(p.len() + 1int).take(p.len() as int));
                assert(q.take(p.len() + 1int)[p.len() as int] == c.name);
                assert(e.children[k - 1].name == q[p.len() as int]);
            } else if d.dirs.contains(q) || q == p {
            } else {
                let j = choose|j: int|
                    0 <= j < k - 1 && q[p.len() as int] == #[trigger] e.children[j].name;
                assert(0 <= j < k && q[p.len() as int] == e.children[j].name);
            }
        }
    }
}

/// Writing the image `e` at a fresh `p` succeeds, creates `p`, and creates
/// nothing that was not at or below `p`.
proof fn lemma_ops_fresh(d: DiskV, e: EntryV, p: PathV)
    requires
        names_ok(e),
        fresh_at(d, p),
    ensures
        apply_ops(d, ops_at(e, p)).1 == Ok::<(), LibError>(()),
        apply_ops(d, ops_at(e, p)).0.dirs.contains(p),
        forall|q: PathV| #[trigger] d.dirs.contains(q) ==> apply_ops(d, ops_at(e, p)).0.dirs.contains(q),
        forall|q: PathV|
            #[trigger] apply_ops(d, ops_at(e, p)).0.dirs.contains(q) ==> d.dirs.contains(q) || under(p, q),
    decreases e, 1int, 0int,
{
    let n = e.children.len() as int;
    lemma_children_fresh(d, e, p, n);
    assert(child_ops(e, p).take(n) =~= child_ops(e, p));
    assert(p.take(p.len() as int) =~= p);
}

/// Writing a new child folder `c` at a directory that exists fails with a
/// sibling collision and leaves the disk as it was; recorded by
/// `add_folder`, that outcome leaves the parent `g` as it was.
pub proof fn lemma_folder_onto_existing(d: DiskV, g: FolderV, c: FolderV, path: PathV)
    requires
        d.dirs.contains(path),
    ensures
        apply_ops(d, ops_at(folder_image(place(c, path)), path)) == (
            d,
            Err::<(), LibError>(LibError::SiblingCollision),
        ),
        after_add_folder(
            g,
            place(c, path),
            apply_ops(d, ops_at(folder_image(place(c, path)), path)).1,
        ) == g,
{
    lemma_initialise_onto_existing(d, c, path);
}

/// Initialising a folder at a directory that does not exist yet, inside one
/// that does, succeeds where no two siblings share a directory name and none
/// has an empty one; afterwards its directory exists, and nothing was
/// created outside it.
pub proof fn lemma_initialise_onto_fresh(d: DiskV, f: FolderV, path: PathV)
    requires
        fresh_at(d, path),
        names_ok(folder_image(place(f, path))),
    ensures
        apply_ops(d, ops_at(folder_image(place(f, path)), path)).1 == Ok::<(), LibError>(()),
        apply_ops(d, ops_at(folder_image(place(f, path)), path)).0.dirs.contains(path),
        forall|q: PathV|
            #[trigger] apply_ops(d, ops_at(folder_image(place(f, path)), path)).0.dirs.contains(q)
                ==> d.dirs.contains(q) || under(path, q),
{
    lemma_ops_fresh(d, folder_image(place(f, path)), path);
}

/// Writing a new note into a directory where nothing of its name exists
/// succeeds, and creates its directory.
pub proof fn lemma_note_onto_fresh(d: DiskV, n: NoteV, dir: PathV)
    requires
        fresh_at(d, child_path(dir, n.meta.title)),
    ensures
        apply_ops(d, ops_at(note_image(n), child_path(dir, n.meta.title))).1 == Ok::<(), LibError>(()),
        apply_ops(d, ops_at(note_image(n), child_path(dir, n.meta.title))).0.dirs.contains(
            child_path(dir, n.meta.title),
        ),
{
    lemma_ops_fresh(d, note_image(n), child_path(dir, n.meta.title));
}

} // verus!
