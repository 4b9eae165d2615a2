//! Reading a tree back from the image of its directories.
use vstd::prelude::*;
use crate::order::{lemma_sort_titled, sort_by_title, sort_titled, views};
use crate::store::{lemma_place_placed, placed_tree, child_path, folder_image, note_image, place, place_note, Entry, EntryV, Found, FoundV, LibError, MetaFile, MetaFileV, MetaKind, clone_strs};
use crate::tree::{child_of, nested, strs, Folder, FolderMeta, FolderMetaV, FolderV, Note, NoteV, PathV};

verus! {

/// The child folders among the first `k` entries of `cs`, in their order;
/// entries that hold no folder are skipped.
pub open spec fn found_folders(cs: Seq<EntryV>, path: PathV, k: int) -> Seq<FolderV>
    decreases cs, 0int, k,
{
    if k <= 0 || k > cs.len() {
        Seq::empty()
    } else {
        let prev = found_folders(cs, path, k - 1);
        let c = cs[k - 1];
        match c.found {
            FoundV::Meta(MetaFileV::Library(m)) => prev.push(
                open_dir(c.children, path.push(c.name), m, true),
            ),
            FoundV::Meta(MetaFileV::Folder(m)) => prev.push(
                open_dir(c.children, path.push(c.name), m, false),
            ),
            _ => prev,
        }
    }
}

/// The notes among the first `k` entries of `cs`, in their order.
pub open spec fn found_notes(cs: Seq<EntryV>, path: PathV, k: int) -> Seq<NoteV>
    decreases k,
{
    if k <= 0 || k > cs.len() {
        Seq::empty()
    } else {
        let prev = found_notes(cs, path, k - 1);
        let c = cs[k - 1];
        match c.found {
            FoundV::Meta(MetaFileV::Note(m)) => prev.push(
                NoteV { meta: m, path: Some(path.push(c.name)) },
            ),
            _ => prev,
        }
    }
}

/// The folder at `path` with metadata `meta`, whose directory holds the
/// entries `cs`: its child folders and notes, each list sorted by title.
pub open spec fn open_dir(cs: Seq<EntryV>, path: PathV, meta: FolderMetaV, library: bool) -> FolderV
    decreases cs, 1int, 0int,
{
    FolderV {
        meta,
        folders: sort_titled::<Folder>(found_folders(cs, path, cs.len() as int)),
        notes: sort_titled::<Note>(found_notes(cs, path, cs.len() as int)),
        library,
        path: Some(path),
    }
}

/// The outcome of opening the directory `e` at `path` as a folder: a library
/// or folder metadata file is read; a corrupt one is an error, and so is a
/// directory with neither.
pub open spec fn open_spec(e: EntryV, path: PathV) -> Result<FolderV, LibError> {
    match e.found {
        FoundV::Meta(MetaFileV::Library(m)) => Ok(open_dir(e.children, path, m, true)),
        FoundV::Meta(MetaFileV::Folder(m)) => Ok(open_dir(e.children, path, m, false)),
        FoundV::Corrupt(MetaKind::Library) => Err(LibError::CorruptMetadata),
        FoundV::Corrupt(MetaKind::Folder) => Err(LibError::CorruptMetadata),
        _ => Err(LibError::Io),
    }
}

/// The outcome of opening the directory `e` at `path` as a library root: it
/// must hold a library metadata file that decodes.
pub open spec fn open_library_spec(e: EntryV, path: PathV) -> Result<FolderV, LibError> {
    match e.found {
        FoundV::Meta(MetaFileV::Library(m)) => Ok(open_dir(e.children, path, m, true)),
        FoundV::Corrupt(MetaKind::Library) => Err(LibError::CorruptMetadata),
        _ => Err(LibError::Io),
    }
}

pub open spec fn entries_v(v: Seq<Entry>) -> Seq<EntryV> {
    v.map_values(|e: Entry| e@)
}

proof fn lemma_entry_children(e: Entry)
    ensures
        e@.children =~= entries_v(e.children@),
        e@.name == e.name@,
        e@.found == e.found@,
{
}

/// Builds the folder at `path` from the entries of its directory.
fn open_children(children: Vec<Entry>, path: Vec<String>, meta: FolderMeta, library: bool) -> (r: Folder)
    ensures
        r@ == open_dir(entries_v(children@), strs(path@), meta@, library),
    decreases children,
{
    let ghost orig = children@;
    let ghost cs = entries_v(children@);
    let ghost pv = strs(path@);
    let n = children.len();
    let mut rest = children;
    let mut folders: Vec<Folder> = Vec::new();
    let mut notes: Vec<Note> = Vec::new();
    let mut k: usize = 0;
    while k < n
        invariant
            n == orig.len(),
            orig == children@,
            cs == entries_v(orig),
            pv == strs(path@),
            k <= n,
            rest@ == orig.subrange(k as int, n as int),
            views(folders@) == found_folders(cs, pv, k as int),
            views(notes@) == found_notes(cs, pv, k as int),
        decreases n - k,
    {
        let c = rest.remove(0);
        assert(c == orig[k as int]);
        let ghost cv = c@;
        proof {
            lemma_entry_children(c);
            assert(cs[k as int] == cv);
            assert(decreases_to!(children => children@));
            assert(decreases_to!(children@ => children@[k as int]));
            assert(decreases_to!(c => c.children));
        }
        let ghost before_f = views(folders@);
        let ghost before_n = views(notes@);
        let Entry { name, found, children: grand } = c;
        let mut sub = clone_strs(&path);
        sub.push(name);
        assert(strs(sub@) =~= pv.push(cv.name));
        match found {
            Found::Meta(MetaFile::Library(m)) => {
                let f = open_children(grand, sub, m, true);
                folders.push(f);
            },
            Found::Meta(MetaFile::Folder(m)) => {
                let f = open_children(grand, sub, m, false);
                folders.push(f);
            },
            Found::Meta(MetaFile::Note(m)) => {
                notes.push(Note { metadata: m, path: Some(sub) });
            },
            _ => {},
        }
        k = k + 1;
        assert(views(folders@) =~= found_folders(cs, pv, k as int));
        assert(views(notes@) =~= found_notes(cs, pv, k as int));
    }
    let folders = sort_by_title(folders);
    let notes = sort_by_title(notes);
    let r = Folder { metadata: meta, folders, notes, library, path: Some(path) };
    proof {
        assert(r@.folders =~= views(folders@));
        assert(r@.notes =~= views(notes@));
    }
    r
}

impl Folder {
    /// Opens the directory at `path`, given as the image `entry` of it and
    /// everything below it. The directory must hold a library or folder
    /// metadata file; below it, entries that cannot be read as a folder or a
    /// note are left out.
    pub fn open(path: Vec<String>, entry: Entry) -> (r: Result<Folder, LibError>)
        ensures
            match r {
                Ok(f) => open_spec(entry@, strs(path@)) == Ok::<FolderV, LibError>(f@),
                Err(e) => open_spec(entry@, strs(path@)) == Err::<FolderV, LibError>(e),
            },
    {
        proof {
            lemma_entry_children(entry);
        }
        let Entry { name: _, found, children } = entry;
        match found {
            Found::Meta(MetaFile::Library(m)) => Ok(open_children(children, path, m, true)),
            Found::Meta(MetaFile::Folder(m)) => Ok(open_children(children, path, m, false)),
            Found::Corrupt(MetaKind::Library) => Err(LibError::CorruptMetadata),
            Found::Corrupt(MetaKind::Folder) => Err(LibError::CorruptMetadata),
            _ => Err(LibError::Io),
        }
    }

    /// Opens the library whose root directory is `path`, given as the image
    /// `entry`. The root must hold a library metadata file.
    pub fn open_library(path: Vec<String>, entry: Entry) -> (r: Result<Folder, LibError>)
        ensures
            match r {
                Ok(f) => open_library_spec(entry@, strs(path@)) == Ok::<FolderV, LibError>(f@),
                Err(e) => open_library_spec(entry@, strs(path@)) == Err::<FolderV, LibError>(e),
            },
    {
        proof {
            lemma_entry_children(entry);
        }
        let Entry { name: _, found, children } = entry;
        match found {
            Found::Meta(MetaFile::Library(m)) => Ok(open_children(children, path, m, true)),
            Found::Corrupt(MetaKind::Library) => Err(LibError::CorruptMetadata),
            _ => Err(LibError::Io),
        }
    }
}

/// `g` with, at every level, its child folders and its notes each sorted by
/// title.
pub open spec fn normalize(g: FolderV) -> FolderV
    decreases g, 1int,
{
    FolderV {
        meta: g.meta,
        folders: sort_titled::<Folder>(normalized_children(g)),
        notes: sort_titled::<Note>(g.notes),
        library: g.library,
        path: g.path,
    }
}

/// Each child folder of `g` normalized, in their order.
pub open spec fn normalized_children(g: FolderV) -> Seq<FolderV>
    decreases g, 0int,
{
    Seq::new(
        g.folders.len(),
        |i: int|
            if 0 <= i < g.folders.len() {
                normalize(g.folders[i])
            } else {
                arbitrary()
            },
    )
}

proof fn lemma_found_folders_prefix(g: FolderV, k: int)
    requires
        placed_tree(g),
        0 <= k <= g.folders.len(),
    ensures
        found_folders(folder_image(g).children, g.path->Some_0, k) =~= Seq::new(
            k as nat,
            |i: int| normalize(g.folders[i]),
        ),
        found_notes(folder_image(g).children, g.path->Some_0, k) =~= Seq::<NoteV>::empty(),
    decreases g, 0int, k,
{
    if k > 0 {
        let path = g.path->Some_0;
        let cs = folder_image(g).children;
        lemma_found_folders_prefix(g, k - 1);
        let gi = g.folders[k - 1];
        assert(cs[k - 1] == folder_image(gi));
        assert(gi.path == Some(child_path(path, gi.meta.title)));
        assert(decreases_to!(g => g.folders));
        assert(decreases_to!(g.folders => g.folders[k - 1]));
        lemma_open_image(gi);
    }
}

proof fn lemma_found_notes_suffix(g: FolderV, k: int)
    requires
        placed_tree(g),
        g.folders.len() <= k <= g.folders.len() + g.notes.len(),
        found_notes(folder_image(g).children, g.path->Some_0, g.folders.len() as int)
            =~= Seq::<NoteV>::empty(),
    ensures
        found_folders(folder_image(g).children, g.path->Some_0, k) == found_folders(
            folder_image(g).children,
            g.path->Some_0,
            g.folders.len() as int,
        ),
        found_notes(folder_image(g).children, g.path->Some_0, k) =~= g.notes.take(k - g.folders.len()),
    decreases k,
{
    let nf = g.folders.len() as int;
    let cs = folder_image(g).children;
    if k == nf {
        assert(g.notes.take(0) =~= Seq::<NoteV>::empty());
    } else {
        lemma_found_notes_suffix(g, k - 1);
        let j = k - 1 - nf;
        assert(cs[k - 1] == note_image(g.notes[j]));
        assert(g.notes[j].path == Some(child_path(g.path->Some_0, g.notes[j].meta.title)));
        assert(g.notes.take(k - nf) =~= g.notes.take(k - 1 - nf).push(g.notes[j]));
    }
}

/// Opening the directories of a placed tree gives the tree back: the same
/// metadata, the same directories and the same descendants, with siblings
/// sorted by title at every level. Trees stay placed when `initialise`
/// places them and when children made by `new_note` and `new_folder` are
/// added, so this holds of a library at any point of its life.
pub proof fn lemma_open_image(g: FolderV)
    requires
        placed_tree(g),
    ensures
        open_spec(folder_image(g), g.path->Some_0) == Ok::<FolderV, LibError>(normalize(g)),
        g.library ==> open_library_spec(folder_image(g), g.path->Some_0) == Ok::<FolderV, LibError>(
            normalize(g),
        ),
    decreases g, 1int, 0int,
{
    let path = g.path->Some_0;
    let e = folder_image(g);
    let nf = g.folders.len() as int;
    let nn = g.notes.len() as int;
    assert(e.children.len() == nf + nn);
    lemma_found_folders_prefix(g, nf);
    lemma_found_notes_suffix(g, nf + nn);
    assert(g.notes.take(nn) =~= g.notes);
    assert(found_folders(e.children, path, nf + nn) =~= normalized_children(g));
    assert(open_dir(e.children, path, g.meta, g.library) =~= normalize(g));
}

/// Opening the directories that `initialise` writes for a folder gives back
/// the initialised folder: the same metadata, the same directories and the
/// same descendants, with siblings sorted by title at every level.
pub proof fn lemma_open_after_initialise(f: FolderV, path: PathV)
    ensures
        open_spec(folder_image(place(f, path)), path) == Ok::<FolderV, LibError>(
            normalize(place(f, path)),
        ),
{
    lemma_place_placed(f, path);
    lemma_open_image(place(f, path));
}

proof fn lemma_found_nested(cs: Seq<EntryV>, path: PathV, k: int)
    ensures
        forall|i: int|
            0 <= i < found_folders(cs, path, k).len() ==> child_of(
                (#[trigger] found_folders(cs, path, k)[i]).path,
                path,
            ) && nested(found_folders(cs, path, k)[i]),
        forall|i: int|
            0 <= i < found_notes(cs, path, k).len() ==> child_of(
                (#[trigger] found_notes(cs, path, k)[i]).path,
                path,
            ),
    decreases cs, 0int, k,
{
    if 0 < k <= cs.len() {
        lemma_found_nested(cs, path, k - 1);
        let c = cs[k - 1];
        let cp = path.push(c.name);
        assert(cp.drop_last() =~= path);
        assert(decreases_to!(cs => cs[k - 1]));
        assert(decreases_to!(cs[k - 1] => cs[k - 1].children));
        match c.found {
            FoundV::Meta(MetaFileV::Library(m)) => lemma_open_nested(c.children, cp, m, true),
            FoundV::Meta(MetaFileV::Folder(m)) => lemma_open_nested(c.children, cp, m, false),
            _ => {},
        }
    }
}

/// An opened folder has its directory, and every node below it one directly
/// inside its parent's.
pub proof fn lemma_open_nested(cs: Seq<EntryV>, path: PathV, meta: FolderMetaV, library: bool)
    ensures
        nested(open_dir(cs, path, meta, library)),
    decreases cs, 1int, 0int,
{
    broadcast use vstd::seq_lib::group_to_multiset_ensures;

    let k = cs.len() as int;
    let ff = found_folders(cs, path, k);
    let fnotes = found_notes(cs, path, k);
    lemma_found_nested(cs, path, k);
    lemma_sort_titled::<Folder>(ff);
    lemma_sort_titled::<Note>(fnotes);
    let g = open_dir(cs, path, meta, library);
    assert forall|i: int| 0 <= i < g.folders.len() implies child_of((#[trigger] g.folders[i]).path, path)
        && nested(g.folders[i]) by {
        let x = g.folders[i];
        assert(g.folders.contains(x));
        assert(ff.to_multiset().count(x) > 0);
        assert(ff.contains(x));
        let j = choose|j: int| 0 <= j < ff.len() && ff[j] == x;
        assert(child_of(ff[j].path, path) && nested(ff[j]));
    }
    assert forall|i: int| 0 <= i < g.notes.len() implies child_of(#[trigger] g.notes[i].path, path) by {
        let x = g.notes[i];
        assert(g.notes.contains(x));
        assert(fnotes.to_multiset().count(x) > 0);
        assert(fnotes.contains(x));
        let j = choose|j: int| 0 <= j < fnotes.len() && fnotes[j] == x;
        assert(child_of(fnotes[j].path, path));
    }
}

/// The entry holds a folder's metadata file (a library's counts too).
pub open spec fn holds_folder(c: EntryV) -> bool {
    c.found matches FoundV::Meta(MetaFileV::Library(_)) || c.found matches FoundV::Meta(
        MetaFileV::Folder(_),
    )
}

/// The entry holds a note's metadata file.
pub open spec fn holds_note(c: EntryV) -> bool {
    c.found matches FoundV::Meta(MetaFileV::Note(_))
}

proof fn lemma_found_folder_paths(cs: Seq<EntryV>, path: PathV, k: int)
    requires
        0 <= k <= cs.len(),
    ensures
        forall|i: int|
            0 <= i < found_folders(cs, path, k).len() ==> exists|j: int|
                0 <= j < k && holds_folder(cs[j]) && (#[trigger] found_folders(cs, path, k)[i]).path
                    == Some(path.push(cs[j].name)),
        forall|j: int|
            0 <= j < k && holds_folder(#[trigger] cs[j]) ==> exists|i: int|
                0 <= i < found_folders(cs, path, k).len() && found_folders(cs, path, k)[i].path
                    == Some(path.push(cs[j].name)),
    decreases k,
{
    if k > 0 {
        lemma_found_folder_paths(cs, path, k - 1);
        let pf = found_folders(cs, path, k - 1);
        let pn = found_notes(cs, path, k - 1);
        let ff = found_folders(cs, path, k);
        let fnn = found_notes(cs, path, k);
        let c = cs[k - 1];
        let cp = path.push(c.name);
        match c.found {
            FoundV::Meta(MetaFileV::Library(mm)) => {
                assert(ff == pf.push(open_dir(c.children, cp, mm, true)));
                assert(open_dir(c.children, cp, mm, true).path == Some(cp));
            },
            FoundV::Meta(MetaFileV::Folder(mm)) => {
                assert(ff == pf.push(open_dir(c.children, cp, mm, false)));
                assert(open_dir(c.children, cp, mm, false).path == Some(cp));
            },
            _ => {
                assert(ff == pf);
            },
        }
        assert forall|i: int| 0 <= i < ff.len() implies exists|j: int|
            0 <= j < k && holds_folder(cs[j]) && (#[trigger] ff[i]).path == Some(path.push(cs[j].name)) by {
            if i < pf.len() {
                assert(ff[i] == pf[i]);
                let j = choose|j: int|
                    0 <= j < k - 1 && holds_folder(cs[j]) && pf[i].path == Some(path.push(cs[j].name));
                assert(0 <= j < k && holds_folder(cs[j]) && ff[i].path == Some(path.push(cs[j].name)));
            } else {
                assert(holds_folder(cs[k - 1]) && ff[i].path == Some(path.push(cs[k - 1].name)));
            }
        }
        assert forall|j: int| 0 <= j < k && holds_folder(#[trigger] cs[j]) implies exists|i: int|
            0 <= i < ff.len() && ff[i].path == Some(path.push(cs[j].name)) by {
            if j < k - 1 {
                let i = choose|i: int| 0 <= i < pf.len() && pf[i].path == Some(path.push(cs[j].name));
                assert(ff[i] == pf[i]);
            } else {
                assert(ff[pf.len() as int].path == Some(path.push(cs[j].name)));
            }
        }
    }
}

proof fn lemma_found_note_paths(cs: Seq<EntryV>, path: PathV, k: int)
    requires
        0 <= k <= cs.len(),
    ensures
        forall|i: int|
            0 <= i < found_notes(cs, path, k).len() ==> exists|j: int|
                0 <= j < k && holds_note(cs[j]) && (#[trigger] found_notes(cs, path, k)[i]).path
                    == Some(path.push(cs[j].name)),
        forall|j: int|
            0 <= j < k && holds_note(#[trigger] cs[j]) ==> exists|i: int|
                0 <= i < found_notes(cs, path, k).len() && found_notes(cs, path, k)[i].path
                    == Some(path.push(cs[j].name)),
    decreases k,
{
    if k > 0 {
        lemma_found_note_paths(cs, path, k - 1);
        let pf = found_folders(cs, path, k - 1);
        let pn = found_notes(cs, path, k - 1);
        let ff = found_folders(cs, path, k);
        let fnn = found_notes(cs, path, k);
        let c = cs[k - 1];
        assert forall|i: int| 0 <= i < fnn.len() implies exists|j: int|
            0 <= j < k && holds_note(cs[j]) && (#[trigger] fnn[i]).path == Some(path.push(cs[j].name)) by {
            if i < pn.len() {
                assert(fnn[i] == pn[i]);
                let j = choose|j: int|
                    0 <= j < k - 1 && holds_note(cs[j]) && pn[i].path == Some(path.push(cs[j].name));
                assert(0 <= j < k && holds_note(cs[j]) && fnn[i].path == Some(path.push(cs[j].name)));
            } else {
                assert(holds_note(cs[k - 1]) && fnn[i].path == Some(path.push(cs[k - 1].name)));
            }
        }
        assert forall|j: int| 0 <= j < k && holds_note(#[trigger] cs[j]) implies exists|i: int|
            0 <= i < fnn.len() && fnn[i].path == Some(path.push(cs[j].name)) by {
            if j < k - 1 {
                let i = choose|i: int| 0 <= i < pn.len() && pn[i].path == Some(path.push(cs[j].name));
                assert(fnn[i] == pn[i]);
            } else {
                assert(fnn[pn.len() as int].path == Some(path.push(cs[j].name)));
            }
        }
    }
}

/// Opening a library whose own metadata file decodes succeeds. A child whose
/// metadata file is corrupt, unreadable or missing is left out; every child
/// that holds a folder or a note is there, at its directory.
#[verifier::rlimit(80)]
pub proof fn lemma_open_skips_bad_child(e: EntryV, path: PathV, k: int)
    requires
        e.found matches FoundV::Meta(MetaFileV::Library(_)),
        0 <= k < e.children.len(),
        !(e.children[k].found is Meta),
        forall|i: int, j: int|
            0 <= i < j < e.children.len() ==> (#[trigger] e.children[i]).name != (
            #[trigger] e.children[j]).name,
    ensures
        open_library_spec(e, path) is Ok,
        forall|i: int|
            0 <= i < open_library_spec(e, path)->Ok_0.folders.len() ==> (
            #[trigger] open_library_spec(e, path)->Ok_0.folders[i]).path != Some(
                path.push(e.children[k].name),
            ),
        forall|i: int|
            0 <= i < open_library_spec(e, path)->Ok_0.notes.len() ==> (
            #[trigger] open_library_spec(e, path)->Ok_0.notes[i]).path != Some(
                path.push(e.children[k].name),
            ),
        forall|j: int|
            0 <= j < e.children.len() && holds_folder(#[trigger] e.children[j]) ==> exists|i: int|
                0 <= i < open_library_spec(e, path)->Ok_0.folders.len()
                    && open_library_spec(e, path)->Ok_0.folders[i].path == Some(
                    path.push(e.children[j].name),
                ),
        forall|j: int|
            0 <= j < e.children.len() && holds_note(#[trigger] e.children[j]) ==> exists|i: int|
                0 <= i < open_library_spec(e, path)->Ok_0.notes.len()
                    && open_library_spec(e, path)->Ok_0.notes[i].path == Some(
                    path.push(e.children[j].name),
                ),
{
    broadcast use vstd::seq_lib::group_to_multiset_ensures;

    let cs = e.children;
    let n = cs.len() as int;
    let m = e.found->Meta_0->Library_0;
    let g = open_library_spec(e, path)->Ok_0;
    assert(g == open_dir(cs, path, m, true));
    let ff = found_folders(cs, path, n);
    let fnn = found_notes(cs, path, n);
    lemma_found_folder_paths(cs, path, n);
    lemma_found_note_paths(cs, path, n);
    lemma_sort_titled::<Folder>(ff);
    lemma_sort_titled::<Note>(fnn);
    let bad = path.push(cs[k].name);
    assert forall|i: int| 0 <= i < g.folders.len() implies (#[trigger] g.folders[i]).path != Some(bad) by {
        let x = g.folders[i];
        assert(g.folders.contains(x));
        assert(ff.to_multiset().count(x) > 0);
        assert(ff.contains(x));
        let t = choose|t: int| 0 <= t < ff.len() && ff[t] == x;
        let j = choose|j: int| 0 <= j < n && holds_folder(cs[j]) && ff[t].path == Some(path.push(cs[j].name));
        if j != k {
            assert(cs[j].name != cs[k].name);
            assert(path.push(cs[j].name)[path.len() as int] == cs[j].name);
            assert(bad[path.len() as int] == cs[k].name);
        }
    }
    assert forall|i: int| 0 <= i < g.notes.len() implies (#[trigger] g.notes[i]).path != Some(bad) by {
        let x = g.notes[i];
        assert(g.notes.contains(x));
        assert(fnn.to_multiset().count(x) > 0);
        assert(fnn.contains(x));
        let t = choose|t: int| 0 <= t < fnn.len() && fnn[t] == x;
        let j = choose|j: int| 0 <= j < n && holds_note(cs[j]) && fnn[t].path == Some(path.push(cs[j].name));
        if j != k {
            assert(cs[j].name != cs[k].name);
            assert(path.push(cs[j].name)[path.len() as int] == cs[j].name);
            assert(bad[path.len() as int] == cs[k].name);
        }
    }
    assert forall|j: int| 0 <= j < n && holds_folder(#[trigger] cs[j]) implies exists|i: int|
        0 <= i < g.folders.len() && g.folders[i].path == Some(path.push(cs[j].name)) by {
        let t = choose|t: int| 0 <= t < ff.len() && ff[t].path == Some(path.push(cs[j].name));
        let x = ff[t];
        assert(ff.contains(x));
        assert(g.folders.to_multiset().count(x) > 0);
        assert(g.folders.contains(x));
    }
    assert forall|j: int| 0 <= j < n && holds_note(#[trigger] cs[j]) implies exists|i: int|
        0 <= i < g.notes.len() && g.notes[i].path == Some(path.push(cs[j].name)) by {
        let t = choose|t: int| 0 <= t < fnn.len() && fnn[t].path == Some(path.push(cs[j].name));
        let x = fnn[t];
        assert(fnn.contains(x));
        assert(g.notes.to_multiset().count(x) > 0);
        assert(g.notes.contains(x));
    }
}

} // verus!
