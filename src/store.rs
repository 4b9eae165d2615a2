//! How the tree lies on disk: the directory image of a folder and the
//! writes that create it.
use vstd::prelude::*;
use crate::naming::{slug, slug_of};
use crate::tree::{child_of, nested, folder_v, strs, Folder, FolderMeta, FolderMetaV, FolderV, Note, NoteMeta, NoteMetaV, NoteV, PathV};

verus! {

/// Which metadata file a directory holds.
#[derive(Debug, Clone, Copy, PartialEq, Eq, Structural)]
pub enum MetaKind {
    Library,
    Folder,
    Note,
}

/// The contents of a metadata file.
#[derive(Debug, PartialEq, Eq)]
pub enum MetaFile {
    Library(FolderMeta),
    Folder(FolderMeta),
    Note(NoteMeta),
}

/// What a directory was found to hold: its metadata file of highest
/// priority (library, then folder, then note), decoded.
#[derive(Debug, PartialEq, Eq)]
pub enum Found {
    Missing,
    Unreadable(MetaKind),
    Corrupt(MetaKind),
    Meta(MetaFile),
}

/// A directory with its metadata and its subdirectories.
#[derive(Debug, PartialEq, Eq)]
pub struct Entry {
    pub name: String,
    pub found: Found,
    pub children: Vec<Entry>,
}

/// One write on disk.
#[derive(Debug, PartialEq, Eq)]
pub enum FsOp {
    /// Create a directory; it must not exist yet.
    CreateDir(Vec<String>),
    /// Write the metadata file of a directory.
    WriteMeta(Vec<String>, MetaFile),
    /// Create the empty content file of a note directory, unless it exists.
    TouchContent(Vec<String>),
}

/// Errors of the library.
#[derive(Debug, Clone, Copy, PartialEq, Eq, Structural)]
pub enum LibError {
    /// A directory or file could not be created or read.
    Io,
    /// A metadata file could not be decoded.
    CorruptMetadata,
    /// The directory of a new node exists already.
    SiblingCollision,
    /// The folder has no directory yet, so nothing can be added below it.
    NotPersisted,
}

pub enum MetaFileV {
    Library(FolderMetaV),
    Folder(FolderMetaV),
    Note(NoteMetaV),
}

pub enum FoundV {
    Missing,
    Unreadable(MetaKind),
    Corrupt(MetaKind),
    Meta(MetaFileV),
}

pub struct EntryV {
    pub name: Seq<char>,
    pub found: FoundV,
    pub children: Seq<EntryV>,
}

pub enum OpV {
    CreateDir(PathV),
    WriteMeta(PathV, MetaFileV),
    TouchContent(PathV),
}

impl View for MetaFile {
    type V = MetaFileV;

    open spec fn view(&self) -> MetaFileV {
        match self {
            MetaFile::Library(m) => MetaFileV::Library(m@),
            MetaFile::Folder(m) => MetaFileV::Folder(m@),
            MetaFile::Note(m) => MetaFileV::Note(m@),
        }
    }
}

impl View for Found {
    type V = FoundV;

    open spec fn view(&self) -> FoundV {
        match self {
            Found::Missing => FoundV::Missing,
            Found::Unreadable(k) => FoundV::Unreadable(*k),
            Found::Corrupt(k) => FoundV::Corrupt(*k),
            Found::Meta(m) => FoundV::Meta(m@),
        }
    }
}

pub open spec fn entry_v(e: Entry) -> EntryV
    decreases e,
{
    EntryV {
        name: e.name@,
        found: e.found@,
        children: Seq::new(
            e.children@.len(),
            |i: int|
                if 0 <= i < e.children@.len() {
                    entry_v(e.children@[i])
                } else {
                    arbitrary()
                },
        ),
    }
}

impl View for Entry {
    type V = EntryV;

    open spec fn view(&self) -> EntryV {
        entry_v(*self)
    }
}

impl View for FsOp {
    type V = OpV;

    open spec fn view(&self) -> OpV {
        match self {
            FsOp::CreateDir(p) => OpV::CreateDir(strs(p@)),
            FsOp::WriteMeta(p, m) => OpV::WriteMeta(strs(p@), m@),
            FsOp::TouchContent(p) => OpV::TouchContent(strs(p@)),
        }
    }
}

pub open spec fn ops_v(v: Seq<FsOp>) -> Seq<OpV> {
    v.map_values(|o: FsOp| o@)
}

/// The directory of a child titled `title` under `dir`.
pub open spec fn child_path(dir: PathV, title: Seq<char>) -> PathV {
    dir.push(slug_of(title))
}

/// A note given its directory under `dir`.
pub open spec fn place_note(n: NoteV, dir: PathV) -> NoteV {
    NoteV { meta: n.meta, path: Some(child_path(dir, n.meta.title)) }
}

/// A folder given the directory `path`, and each node below it the
/// directory named after its title inside its parent's.
pub open spec fn place(f: FolderV, path: PathV) -> FolderV
    decreases f,
{
    FolderV {
        meta: f.meta,
        folders: Seq::new(
            f.folders.len(),
            |i: int|
                if 0 <= i < f.folders.len() {
                    place(f.folders[i], child_path(path, f.folders[i].meta.title))
                } else {
                    arbitrary()
                },
        ),
        notes: f.notes.map_values(|n: NoteV| place_note(n, path)),
        library: f.library,
        path: Some(path),
    }
}

pub open spec fn folder_file(f: FolderV) -> MetaFileV {
    if f.library {
        MetaFileV::Library(f.meta)
    } else {
        MetaFileV::Folder(f.meta)
    }
}

pub open spec fn note_image(n: NoteV) -> EntryV {
    EntryV {
        name: slug_of(n.meta.title),
        found: FoundV::Meta(MetaFileV::Note(n.meta)),
        children: Seq::empty(),
    }
}

/// What a folder leaves on disk: its directory with its metadata file, the
/// directories of its child folders, then those of its notes.
pub open spec fn folder_image(f: FolderV) -> EntryV
    decreases f,
{
    EntryV {
        name: slug_of(f.meta.title),
        found: FoundV::Meta(folder_file(f)),
        children: Seq::new(
            f.folders.len(),
            |i: int|
                if 0 <= i < f.folders.len() {
                    folder_image(f.folders[i])
                } else {
                    arbitrary()
                },
        ) + f.notes.map_values(|n: NoteV| note_image(n)),
    }
}

/// The pieces laid end to end, left to right.
pub open spec fn flat(s: Seq<Seq<OpV>>) -> Seq<OpV>
    decreases s.len(),
{
    if s.len() == 0 {
        Seq::empty()
    } else {
        flat(s.drop_last()) + s.last()
    }
}

/// The writes for a directory itself.
pub open spec fn head_ops(e: EntryV, path: PathV) -> Seq<OpV> {
    match e.found {
        FoundV::Meta(MetaFileV::Note(m)) => seq![
            OpV::CreateDir(path),
            OpV::WriteMeta(path, MetaFileV::Note(m)),
            OpV::TouchContent(path),
        ],
        FoundV::Meta(m) => seq![OpV::CreateDir(path), OpV::WriteMeta(path, m)],
        _ => seq![OpV::CreateDir(path)],
    }
}

/// The writes that create the image `e` at `path`: the directory first, then
/// each child's writes in turn.
pub open spec fn ops_at(e: EntryV, path: PathV) -> Seq<OpV>
    decreases e, 1int,
{
    head_ops(e, path) + flat(child_ops(e, path))
}

/// The writes of each child of `e`, one piece per child.
pub open spec fn child_ops(e: EntryV, path: PathV) -> Seq<Seq<OpV>>
    decreases e, 0int,
{
    Seq::new(
        e.children.len(),
        |i: int|
            if 0 <= i < e.children.len() {
                ops_at(e.children[i], path.push(e.children[i].name))
            } else {
                arbitrary()
            },
    )
}

/// A copy of a list of strings.
pub(crate) fn clone_strs(v: &Vec<String>) -> (r: Vec<String>)
    ensures
        strs(r@) == strs(v@),
{
    let mut r: Vec<String> = Vec::new();
    let mut i: usize = 0;
    while i < v.len()
        invariant
            i <= v@.len(),
            r@.len() == i,
            strs(r@) =~= strs(v@.take(i as int)),
        decreases v@.len() - i,
    {
        let c = v[i].clone();
        assert(c == v@[i as int]);
        let ghost before = r@;
        r.push(c);
        assert(r@ == before.push(c));
        proof {
            let t = v@.take(i as int + 1);
            assert forall|j: int| 0 <= j < i + 1 implies strs(r@)[j] == strs(t)[j] by {
                if j < i {
                    assert(strs(before)[j] == strs(v@.take(i as int))[j]);
                }
            }
        }
        i = i + 1;
        assert(strs(r@) =~= strs(v@.take(i as int)));
    }
    assert(v@.take(v@.len() as int) =~= v@);
    r
}

pub(crate) fn clone_folder_meta(m: &FolderMeta) -> (r: FolderMeta)
    ensures
        r@ == m@,
{
    FolderMeta { title: m.title.clone(), tags: clone_strs(&m.tags) }
}

pub(crate) fn clone_note_meta(m: &NoteMeta) -> (r: NoteMeta)
    ensures
        r@ == m@,
{
    NoteMeta {
        title: m.title.clone(),
        tags: clone_strs(&m.tags),
        author: m.author.clone(),
        date: m.date,
    }
}

/// `dir` with one more component, the directory name for `title`.
pub(crate) fn child_dir(dir: &Vec<String>, title: &String) -> (r: Vec<String>)
    ensures
        strs(r@) == child_path(strs(dir@), title@),
{
    let mut r = clone_strs(dir);
    let s = slug(title.as_str());
    r.push(s);
    assert(strs(r@) =~= child_path(strs(dir@), title@));
    r
}

pub(crate) proof fn lemma_flat_take(s: Seq<Seq<OpV>>, i: int)
    requires
        0 <= i < s.len(),
    ensures
        flat(s.take(i + 1)) == flat(s.take(i)) + s[i],
{
    assert(s.take(i + 1).drop_last() =~= s.take(i));
}

proof fn lemma_flat_append(a: Seq<Seq<OpV>>, b: Seq<Seq<OpV>>)
    ensures
        flat(a + b) == flat(a) + flat(b),
    decreases b.len(),
{
    if b.len() == 0 {
        assert(a + b =~= a);
        assert(flat(a) + flat(b) =~= flat(a));
    } else {
        assert((a + b).drop_last() =~= a + b.drop_last());
        lemma_flat_append(a, b.drop_last());
        assert(flat(a + b) =~= flat(a) + flat(b));
    }
}

/// The writes of each child folder of the placed folder `g` at `pv`.
pub open spec fn folder_parts(g: FolderV, pv: PathV) -> Seq<Seq<OpV>> {
    Seq::new(
        g.folders.len(),
        |j: int| ops_at(folder_image(g.folders[j]), pv.push(slug_of(g.folders[j].meta.title))),
    )
}

/// The writes of each note of `ns`, placed under `pv`.
pub open spec fn note_parts(ns: Seq<NoteV>, pv: PathV) -> Seq<Seq<OpV>> {
    Seq::new(ns.len(), |j: int| ops_at(note_image(ns[j]), child_path(pv, ns[j].meta.title)))
}

proof fn lemma_image_ops(g: FolderV, pv: PathV)
    ensures
        ops_at(folder_image(g), pv) == head_ops(folder_image(g), pv) + flat(folder_parts(g, pv))
            + flat(note_parts(g.notes, pv)),
{
    let t = folder_image(g);
    let inner = child_ops(t, pv);
    assert(inner =~= folder_parts(g, pv) + note_parts(g.notes, pv));
    assert(ops_at(t, pv) == head_ops(t, pv) + flat(inner));
    lemma_flat_append(folder_parts(g, pv), note_parts(g.notes, pv));
    assert(head_ops(t, pv) + flat(inner) =~= head_ops(t, pv) + flat(folder_parts(g, pv)) + flat(
        note_parts(g.notes, pv),
    ));
}

impl Note {
    /// Appends the writes that create this note under `dir`.
    pub(crate) fn write_ops(&self, dir: &Vec<String>, ops: &mut Vec<FsOp>)
        ensures
            ops_v(final(ops)@) == ops_v(old(ops)@) + ops_at(
                note_image(self@),
                child_path(strs(dir@), self@.meta.title),
            ),
    {
        let ghost old_ops = ops_v(ops@);
        let ghost nv = self@;
        let path = child_dir(dir, &self.metadata.title);
        ops.push(FsOp::CreateDir(clone_strs(&path)));
        ops.push(FsOp::WriteMeta(clone_strs(&path), MetaFile::Note(clone_note_meta(&self.metadata))));
        ops.push(FsOp::TouchContent(path));
        let ghost pv = child_path(strs(dir@), nv.meta.title);
        assert(child_ops(note_image(nv), pv) =~= Seq::<Seq<OpV>>::empty());
        assert(ops_v(ops@) =~= old_ops + ops_at(note_image(nv), pv));
    }

    /// Gives the note its directory under `dir`.
    pub(crate) fn place(self, dir: &Vec<String>) -> (r: Note)
        ensures
            r@ == place_note(self@, strs(dir@)),
    {
        let path = child_dir(dir, &self.metadata.title);
        Note { metadata: self.metadata, path: Some(path) }
    }
}

/// Gives each note its directory under `dir`.
fn place_notes(notes: Vec<Note>, dir: &Vec<String>) -> (r: Vec<Note>)
    ensures
        r@.len() == notes@.len(),
        forall|j: int|
            0 <= j < notes@.len() ==> #[trigger] r@[j]@ == place_note(notes@[j]@, strs(dir@)),
{
    let ghost pv = strs(dir@);
    let ghost orig = notes@;
    let nn = notes.len();
    let mut rest = notes;
    let mut done: Vec<Note> = Vec::new();
    let mut k: usize = 0;
    while k < nn
        invariant
            nn == orig.len(),
            k <= nn,
            rest@ == orig.subrange(k as int, nn as int),
            done@.len() == k,
            forall|j: int| 0 <= j < k ==> #[trigger] done@[j]@ == place_note(orig[j]@, pv),
            pv == strs(dir@),
        decreases nn - k,
    {
        let note = rest.remove(0);
        assert(note == orig[k as int]);
        let placed = note.place(dir);
        done.push(placed);
        k = k + 1;
    }
    done
}

proof fn lemma_folder_v_children(f: Folder)
    ensures
        f@.folders.len() == f.folders@.len(),
        forall|i: int| 0 <= i < f.folders@.len() ==> #[trigger] f@.folders[i] == f.folders@[i]@,
        f@.notes.len() == f.notes@.len(),
        forall|i: int| 0 <= i < f.notes@.len() ==> #[trigger] f@.notes[i] == f.notes@[i]@,
{
}

impl Folder {
    /// Appends the writes that create this folder at `path` and everything
    /// below it, each node in the directory named after its title inside its
    /// parent's: each directory before what lies in it, child folders before
    /// notes.
    fn write_ops(&self, path: &Vec<String>, ops: &mut Vec<FsOp>)
        ensures
            ops_v(final(ops)@) == ops_v(old(ops)@) + ops_at(
                folder_image(place(self@, strs(path@))),
                strs(path@),
            ),
        decreases self,
    {
        let ghost sv = self@;
        let ghost pv = strs(path@);
        let ghost goal = place(sv, pv);
        let ghost target = folder_image(goal);
        let ghost parts = folder_parts(goal, pv);
        let ghost nparts = note_parts(goal.notes, pv);
        proof {
            lemma_folder_v_children(*self);
        }
        let file = if self.library {
            MetaFile::Library(clone_folder_meta(&self.metadata))
        } else {
            MetaFile::Folder(clone_folder_meta(&self.metadata))
        };
        ops.push(FsOp::CreateDir(clone_strs(path)));
        ops.push(FsOp::WriteMeta(clone_strs(path), file));
        let ghost base = ops_v(ops@);
        assert(base =~= ops_v(old(ops)@) + head_ops(target, pv));
        let nf = self.folders.len();
        let mut i: usize = 0;
        while i < nf
            invariant
                nf == self.folders@.len(),
                nf == sv.folders.len(),
                sv == self@,
                forall|j: int| 0 <= j < nf ==> #[trigger] sv.folders[j] == self.folders@[j]@,
                i <= nf,
                goal == place(sv, pv),
                parts == folder_parts(goal, pv),
                ops_v(ops@) == base + flat(parts.take(i as int)),
                pv == strs(path@),
            decreases nf - i,
        {
            let child = &self.folders[i];
            proof {
                assert(decreases_to!(self => self.folders));
                assert(decreases_to!(self.folders => self.folders@[i as int]));
            }
            let cp = child_dir(path, &child.metadata.title);
            child.write_ops(&cp, ops);
            proof {
                assert(goal.folders[i as int] == place(sv.folders[i as int], child_path(pv, sv.folders[i as int].meta.title)));
                lemma_flat_take(parts, i as int);
            }
            i = i + 1;
            assert(ops_v(ops@) =~= base + flat(parts.take(i as int)));
        }
        assert(parts.take(nf as int) =~= parts);
        let ghost mid = ops_v(ops@);
        let nn = self.notes.len();
        let mut k: usize = 0;
        while k < nn
            invariant
                nn == self.notes@.len(),
                nn == sv.notes.len(),
                sv == self@,
                forall|j: int| 0 <= j < nn ==> #[trigger] sv.notes[j] == self.notes@[j]@,
                k <= nn,
                goal == place(sv, pv),
                nparts == note_parts(goal.notes, pv),
                ops_v(ops@) == mid + flat(nparts.take(k as int)),
                pv == strs(path@),
            decreases nn - k,
        {
            self.notes[k].write_ops(path, ops);
            proof {
                assert(goal.notes[k as int] == place_note(sv.notes[k as int], pv));
                assert(note_image(goal.notes[k as int]) == note_image(sv.notes[k as int]));
                lemma_flat_take(nparts, k as int);
            }
            k = k + 1;
            assert(ops_v(ops@) =~= mid + flat(nparts.take(k as int)));
        }
        proof {
            assert(nparts.take(nn as int) =~= nparts);
            lemma_image_ops(goal, pv);
            assert(ops_v(ops@) =~= ops_v(old(ops)@) + ops_at(target, pv));
        }
    }

    /// Gives the folder the directory `path`, and each node below it the
    /// directory named after its title inside its parent's.
    fn place(self, path: Vec<String>) -> (r: Folder)
        ensures
            r@ == place(self@, strs(path@)),
        decreases folder_v(self),
    {
        let ghost me = self;
        let ghost sv = self@;
        let ghost pv = strs(path@);
        let ghost goal = place(sv, pv);
        proof {
            lemma_folder_v_children(self);
        }
        let Folder { metadata, folders, notes, library, path: _ } = self;
        let ghost orig_folders = folders@;
        let nf = folders.len();
        let mut rest = folders;
        let mut done: Vec<Folder> = Vec::new();
        let mut i: usize = 0;
        while i < nf
            invariant
                nf == orig_folders.len(),
                nf == sv.folders.len(),
                sv == folder_v(self),
                orig_folders == me.folders@,
                forall|j: int| 0 <= j < nf ==> #[trigger] sv.folders[j] == orig_folders[j]@,
                i <= nf,
                rest@ == orig_folders.subrange(i as int, nf as int),
                done@.len() == i,
                forall|j: int|
                    0 <= j < i ==> #[trigger] done@[j]@ == place(
                        sv.folders[j],
                        child_path(pv, sv.folders[j].meta.title),
                    ),
                pv == strs(path@),
            decreases nf - i,
        {
            let child = rest.remove(0);
            assert(child == orig_folders[i as int]);
            proof {
                assert(child@ == sv.folders[i as int]);
                assert(decreases_to!(sv => sv.folders));
                assert(decreases_to!(sv.folders => sv.folders[i as int]));
                assert(decreases_to!(sv => child@));
            }
            let cp = child_dir(&path, &child.metadata.title);
            let placed = child.place(cp);
            done.push(placed);
            i = i + 1;
        }
        let done_notes = place_notes(notes, &path);
        let r = Folder { metadata, folders: done, notes: done_notes, library, path: Some(path) };
        proof {
            lemma_folder_v_children(r);
            assert(r@.folders =~= goal.folders);
            assert(r@.notes =~= goal.notes);
        }
        r
    }

    /// The writes that create this folder at `path` and every node below it
    /// in the directory named after its title inside its parent's, in order:
    /// each directory before what lies in it, child folders before notes.
    /// The folder itself is left as it is until `initialise` learns that the
    /// writes succeeded.
    pub fn initialise_writes(&self, path: &Vec<String>) -> (ops: Vec<FsOp>)
        ensures
            ops_v(ops@) == ops_at(folder_image(place(self@, strs(path@))), strs(path@)),
    {
        let mut ops: Vec<FsOp> = Vec::new();
        self.write_ops(path, &mut ops);
        assert(ops_v(ops@) =~= ops_at(folder_image(place(self@, strs(path@))), strs(path@)));
        ops
    }

    /// Records the outcome `written` of the writes from `initialise_writes`
    /// for `path`: where they all succeeded, the folder gets the directory
    /// `path` and every node below it the directory named after its title
    /// inside its parent's; where one failed, the folder stays as it was and
    /// the error is returned.
    pub fn initialise(&mut self, path: Vec<String>, written: Result<(), LibError>) -> (r: Result<(), LibError>)
        ensures
            r == written,
            final(self)@ == after_initialise(old(self)@, strs(path@), written),
    {
        match written {
            Ok(_) => {
                let mut taken = Folder::new(String::new(), Vec::new());
                std::mem::swap(self, &mut taken);
                let placed = taken.place(path);
                *self = placed;
                written
            },
            Err(_) => written,
        }
    }
}

/// The folder `f` after `initialise` at `path` with outcome `written`.
pub open spec fn after_initialise(f: FolderV, path: PathV, written: Result<(), LibError>) -> FolderV {
    if written is Ok {
        place(f, path)
    } else {
        f
    }
}

/// The name of the metadata file of each kind of directory.
pub open spec fn meta_file_name(k: MetaKind) -> Seq<char> {
    match k {
        MetaKind::Library => seq!['l', 'i', 'b', 'r', 'a', 'r', 'y', '.', 't', 'o', 'm', 'l'],
        MetaKind::Folder => seq!['f', 'o', 'l', 'd', 'e', 'r', '.', 't', 'o', 'm', 'l'],
        MetaKind::Note => seq!['n', 'o', 't', 'e', '.', 't', 'o', 'm', 'l'],
    }
}

/// The name of a note's content file.
pub open spec fn content_file_name() -> Seq<char> {
    seq!['n', 'o', 't', 'e', '.', 'm', 'd']
}

impl MetaKind {
    /// The name of this kind's metadata file.
    pub fn file_name(&self) -> (r: String)
        ensures
            r@ == meta_file_name(*self),
    {
        match self {
            MetaKind::Library => {
                proof {
                    reveal_strlit("library.toml");
                }
                let r = String::from_str("library.toml");
                assert(r@ =~= meta_file_name(*self));
                r
            },
            MetaKind::Folder => {
                proof {
                    reveal_strlit("folder.toml");
                }
                let r = String::from_str("folder.toml");
                assert(r@ =~= meta_file_name(*self));
                r
            },
            MetaKind::Note => {
                proof {
                    reveal_strlit("note.toml");
                }
                let r = String::from_str("note.toml");
                assert(r@ =~= meta_file_name(*self));
                r
            },
        }
    }
}

impl MetaFile {
    /// Which kind of metadata file this is.
    pub fn kind(&self) -> (r: MetaKind)
        ensures
            r == match self@ {
                MetaFileV::Library(_) => MetaKind::Library,
                MetaFileV::Folder(_) => MetaKind::Folder,
                MetaFileV::Note(_) => MetaKind::Note,
            },
    {
        match self {
            MetaFile::Library(_) => MetaKind::Library,
            MetaFile::Folder(_) => MetaKind::Folder,
            MetaFile::Note(_) => MetaKind::Note,
        }
    }
}

/// The name of a note's content file.
pub fn content_file() -> (r: String)
    ensures
        r@ == content_file_name(),
{
    proof {
        reveal_strlit("note.md");
    }
    let r = String::from_str("note.md");
    assert(r@ =~= content_file_name());
    r
}

impl Note {
    /// The path of the note's content file, once the note has a directory.
    pub fn content_path(&self) -> (r: Option<Vec<String>>)
        ensures
            match self@.path {
                Some(p) => r is Some && strs(r->Some_0@) == p.push(content_file_name()),
                None => r is None,
            },
    {
        match &self.path {
            Some(p) => {
                let mut c = clone_strs(p);
                c.push(content_file());
                assert(strs(c@) =~= strs(p@).push(content_file_name()));
                Some(c)
            },
            None => None,
        }
    }
}

/// A placed folder has its directory, and every node below it one directly
/// inside its parent's.
pub proof fn lemma_place_nested(f: FolderV, path: PathV)
    ensures
        nested(place(f, path)),
    decreases f,
{
    let g = place(f, path);
    assert forall|i: int| 0 <= i < g.notes.len() implies child_of(#[trigger] g.notes[i].path, path) by {
        assert(child_path(path, f.notes[i].meta.title).drop_last() =~= path);
    }
    assert forall|i: int| 0 <= i < g.folders.len() implies child_of((#[trigger] g.folders[i]).path, path)
        && nested(g.folders[i]) by {
        let cp = child_path(path, f.folders[i].meta.title);
        assert(cp.drop_last() =~= path);
        assert(decreases_to!(f => f.folders));
        assert(decreases_to!(f.folders => f.folders[i]));
        lemma_place_nested(f.folders[i], cp);
    }
}

/// What looking for one metadata file in a directory gave.
#[derive(Debug, PartialEq, Eq)]
pub enum Probe {
    /// No such file.
    Absent,
    /// The file is there but could not be read.
    Unreadable,
    /// The file was read but does not decode.
    Corrupt,
    /// The file decoded to this.
    Decoded(MetaFile),
}

pub enum ProbeV {
    Absent,
    Unreadable,
    Corrupt,
    Decoded(MetaFileV),
}

impl View for Probe {
    type V = ProbeV;

    open spec fn view(&self) -> ProbeV {
        match self {
            Probe::Absent => ProbeV::Absent,
            Probe::Unreadable => ProbeV::Unreadable,
            Probe::Corrupt => ProbeV::Corrupt,
            Probe::Decoded(m) => ProbeV::Decoded(m@),
        }
    }
}

/// What the metadata file of kind `k` tells of its directory, if present.
pub open spec fn probe_found(k: MetaKind, p: ProbeV) -> Option<FoundV> {
    match p {
        ProbeV::Absent => None,
        ProbeV::Unreadable => Some(FoundV::Unreadable(k)),
        ProbeV::Corrupt => Some(FoundV::Corrupt(k)),
        ProbeV::Decoded(m) => Some(FoundV::Meta(m)),
    }
}

/// A directory classified by its metadata files: the library file, else
/// the folder file, else the note file decides; with none it is missing.
pub open spec fn classify_spec(library: ProbeV, folder: ProbeV, note: ProbeV) -> FoundV {
    match probe_found(MetaKind::Library, library) {
        Some(f) => f,
        None => match probe_found(MetaKind::Folder, folder) {
            Some(f) => f,
            None => match probe_found(MetaKind::Note, note) {
                Some(f) => f,
                None => FoundV::Missing,
            },
        },
    }
}

fn probe_to_found(k: MetaKind, p: Probe) -> (r: Option<Found>)
    ensures
        match r {
            Some(f) => probe_found(k, p@) == Some(f@),
            None => probe_found(k, p@) is None,
        },
{
    match p {
        Probe::Absent => None,
        Probe::Unreadable => Some(Found::Unreadable(k)),
        Probe::Corrupt => Some(Found::Corrupt(k)),
        Probe::Decoded(m) => Some(Found::Meta(m)),
    }
}

/// Classifies a directory by what was found of its library, folder and note
/// metadata files: the first present of these, in this order, decides.
pub fn classify(library: Probe, folder: Probe, note: Probe) -> (r: Found)
    ensures
        r@ == classify_spec(library@, folder@, note@),
{
    match probe_to_found(MetaKind::Library, library) {
        Some(f) => f,
        None => match probe_to_found(MetaKind::Folder, folder) {
            Some(f) => f,
            None => match probe_to_found(MetaKind::Note, note) {
                Some(f) => f,
                None => Found::Missing,
            },
        },
    }
}

/// `g` has a directory, and every node below it the directory named after
/// its title inside its parent's.
pub open spec fn placed_tree(g: FolderV) -> bool
    decreases g,
{
    &&& g.path is Some
    &&& forall|i: int|
        0 <= i < g.notes.len() ==> (#[trigger] g.notes[i]).path == Some(
            child_path(g.path->Some_0, g.notes[i].meta.title),
        )
    &&& forall|i: int|
        0 <= i < g.folders.len() ==> (#[trigger] g.folders[i]).path == Some(
            child_path(g.path->Some_0, g.folders[i].meta.title),
        ) && placed_tree(g.folders[i])
}

/// What `initialise` places is a placed tree.
pub proof fn lemma_place_placed(f: FolderV, path: PathV)
    ensures
        placed_tree(place(f, path)),
    decreases f,
{
    let g = place(f, path);
    assert forall|i: int| 0 <= i < g.folders.len() implies (#[trigger] g.folders[i]).path == Some(
        child_path(path, g.folders[i].meta.title),
    ) && placed_tree(g.folders[i]) by {
        assert(decreases_to!(f => f.folders));
        assert(decreases_to!(f.folders => f.folders[i]));
        lemma_place_placed(f.folders[i], child_path(path, f.folders[i].meta.title));
    }
}

} // verus!
