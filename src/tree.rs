//! Folders and notes held in memory.
use vstd::prelude::*;
use jiff::Timestamp;
use crate::order::Titled;

verus! {

/// Relies on jiff::Timestamp only as a value carried through: the library
/// never looks inside it.
#[verifier::external_type_specification]
#[verifier::external_body]
pub struct ExTimestamp(Timestamp);

/// The metadata of a folder or of the library root.
#[derive(Debug, PartialEq, Eq)]
pub struct FolderMeta {
    pub title: String,
    pub tags: Vec<String>,
}

/// The metadata of a note.
#[derive(Debug, PartialEq, Eq)]
pub struct NoteMeta {
    pub title: String,
    pub tags: Vec<String>,
    pub author: String,
    pub date: Timestamp,
}

/// A note: its metadata and, once persisted, its directory.
#[derive(Debug, PartialEq, Eq)]
pub struct Note {
    pub metadata: NoteMeta,
    pub path: Option<Vec<String>>,
}

/// A folder and everything below it. The root of a library is a folder with
/// `library` set.
#[derive(Debug, PartialEq, Eq)]
pub struct Folder {
    pub metadata: FolderMeta,
    pub folders: Vec<Folder>,
    pub notes: Vec<Note>,
    pub library: bool,
    pub path: Option<Vec<String>>,
}

/// A directory path, one component per element.
pub type PathV = Seq<Seq<char>>;

pub open spec fn strs(v: Seq<String>) -> Seq<Seq<char>> {
    v.map_values(|s: String| s@)
}

pub open spec fn path_v(p: Option<Vec<String>>) -> Option<PathV> {
    match p {
        Some(v) => Some(strs(v@)),
        None => None,
    }
}

pub struct FolderMetaV {
    pub title: Seq<char>,
    pub tags: Seq<Seq<char>>,
}

pub struct NoteMetaV {
    pub title: Seq<char>,
    pub tags: Seq<Seq<char>>,
    pub author: Seq<char>,
    pub date: Timestamp,
}

pub struct NoteV {
    pub meta: NoteMetaV,
    pub path: Option<PathV>,
}

pub struct FolderV {
    pub meta: FolderMetaV,
    pub folders: Seq<FolderV>,
    pub notes: Seq<NoteV>,
    pub library: bool,
    pub path: Option<PathV>,
}

/// `c` is a directory directly inside `p`.
pub open spec fn child_of(c: Option<PathV>, p: PathV) -> bool {
    &&& c is Some
    &&& c->Some_0.len() == p.len() + 1
    &&& c->Some_0.drop_last() == p
}

/// `g` has a directory, and every node below it has one directly inside its
/// parent's.
pub open spec fn nested(g: FolderV) -> bool
    decreases g,
{
    &&& g.path is Some
    &&& forall|i: int| 0 <= i < g.notes.len() ==> child_of(#[trigger] g.notes[i].path, g.path->Some_0)
    &&& forall|i: int|
        0 <= i < g.folders.len() ==> child_of((#[trigger] g.folders[i]).path, g.path->Some_0) && nested(
            g.folders[i],
        )
}

impl View for FolderMeta {
    type V = FolderMetaV;

    open spec fn view(&self) -> FolderMetaV {
        FolderMetaV { title: self.title@, tags: strs(self.tags@) }
    }
}

impl View for NoteMeta {
    type V = NoteMetaV;

    open spec fn view(&self) -> NoteMetaV {
        NoteMetaV {
            title: self.title@,
            tags: strs(self.tags@),
            author: self.author@,
            date: self.date,
        }
    }
}

impl View for Note {
    type V = NoteV;

    open spec fn view(&self) -> NoteV {
        NoteV { meta: self.metadata@, path: path_v(self.path) }
    }
}

pub open spec fn notes_v(v: Seq<Note>) -> Seq<NoteV> {
    v.map_values(|n: Note| n@)
}

pub open spec fn folder_v(f: Folder) -> FolderV
    decreases f,
{
    FolderV {
        meta: f.metadata@,
        folders: Seq::new(
            f.folders@.len(),
            |i: int|
                if 0 <= i < f.folders@.len() {
                    folder_v(f.folders@[i])
                } else {
                    arbitrary()
                },
        ),
        notes: notes_v(f.notes@),
        library: f.library,
        path: path_v(f.path),
    }
}

impl View for Folder {
    type V = FolderV;

    open spec fn view(&self) -> FolderV {
        folder_v(*self)
    }
}

impl Folder {
    /// A folder with no children and no directory yet.
    pub fn new(title: String, tags: Vec<String>) -> (r: Folder)
        ensures
            r@ == (FolderV {
                meta: FolderMetaV { title: title@, tags: strs(tags@) },
                folders: Seq::empty(),
                notes: Seq::empty(),
                library: false,
                path: None,
            }),
    {
        let r = Folder {
            metadata: FolderMeta { title, tags },
            folders: Vec::new(),
            notes: Vec::new(),
            library: false,
            path: None,
        };
        assert(r@.folders =~= Seq::<FolderV>::empty());
        assert(r@.notes =~= Seq::<NoteV>::empty());
        r
    }

    pub fn title(&self) -> (r: &str)
        ensures
            r@ == self@.meta.title,
    {
        self.metadata.title.as_str()
    }

    pub fn tags(&self) -> (r: &Vec<String>)
        ensures
            strs(r@) == self@.meta.tags,
    {
        &self.metadata.tags
    }

    /// The folder's directory, once it has one.
    pub fn path(&self) -> (r: &Option<Vec<String>>)
        ensures
            path_v(*r) == self@.path,
    {
        &self.path
    }
}

impl Note {
    /// A note with no directory yet.
    pub fn new(title: String, tags: Vec<String>, author: String, date: Timestamp) -> (r: Note)
        ensures
            r@ == (NoteV {
                meta: NoteMetaV { title: title@, tags: strs(tags@), author: author@, date },
                path: None,
            }),
    {
        Note { metadata: NoteMeta { title, tags, author, date }, path: None }
    }

    pub fn title(&self) -> (r: &str)
        ensures
            r@ == self@.meta.title,
    {
        self.metadata.title.as_str()
    }

    pub fn author(&self) -> (r: &str)
        ensures
            r@ == self@.meta.author,
    {
        self.metadata.author.as_str()
    }

    pub fn date(&self) -> (r: Timestamp)
        ensures
            r == self@.meta.date,
    {
        self.metadata.date
    }

    pub fn tags(&self) -> (r: &Vec<String>)
        ensures
            strs(r@) == self@.meta.tags,
    {
        &self.metadata.tags
    }

    /// The note's directory, once it has one.
    pub fn path(&self) -> (r: &Option<Vec<String>>)
        ensures
            path_v(*r) == self@.path,
    {
        &self.path
    }
}

impl Titled for Folder {
    open spec fn key(v: FolderV) -> Seq<char> {
        v.meta.title
    }

    fn title_str(&self) -> (r: &str) {
        self.metadata.title.as_str()
    }
}

impl Titled for Note {
    open spec fn key(v: NoteV) -> Seq<char> {
        v.meta.title
    }

    fn title_str(&self) -> (r: &str) {
        self.metadata.title.as_str()
    }
}

} // verus!
