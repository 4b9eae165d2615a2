//! Creating a library and adding nodes to a persisted folder.
use vstd::prelude::*;
use jiff::Timestamp;
use crate::naming::{slug, slug_of};
use crate::store::{child_path, folder_image, note_image, ops_at, ops_v, place, place_note, child_dir, clone_folder_meta, clone_strs, FsOp, LibError};
use crate::tree::{strs, Folder, FolderMeta, FolderMetaV, FolderV, Note, NoteMetaV, NoteV, PathV};

verus! {

/// A library root under construction: a title, tags, and the directory it
/// will have.
pub struct LibraryBuilder {
    pub(crate) metadata: FolderMeta,
    pub(crate) path: Option<Vec<String>>,
}

pub struct LibraryBuilderV {
    pub meta: FolderMetaV,
    pub path: Option<PathV>,
}

impl View for LibraryBuilder {
    type V = LibraryBuilderV;

    closed spec fn view(&self) -> LibraryBuilderV {
        LibraryBuilderV { meta: self.metadata@, path: crate::tree::path_v(self.path) }
    }
}

/// The root that a builder with state `b` makes, before it has a directory.
pub open spec fn root_of(b: LibraryBuilderV) -> FolderV {
    FolderV { meta: b.meta, folders: Seq::empty(), notes: Seq::empty(), library: true, path: None }
}

/// The directory of the root that a builder with state `b` makes: the one it
/// was given, else the slug of its title.
pub open spec fn target_of(b: LibraryBuilderV) -> PathV {
    match b.path {
        Some(p) => p,
        None => seq![slug_of(b.meta.title)],
    }
}

impl LibraryBuilder {
    /// A builder for a library titled `title`, with no tags and no directory
    /// chosen.
    pub fn new(title: &str) -> (r: LibraryBuilder)
        ensures
            r@ == (LibraryBuilderV {
                meta: FolderMetaV { title: title@, tags: Seq::empty() },
                path: None,
            }),
    {
        let r = LibraryBuilder {
            metadata: FolderMeta { title: title.to_owned(), tags: Vec::new() },
            path: None,
        };
        assert(strs(r.metadata.tags@) =~= Seq::<Seq<char>>::empty());
        r
    }

    pub fn with_tags(self, tags: Vec<String>) -> (r: LibraryBuilder)
        ensures
            r@ == (LibraryBuilderV {
                meta: FolderMetaV { title: self@.meta.title, tags: strs(tags@) },
                path: self@.path,
            }),
    {
        LibraryBuilder {
            metadata: FolderMeta { title: self.metadata.title, tags },
            path: self.path,
        }
    }

    /// Chooses the root's directory.
    pub fn with_path(self, path: Vec<String>) -> (r: LibraryBuilder)
        ensures
            r@ == (LibraryBuilderV { meta: self@.meta, path: Some(strs(path@)) }),
    {
        LibraryBuilder { metadata: self.metadata, path: Some(path) }
    }

    /// The root's directory: the one chosen, else the slug of the title.
    pub fn target(&self) -> (r: Vec<String>)
        ensures
            strs(r@) == target_of(self@),
    {
        match &self.path {
            Some(p) => clone_strs(p),
            None => {
                let mut p: Vec<String> = Vec::new();
                p.push(slug(self.metadata.title.as_str()));
                assert(strs(p@) =~= seq![slug_of(self@.meta.title)]);
                p
            },
        }
    }

    /// The writes that create the library root at its directory.
    pub fn writes(&self) -> (ops: Vec<FsOp>)
        ensures
            ops_v(ops@) == ops_at(folder_image(place(root_of(self@), target_of(self@))), target_of(self@)),
    {
        let root = Folder {
            metadata: clone_folder_meta(&self.metadata),
            folders: Vec::new(),
            notes: Vec::new(),
            library: true,
            path: None,
        };
        assert(root@.folders =~= Seq::<FolderV>::empty());
        assert(root@.notes =~= Seq::<NoteV>::empty());
        assert(root@ == root_of(self@));
        root.initialise_writes(&self.target())
    }

    /// The library root, given the outcome `written` of the writes from
    /// `writes`: placed at its directory where they all succeeded, else the
    /// error.
    pub fn build(self, written: Result<(), LibError>) -> (r: Result<Folder, LibError>)
        ensures
            match written {
                Ok(_) => r is Ok && r->Ok_0@ == place(root_of(self@), target_of(self@)),
                Err(e) => r == Err::<Folder, LibError>(e),
            },
    {
        let ghost b = self@;
        let path = self.target();
        let mut root = Folder {
            metadata: self.metadata,
            folders: Vec::new(),
            notes: Vec::new(),
            library: true,
            path: None,
        };
        assert(root@.folders =~= Seq::<FolderV>::empty());
        assert(root@.notes =~= Seq::<NoteV>::empty());
        assert(root@ == root_of(b));
        match root.initialise(path, written) {
            Ok(_) => Ok(root),
            Err(e) => Err(e),
        }
    }
}

/// `g` with `n` appended to its notes.
pub open spec fn with_note(g: FolderV, n: NoteV) -> FolderV {
    FolderV { notes: g.notes.push(n), ..g }
}

/// `g` with `c` appended to its child folders.
pub open spec fn with_folder(g: FolderV, c: FolderV) -> FolderV {
    FolderV { folders: g.folders.push(c), ..g }
}

impl Folder {
    /// A new note for this folder, placed in the directory named after its
    /// title inside this folder's, with the writes that create it. A folder
    /// that has no directory yet takes no children.
    pub fn new_note(&self, title: &str, tags: Vec<String>, author: &str, date: Timestamp) -> (r:
        Result<(Note, Vec<FsOp>), LibError>)
        ensures
            self@.path is None <==> r is Err,
            r is Err ==> r == Err::<(Note, Vec<FsOp>), LibError>(LibError::NotPersisted),
            r is Ok ==> {
                let n = NoteV {
                    meta: NoteMetaV { title: title@, tags: strs(tags@), author: author@, date },
                    path: None,
                };
                let dir = self@.path->Some_0;
                &&& r->Ok_0.0@ == place_note(n, dir)
                &&& ops_v(r->Ok_0.1@) == ops_at(note_image(n), child_path(dir, title@))
            },
    {
        match &self.path {
            None => Err(LibError::NotPersisted),
            Some(dir) => {
                let note = Note::new(title.to_owned(), tags, author.to_owned(), date);
                let mut ops: Vec<FsOp> = Vec::new();
                note.write_ops(dir, &mut ops);
                let placed = note.place(dir);
                assert(ops_v(ops@) =~= ops_at(note_image(note@), child_path(strs(dir@), title@)));
                Ok((placed, ops))
            },
        }
    }

    /// A new empty folder for this folder, placed in the directory named
    /// after its title inside this folder's, with the writes that create it.
    /// A folder that has no directory yet takes no children.
    pub fn new_folder(&self, title: &str) -> (r: Result<(Folder, Vec<FsOp>), LibError>)
        ensures
            self@.path is None <==> r is Err,
            r is Err ==> r == Err::<(Folder, Vec<FsOp>), LibError>(LibError::NotPersisted),
            r is Ok ==> {
                let c = FolderV {
                    meta: FolderMetaV { title: title@, tags: Seq::empty() },
                    folders: Seq::empty(),
                    notes: Seq::empty(),
                    library: false,
                    path: None,
                };
                let p = child_path(self@.path->Some_0, title@);
                &&& r->Ok_0.0@ == place(c, p)
                &&& ops_v(r->Ok_0.1@) == ops_at(folder_image(r->Ok_0.0@), p)
            },
    {
        match &self.path {
            None => Err(LibError::NotPersisted),
            Some(dir) => {
                let t = title.to_owned();
                let p = child_dir(dir, &t);
                let no_tags: Vec<String> = Vec::new();
                assert(strs(no_tags@) =~= Seq::<Seq<char>>::empty());
                let mut child = Folder::new(t, no_tags);
                let ops = child.initialise_writes(&p);
                let _ = child.initialise(p, Ok(()));
                Ok((child, ops))
            },
        }
    }

    pub(crate) fn push_note(&mut self, note: Note)
        ensures
            final(self)@ == with_note(old(self)@, note@),
    {
        let ghost g = self@;
        self.notes.push(note);
        assert(self@.notes =~= g.notes.push(note@));
        assert(self@.folders =~= g.folders);
    }

    pub(crate) fn push_folder(&mut self, folder: Folder)
        ensures
            final(self)@ == with_folder(old(self)@, folder@),
    {
        let ghost g = self@;
        self.folders.push(folder);
        assert(self@.folders =~= g.folders.push(folder@));
        assert(self@.notes =~= g.notes);
    }

    /// Records a note made by `new_note`, given the outcome `written` of its
    /// writes: appended where they all succeeded; else the folder stays as
    /// it was and the error is returned.
    pub fn add_note(&mut self, note: Note, written: Result<(), LibError>) -> (r: Result<(), LibError>)
        ensures
            r == written,
            final(self)@ == after_add_note(old(self)@, note@, written),
    {
        match written {
            Ok(_) => {
                self.push_note(note);
                written
            },
            Err(_) => written,
        }
    }

    /// Records a folder made by `new_folder`, given the outcome `written` of
    /// its writes: appended where they all succeeded; else the folder stays
    /// as it was and the error is returned.
    pub fn add_folder(&mut self, folder: Folder, written: Result<(), LibError>) -> (r: Result<(), LibError>)
        ensures
            r == written,
            final(self)@ == after_add_folder(old(self)@, folder@, written),
    {
        match written {
            Ok(_) => {
                self.push_folder(folder);
                written
            },
            Err(_) => written,
        }
    }
}

/// The folder `g` after `add_note` of `n` with outcome `written`.
pub open spec fn after_add_note(g: FolderV, n: NoteV, written: Result<(), LibError>) -> FolderV {
    if written is Ok {
        with_note(g, n)
    } else {
        g
    }
}

/// The folder `g` after `add_folder` of `c` with outcome `written`.
pub open spec fn after_add_folder(g: FolderV, c: FolderV, written: Result<(), LibError>) -> FolderV {
    if written is Ok {
        with_folder(g, c)
    } else {
        g
    }
}

} // verus!
