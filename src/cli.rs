//! The commands the program takes, and what they ask of the library.
use vstd::prelude::*;
use crate::library::{LibraryBuilder, LibraryBuilderV};
use crate::tree::{strs, FolderMetaV, PathV};

verus! {

/// The program's arguments.
pub struct Args {
    pub command: Commands,
}

pub enum Commands {
    /// Create a new library.
    New(NewArgs),
    /// Open an existing library.
    Open(OpenArgs),
}

pub struct NewArgs {
    /// The library's title.
    pub name: String,
    /// The library's directory, one component per element.
    pub path: Option<Vec<String>>,
    /// The editor to browse the new library with; without one the library
    /// is only created.
    pub editor: Option<String>,
}

pub struct OpenArgs {
    /// The library's directory.
    pub name: String,
    pub editor: Option<String>,
}

/// The tag that a library created from the command line starts with.
pub open spec fn default_tag() -> Seq<char> {
    seq!['C', 'o', 'l', 'l', 'e', 'g', 'e']
}

/// The editor used where none is given.
pub open spec fn default_editor() -> Seq<char> {
    seq!['n', 'v', 'i', 'm']
}

impl NewArgs {
    /// The builder for the library these arguments ask for: titled by
    /// `name`, tagged with the default tag, at `path` where one is given.
    pub fn builder(&self) -> (r: LibraryBuilder)
        ensures
            r@ == (LibraryBuilderV {
                meta: FolderMetaV { title: self.name@, tags: seq![default_tag()] },
                path: match self.path {
                    Some(p) => Some(strs(p@)),
                    None => None::<PathV>,
                },
            }),
    {
        let mut tags: Vec<String> = Vec::new();
        proof {
            reveal_strlit("College");
        }
        let tag = String::from_str("College");
        assert(tag@ =~= default_tag());
        tags.push(tag);
        assert(strs(tags@) =~= seq![default_tag()]);
        let b = LibraryBuilder::new(self.name.as_str()).with_tags(tags);
        match &self.path {
            Some(p) => b.with_path(crate::store::clone_strs(p)),
            None => b,
        }
    }
}

impl OpenArgs {
    /// The editor to open notes with: the one given, else the default.
    pub fn editor_or_default(&self) -> (r: String)
        ensures
            r@ == match self.editor {
                Some(e) => e@,
                None => default_editor(),
            },
    {
        match &self.editor {
            Some(e) => e.clone(),
            None => {
                proof {
                    reveal_strlit("nvim");
                }
                let e = String::from_str("nvim");
                assert(e@ =~= default_editor());
                e
            },
        }
    }
}

} // verus!
