//! A library of notes kept in a tree of folders, one directory per node.
//!
//! The tree lives in memory as [`Folder`] and [`Note`] values. Persisting a
//! node yields the writes ([`FsOp`]) that create its directories; opening a
//! library reads back the image ([`Entry`]) of its directories. The caller
//! performs the I/O itself.

pub mod naming;
pub mod tree;
pub mod order;
pub mod store;
pub mod load;
pub mod disk;
pub mod library;
pub mod nav;
pub mod cli;

pub use naming::{slug, CaseExt};
pub use tree::{Folder, FolderMeta, Note, NoteMeta};
pub use order::title_less;
pub use store::{classify, content_file, Probe, Entry, Found, FsOp, LibError, MetaFile, MetaKind};
pub use disk::{failure_error, IoFailure};
pub use library::LibraryBuilder;
pub use nav::{Effect, Key, MenuAction, Nav};
pub use cli::{Args, Commands, NewArgs, OpenArgs};
