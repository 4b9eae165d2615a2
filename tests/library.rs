use jiff::Timestamp;
use notekeeper::{
    classify, failure_error, Probe, slug, title_less, CaseExt, Effect, Entry, Folder, FolderMeta, Found, FsOp,
    IoFailure, Key, LibError, LibraryBuilder, MenuAction, MetaFile, MetaKind, Nav, Note, NoteMeta,
};

fn path(parts: &[&str]) -> Vec<String> {
    parts.iter().map(|s| s.to_string()).collect()
}

/// The writes of a builder and the root it gives once they succeed.
fn built(b: LibraryBuilder) -> (Folder, Vec<FsOp>) {
    let ops = b.writes();
    (b.build(Ok(())).unwrap(), ops)
}

fn stamp(s: &str) -> Timestamp {
    s.parse().unwrap()
}

/// Plays the writes onto an in-memory image of the directory at `root`.
fn image_of(root: &[String], ops: Vec<FsOp>) -> Entry {
    let mut top = Entry { name: String::new(), found: Found::Missing, children: vec![] };
    for op in ops {
        match op {
            FsOp::CreateDir(p) => {
                if p.len() > root.len() {
                    let parent = descend(&mut top, &p[root.len()..p.len() - 1]);
                    parent.children.push(Entry {
                        name: p[p.len() - 1].clone(),
                        found: Found::Missing,
                        children: vec![],
                    });
                }
            }
            FsOp::WriteMeta(p, m) => {
                descend(&mut top, &p[root.len()..]).found = Found::Meta(m);
            }
            FsOp::TouchContent(_) => {}
        }
    }
    top
}

fn descend<'a>(e: &'a mut Entry, names: &[String]) -> &'a mut Entry {
    let mut cur = e;
    for n in names {
        cur = cur.children.iter_mut().find(|c| &c.name == n).unwrap();
    }
    cur
}

fn folder_entry(name: &str, title: &str, children: Vec<Entry>) -> Entry {
    Entry {
        name: name.to_string(),
        found: Found::Meta(MetaFile::Folder(FolderMeta { title: title.to_string(), tags: vec![] })),
        children,
    }
}

fn note_entry(name: &str, title: &str) -> Entry {
    Entry {
        name: name.to_string(),
        found: Found::Meta(MetaFile::Note(NoteMeta {
            title: title.to_string(),
            tags: vec![],
            author: "me".to_string(),
            date: stamp("2025-03-17T00:00:00Z"),
        })),
        children: vec![],
    }
}

fn library_entry(title: &str, children: Vec<Entry>) -> Entry {
    Entry {
        name: String::new(),
        found: Found::Meta(MetaFile::Library(FolderMeta {
            title: title.to_string(),
            tags: vec!["mytag".to_string()],
        })),
        children,
    }
}

#[test]
fn slug_lowercases_and_joins_words() {
    assert_eq!(slug("Test Lib"), "test-lib");
    assert_eq!(slug("  Many   Spaced\tWords "), "many-spaced-words");
    assert_eq!(slug(""), "");
    assert_eq!(slug("   "), "");
    assert_eq!(slug("ÄBC Déf"), "Äbc déf".replace(' ', "-"));
}

#[test]
fn slug_of_titles_differing_in_case_and_spacing_agree() {
    assert_eq!(slug("Draft"), "draft");
    assert_eq!(slug("draft "), "draft");
    assert_eq!(slug("Draft"), slug("draft "));
}

#[test]
fn case_conversions_of_a_string() {
    let t = "My Big  Title".to_string();
    assert_eq!(t.to_kebab_case(), "my-big-title");
    assert_eq!(t.to_snake_case(), "my_big__title");
}

#[test]
fn titles_order_lexicographically() {
    assert!(title_less("Alpha", "Beta"));
    assert!(!title_less("Beta", "Alpha"));
    assert!(title_less("Al", "Alpha"));
    assert!(!title_less("Alpha", "Alpha"));
    assert!(title_less("", "a"));
    assert!(title_less("B", "a"));
}

#[test]
fn build_places_root_at_slug_of_title() {
    let (root, ops) = built(LibraryBuilder::new("Test Lib").with_tags(vec!["mytag".to_string()]));
    assert_eq!(root.path(), &Some(path(&["test-lib"])));
    assert!(root.library);
    assert_eq!(root.title(), "Test Lib");
    assert_eq!(root.tags(), &vec!["mytag".to_string()]);
    assert_eq!(ops.len(), 2);
    assert_eq!(ops[0], FsOp::CreateDir(path(&["test-lib"])));
    assert_eq!(
        ops[1],
        FsOp::WriteMeta(
            path(&["test-lib"]),
            MetaFile::Library(FolderMeta { title: "Test Lib".to_string(), tags: vec!["mytag".to_string()] })
        )
    );
}

#[test]
fn build_uses_given_path() {
    let (root, ops) = built(LibraryBuilder::new("Notes").with_path(path(&["home", "me", "lib"])));
    assert_eq!(root.path(), &Some(path(&["home", "me", "lib"])));
    assert_eq!(ops[0], FsOp::CreateDir(path(&["home", "me", "lib"])));
}

#[test]
fn adding_a_note_writes_its_directory_metadata_and_content() {
    let (mut root, _) = built(LibraryBuilder::new("Test Lib").with_tags(vec!["mytag".to_string()]));
    let date = stamp("2025-03-17T00:00:00Z");
    let (note, ops) = root.new_note("Test Note", vec!["mytag".to_string()], "me", date).unwrap();
    let dir = path(&["test-lib", "test-note"]);
    assert_eq!(
        ops,
        vec![
            FsOp::CreateDir(dir.clone()),
            FsOp::WriteMeta(
                dir.clone(),
                MetaFile::Note(NoteMeta {
                    title: "Test Note".to_string(),
                    tags: vec!["mytag".to_string()],
                    author: "me".to_string(),
                    date,
                })
            ),
            FsOp::TouchContent(dir.clone()),
        ]
    );
    assert_eq!(note.content_path(), Some(path(&["test-lib", "test-note", "note.md"])));
    assert_eq!(note.title(), "Test Note");
    assert_eq!(note.author(), "me");
    assert_eq!(note.date(), date);
    root.add_note(note, Ok(())).unwrap();
    assert_eq!(root.notes.len(), 1);
    assert_eq!(root.notes[0].path(), &Some(dir));
}

#[test]
fn adding_a_folder_writes_its_directory_and_metadata() {
    let (mut root, _) = built(LibraryBuilder::new("Lib"));
    let (f, ops) = root.new_folder("Sub Dir").unwrap();
    let dir = path(&["lib", "sub-dir"]);
    assert_eq!(
        ops,
        vec![
            FsOp::CreateDir(dir.clone()),
            FsOp::WriteMeta(dir.clone(), MetaFile::Folder(FolderMeta { title: "Sub Dir".to_string(), tags: vec![] })),
        ]
    );
    root.add_folder(f, Ok(())).unwrap();
    assert_eq!(root.folders[0].path(), &Some(dir));
    assert!(!root.folders[0].library);
}

#[test]
fn a_folder_without_directory_takes_no_children() {
    let f = Folder::new("Loose".to_string(), vec![]);
    assert_eq!(f.new_folder("x").unwrap_err(), LibError::NotPersisted);
    let r = f.new_note("n", vec![], "a", stamp("2025-01-01T00:00:00Z"));
    assert_eq!(r.unwrap_err(), LibError::NotPersisted);
}

#[test]
fn same_slug_notes_collide() {
    let (root, _) = built(LibraryBuilder::new("Lib"));
    let d = stamp("2025-03-17T00:00:00Z");
    let (a, ops_a) = root.new_note("Draft", vec![], "me", d).unwrap();
    let (b, ops_b) = root.new_note("draft ", vec![], "me", d).unwrap();
    assert_eq!(a.path(), b.path());
    assert_eq!(ops_a[0], ops_b[0]);
    assert_eq!(failure_error(&ops_b[0], IoFailure::AlreadyExists), LibError::SiblingCollision);
    assert_eq!(failure_error(&ops_b[0], IoFailure::Other), LibError::Io);
    assert_eq!(failure_error(&ops_b[1], IoFailure::AlreadyExists), LibError::Io);
}

#[test]
fn initialise_writes_tree_in_order() {
    let mut root = Folder::new("Top".to_string(), vec![]);
    let mut sub = Folder::new("Sub".to_string(), vec![]);
    sub.notes.push(Note::new("Inner".to_string(), vec![], "a".to_string(), stamp("2025-01-01T00:00:00Z")));
    root.folders.push(sub);
    root.notes.push(Note::new("Outer".to_string(), vec![], "b".to_string(), stamp("2025-01-02T00:00:00Z")));
    let ops = root.initialise_writes(&path(&["base", "top"]));
    assert_eq!(root.initialise(path(&["base", "top"]), Ok(())), Ok(()));
    let dirs: Vec<Vec<String>> = ops
        .iter()
        .filter_map(|o| match o {
            FsOp::CreateDir(p) => Some(p.clone()),
            _ => None,
        })
        .collect();
    assert_eq!(
        dirs,
        vec![
            path(&["base", "top"]),
            path(&["base", "top", "sub"]),
            path(&["base", "top", "sub", "inner"]),
            path(&["base", "top", "outer"]),
        ]
    );
    assert_eq!(ops.len(), 10);
    assert_eq!(root.folders[0].notes[0].path(), &Some(path(&["base", "top", "sub", "inner"])));
    assert_eq!(root.path(), &Some(path(&["base", "top"])));
}

#[test]
fn open_after_initialise_gives_tree_back_sorted() {
    let mut root = Folder::new("Top".to_string(), vec!["t".to_string()]);
    root.library = true;
    let mut zeta = Folder::new("Zeta".to_string(), vec![]);
    zeta.notes.push(Note::new("Yak".to_string(), vec![], "a".to_string(), stamp("2025-01-01T00:00:00Z")));
    zeta.notes.push(Note::new("Ant".to_string(), vec![], "a".to_string(), stamp("2025-01-01T00:00:00Z")));
    root.folders.push(zeta);
    root.folders.push(Folder::new("Alpha".to_string(), vec![]));
    root.notes.push(Note::new("Note B".to_string(), vec![], "b".to_string(), stamp("2025-01-02T00:00:00Z")));
    root.notes.push(Note::new("Note A".to_string(), vec![], "b".to_string(), stamp("2025-01-02T00:00:00Z")));
    let base = path(&["top"]);
    let ops = root.initialise_writes(&base);
    root.initialise(base.clone(), Ok(())).unwrap();
    let image = image_of(&base, ops);
    let opened = Folder::open_library(base.clone(), image).unwrap();
    assert!(opened.library);
    assert_eq!(opened.title(), "Top");
    assert_eq!(opened.tags(), &vec!["t".to_string()]);
    let titles: Vec<&str> = opened.folders.iter().map(|f| f.title()).collect();
    assert_eq!(titles, vec!["Alpha", "Zeta"]);
    let notes: Vec<&str> = opened.notes.iter().map(|n| n.title()).collect();
    assert_eq!(notes, vec!["Note A", "Note B"]);
    let inner: Vec<&str> = opened.folders[1].notes.iter().map(|n| n.title()).collect();
    assert_eq!(inner, vec!["Ant", "Yak"]);
    assert_eq!(opened.folders[1].path(), &Some(path(&["top", "zeta"])));
    assert_eq!(opened.folders[1].notes[0].path(), &Some(path(&["top", "zeta", "ant"])));
}

#[test]
fn open_skips_corrupt_child() {
    let image = library_entry(
        "Lib",
        vec![
            folder_entry("good", "Good", vec![]),
            Entry { name: "bad".to_string(), found: Found::Corrupt(MetaKind::Folder), children: vec![] },
            Entry { name: "stray".to_string(), found: Found::Missing, children: vec![] },
            note_entry("n", "N"),
        ],
    );
    let lib = Folder::open_library(path(&["lib"]), image).unwrap();
    assert_eq!(lib.folders.len(), 1);
    assert_eq!(lib.folders[0].title(), "Good");
    assert_eq!(lib.notes.len(), 1);
    assert_eq!(lib.notes[0].title(), "N");
}

#[test]
fn open_without_library_file_fails() {
    let image = Entry { name: String::new(), found: Found::Missing, children: vec![note_entry("n", "N")] };
    assert_eq!(Folder::open_library(path(&["lib"]), image).unwrap_err(), LibError::Io);
    let image = folder_entry("", "Plain", vec![]);
    assert_eq!(Folder::open_library(path(&["lib"]), image).unwrap_err(), LibError::Io);
}

#[test]
fn open_with_corrupt_library_file_fails() {
    let image = Entry { name: String::new(), found: Found::Corrupt(MetaKind::Library), children: vec![] };
    assert_eq!(Folder::open_library(path(&["lib"]), image).unwrap_err(), LibError::CorruptMetadata);
    let image = Entry { name: String::new(), found: Found::Unreadable(MetaKind::Library), children: vec![] };
    assert_eq!(Folder::open_library(path(&["lib"]), image).unwrap_err(), LibError::Io);
}

#[test]
fn open_plain_folder() {
    let image = folder_entry("", "Plain", vec![folder_entry("c", "C", vec![])]);
    let f = Folder::open(path(&["x"]), image).unwrap();
    assert!(!f.library);
    assert_eq!(f.folders.len(), 1);
    let bad = Entry { name: String::new(), found: Found::Corrupt(MetaKind::Folder), children: vec![] };
    assert_eq!(Folder::open(path(&["x"]), bad).unwrap_err(), LibError::CorruptMetadata);
    assert_eq!(Folder::open(path(&["x"]), note_entry("", "N")).unwrap_err(), LibError::Io);
}

#[test]
fn file_names_of_each_kind() {
    assert_eq!(MetaKind::Library.file_name(), "library.toml");
    assert_eq!(MetaKind::Folder.file_name(), "folder.toml");
    assert_eq!(MetaKind::Note.file_name(), "note.toml");
    assert_eq!(notekeeper::content_file(), "note.md");
}

fn sample_tree() -> Folder {
    let (mut root, _) = built(LibraryBuilder::new("Root"));
    let d = stamp("2025-03-17T00:00:00Z");
    let (n, _) = root.new_note("One", vec![], "me", d).unwrap();
    root.add_note(n, Ok(())).unwrap();
    let (n, _) = root.new_note("Two", vec![], "me", d).unwrap();
    root.add_note(n, Ok(())).unwrap();
    let (f, _) = root.new_folder("Sub").unwrap();
    root.add_folder(f, Ok(())).unwrap();
    root
}

#[test]
fn scrolling_stays_within_items() {
    let root = sample_tree();
    let mut nav = Nav::new();
    assert_eq!(nav.step(&root, MenuAction::ScrollUp), Effect::Redraw);
    assert_eq!(nav.cursor, 0);
    for _ in 0..10 {
        nav.step(&root, MenuAction::ScrollDown);
    }
    assert_eq!(nav.cursor, 2);
    nav.step(&root, MenuAction::ScrollUp);
    assert_eq!(nav.cursor, 1);
}

#[test]
fn scrolling_an_empty_folder_keeps_cursor_at_zero() {
    let (root, _) = built(LibraryBuilder::new("Empty"));
    let mut nav = Nav::new();
    nav.step(&root, MenuAction::ScrollDown);
    assert_eq!(nav.cursor, 0);
    assert_eq!(nav.step(&root, MenuAction::SelectItem), Effect::Redraw);
    assert!(nav.stack.is_empty());
}

#[test]
fn selecting_note_edits_and_folder_descends() {
    let root = sample_tree();
    let mut nav = Nav::new();
    nav.step(&root, MenuAction::ScrollDown);
    assert_eq!(nav.step(&root, MenuAction::SelectItem), Effect::Edit(1));
    nav.step(&root, MenuAction::ScrollDown);
    assert_eq!(nav.step(&root, MenuAction::SelectItem), Effect::Redraw);
    assert_eq!(nav.stack, vec![0]);
    assert_eq!(nav.cursor, 0);
    assert_eq!(root.folder_at(&nav.stack).title(), "Sub");
}

#[test]
fn back_returns_to_parent_then_exits() {
    let root = sample_tree();
    let mut nav = Nav::new();
    nav.step(&root, MenuAction::ScrollDown);
    nav.step(&root, MenuAction::ScrollDown);
    nav.step(&root, MenuAction::SelectItem);
    assert_eq!(nav.stack.len(), 1);
    assert_eq!(nav.step(&root, MenuAction::Back), Effect::Redraw);
    assert!(nav.stack.is_empty());
    assert_eq!(nav.cursor, 0);
    assert!(!nav.exited);
    assert_eq!(nav.step(&root, MenuAction::Back), Effect::Exit);
    assert!(nav.exited);
}

#[test]
fn quit_exits_from_any_depth() {
    let root = sample_tree();
    let mut nav = Nav::new();
    nav.step(&root, MenuAction::ScrollDown);
    nav.step(&root, MenuAction::ScrollDown);
    nav.step(&root, MenuAction::SelectItem);
    assert_eq!(nav.step(&root, MenuAction::Quit), Effect::Exit);
    assert!(nav.exited);
}

#[test]
fn add_commands_ask_for_fields() {
    let root = sample_tree();
    let mut nav = Nav::new();
    assert_eq!(nav.step(&root, MenuAction::AddNote), Effect::PromptNote);
    assert_eq!(nav.step(&root, MenuAction::AddFolder), Effect::PromptFolder);
    assert!(!nav.exited);
}

#[test]
fn adding_below_the_open_folder() {
    let mut root = sample_tree();
    let stack = vec![0usize];
    let (n, _) = root.folder_at(&stack).new_note("Deep", vec![], "me", stamp("2025-03-17T00:00:00Z")).unwrap();
    assert_eq!(n.path(), &Some(path(&["root", "sub", "deep"])));
    root.add_note_at(&stack, n, Ok(())).unwrap();
    let (f, _) = root.folder_at(&stack).new_folder("Deeper").unwrap();
    root.add_folder_at(&stack, f, Ok(())).unwrap();
    assert_eq!(root.folders[0].notes[0].title(), "Deep");
    assert_eq!(root.folders[0].folders[0].title(), "Deeper");
    assert_eq!(root.notes.len(), 2);
}

#[test]
fn command_line_arguments() {
    let a = notekeeper::NewArgs { name: "My Lib".to_string(), path: None, editor: None };
    let (root, _) = built(a.builder());
    assert_eq!(root.path(), &Some(path(&["my-lib"])));
    assert_eq!(root.tags(), &vec!["College".to_string()]);
    let a = notekeeper::NewArgs { name: "My Lib".to_string(), path: Some(path(&["x"])), editor: None };
    assert_eq!(built(a.builder()).0.path(), &Some(path(&["x"])));
    let o = notekeeper::OpenArgs { name: "lib".to_string(), editor: None };
    assert_eq!(o.editor_or_default(), "nvim");
    let o = notekeeper::OpenArgs { name: "lib".to_string(), editor: Some("vi".to_string()) };
    assert_eq!(o.editor_or_default(), "vi");
}

#[test]
fn keys_map_to_commands() {
    assert_eq!(Key::Up.action(), Some(MenuAction::ScrollUp));
    assert_eq!(Key::Char('k').action(), Some(MenuAction::ScrollUp));
    assert_eq!(Key::Down.action(), Some(MenuAction::ScrollDown));
    assert_eq!(Key::Char('j').action(), Some(MenuAction::ScrollDown));
    assert_eq!(Key::Enter.action(), Some(MenuAction::SelectItem));
    assert_eq!(Key::Char('l').action(), Some(MenuAction::SelectItem));
    assert_eq!(Key::Backspace.action(), Some(MenuAction::Back));
    assert_eq!(Key::Char('h').action(), Some(MenuAction::Back));
    assert_eq!(Key::Char('q').action(), Some(MenuAction::Quit));
    assert_eq!(Key::Char('n').action(), Some(MenuAction::AddNote));
    assert_eq!(Key::Char('N').action(), Some(MenuAction::AddFolder));
    assert_eq!(Key::Char('x').action(), None);
    assert_eq!(Key::Other.action(), None);
}

#[test]
fn open_reads_nested_library_as_folder() {
    let inner = Entry {
        name: "inner".to_string(),
        found: Found::Meta(MetaFile::Library(FolderMeta { title: "Inner".to_string(), tags: vec![] })),
        children: vec![note_entry("x", "X")],
    };
    let lib = Folder::open_library(path(&["lib"]), library_entry("Lib", vec![inner])).unwrap();
    assert_eq!(lib.folders.len(), 1);
    assert!(lib.folders[0].library);
    assert_eq!(lib.folders[0].notes[0].path(), &Some(path(&["lib", "inner", "x"])));
}

#[test]
fn slug_splits_on_unicode_whitespace() {
    assert_eq!(slug("a\u{0B}b"), "a-b");
    assert_eq!(slug("A\u{A0}B\u{3000}C"), "a-b-c");
    assert_eq!(slug("x\u{2003}\u{2028} y"), "x-y");
    assert_eq!("Tab\tSep".to_string().to_kebab_case(), "tab-sep");
}

#[test]
fn snake_case_replaces_each_space() {
    assert_eq!("a  b".to_string().to_snake_case(), "a__b");
    assert_eq!(" Ab ".to_string().to_snake_case(), "_ab_");
    assert_eq!("A\tB".to_string().to_snake_case(), "a\tb");
}

#[test]
fn failed_writes_leave_the_folder_as_it_was() {
    let mut f = Folder::new("Top".to_string(), vec![]);
    f.folders.push(Folder::new("Sub".to_string(), vec![]));
    assert_eq!(f.initialise(path(&["top"]), Err(LibError::SiblingCollision)), Err(LibError::SiblingCollision));
    assert_eq!(f.path(), &None);
    assert_eq!(f.folders[0].path(), &None);
    assert_eq!(f.initialise(path(&["top"]), Ok(())), Ok(()));
    assert_eq!(f.folders[0].path(), &Some(path(&["top", "sub"])));
}

#[test]
fn failed_build_gives_the_error() {
    let b = LibraryBuilder::new("Lib");
    assert_eq!(b.build(Err(LibError::SiblingCollision)).unwrap_err(), LibError::SiblingCollision);
    let b = LibraryBuilder::new("Lib");
    assert_eq!(b.build(Err(LibError::Io)).unwrap_err(), LibError::Io);
}

#[test]
fn failed_additions_leave_the_parent_as_it_was() {
    let (mut root, _) = built(LibraryBuilder::new("Lib"));
    let (n, _) = root.new_note("N", vec![], "me", stamp("2025-03-17T00:00:00Z")).unwrap();
    assert_eq!(root.add_note(n, Err(LibError::SiblingCollision)), Err(LibError::SiblingCollision));
    assert!(root.notes.is_empty());
    let (f, _) = root.new_folder("F").unwrap();
    assert_eq!(root.add_folder(f, Err(LibError::Io)), Err(LibError::Io));
    assert!(root.folders.is_empty());
    let (f, _) = root.new_folder("F").unwrap();
    assert_eq!(root.add_folder_at(&vec![], f, Err(LibError::SiblingCollision)), Err(LibError::SiblingCollision));
    assert!(root.folders.is_empty());
}

#[test]
fn classify_by_priority() {
    let lib = || MetaFile::Library(FolderMeta { title: "L".to_string(), tags: vec![] });
    let fol = || MetaFile::Folder(FolderMeta { title: "F".to_string(), tags: vec![] });
    assert_eq!(classify(Probe::Decoded(lib()), Probe::Decoded(fol()), Probe::Absent), Found::Meta(lib()));
    assert_eq!(classify(Probe::Absent, Probe::Decoded(fol()), Probe::Corrupt), Found::Meta(fol()));
    assert_eq!(classify(Probe::Corrupt, Probe::Decoded(fol()), Probe::Absent), Found::Corrupt(MetaKind::Library));
    assert_eq!(classify(Probe::Absent, Probe::Unreadable, Probe::Absent), Found::Unreadable(MetaKind::Folder));
    assert_eq!(classify(Probe::Absent, Probe::Absent, Probe::Corrupt), Found::Corrupt(MetaKind::Note));
    assert_eq!(classify(Probe::Absent, Probe::Absent, Probe::Absent), Found::Missing);
}
