//! Browsing the tree: a stack of open folders and a cursor over the items of
//! the innermost one.
use vstd::prelude::*;
use crate::library::{with_folder, with_note};
use crate::store::{child_path, placed_tree, LibError};
use crate::tree::{child_of, nested, Folder, FolderV, Note, NoteV};

verus! {

/// A command of the browser.
#[derive(Debug, Clone, Copy, PartialEq, Eq, Structural)]
pub enum MenuAction {
    ScrollUp,
    ScrollDown,
    SelectItem,
    AddNote,
    AddFolder,
    Back,
    Quit,
}

/// What the caller does after a command.
#[derive(Debug, Clone, Copy, PartialEq, Eq, Structural)]
pub enum Effect {
    /// Show the innermost folder again.
    Redraw,
    /// Open the note with this index in the innermost folder in the editor.
    Edit(usize),
    /// Ask for a new note's fields and add it to the innermost folder.
    PromptNote,
    /// Ask for a new folder's title and add it to the innermost folder.
    PromptFolder,
    /// Leave the browser.
    Exit,
}

/// A key pressed in the browser.
#[derive(Debug, Clone, Copy, PartialEq, Eq, Structural)]
pub enum Key {
    Up,
    Down,
    Enter,
    Backspace,
    Char(char),
    Other,
}

/// The command bound to a key, if any.
pub open spec fn action_of(k: Key) -> Option<MenuAction> {
    match k {
        Key::Up | Key::Char('k') => Some(MenuAction::ScrollUp),
        Key::Down | Key::Char('j') => Some(MenuAction::ScrollDown),
        Key::Enter | Key::Char('l') => Some(MenuAction::SelectItem),
        Key::Backspace | Key::Char('h') => Some(MenuAction::Back),
        Key::Char('q') => Some(MenuAction::Quit),
        Key::Char('n') => Some(MenuAction::AddNote),
        Key::Char('N') => Some(MenuAction::AddFolder),
        _ => None,
    }
}

impl Key {
    /// The command bound to this key: arrows and `k`/`j` scroll, Enter and
    /// `l` select, Backspace and `h` go back, `q` quits, `n` adds a note and
    /// `N` a folder.
    pub fn action(self) -> (r: Option<MenuAction>)
        ensures
            r == action_of(self),
    {
        match self {
            Key::Up | Key::Char('k') => Some(MenuAction::ScrollUp),
            Key::Down | Key::Char('j') => Some(MenuAction::ScrollDown),
            Key::Enter | Key::Char('l') => Some(MenuAction::SelectItem),
            Key::Backspace | Key::Char('h') => Some(MenuAction::Back),
            Key::Char('q') => Some(MenuAction::Quit),
            Key::Char('n') => Some(MenuAction::AddNote),
            Key::Char('N') => Some(MenuAction::AddFolder),
            _ => None,
        }
    }
}

/// The browser's state. `stack` holds, from the root down, the index among
/// its siblings of each folder opened; the root is the outermost frame.
/// Items of a folder are its notes, then its child folders; `cursor` is
/// the selected one.
#[derive(Debug)]
pub struct Nav {
    pub stack: Vec<usize>,
    pub cursor: usize,
    pub exited: bool,
}

pub struct NavV {
    pub stack: Seq<usize>,
    pub cursor: int,
    pub exited: bool,
}

impl View for Nav {
    type V = NavV;

    open spec fn view(&self) -> NavV {
        NavV { stack: self.stack@, cursor: self.cursor as int, exited: self.exited }
    }
}

/// Each index of `s` names a child folder of the folder reached before it.
pub open spec fn valid_path(g: FolderV, s: Seq<usize>) -> bool
    decreases s.len(),
{
    s.len() == 0 || (s[0] < g.folders.len() && valid_path(g.folders[s[0] as int], s.drop_first()))
}

/// The folder reached from `g` by the indices of `s`.
pub open spec fn at(g: FolderV, s: Seq<usize>) -> FolderV
    decreases s.len(),
{
    if s.len() == 0 || s[0] >= g.folders.len() {
        g
    } else {
        at(g.folders[s[0] as int], s.drop_first())
    }
}

/// `g` with the folder reached by `s` made `h`.
pub open spec fn replace_at(g: FolderV, s: Seq<usize>, h: FolderV) -> FolderV
    decreases s.len(),
{
    if s.len() == 0 || s[0] >= g.folders.len() {
        h
    } else {
        FolderV {
            folders: g.folders.update(s[0] as int, replace_at(g.folders[s[0] as int], s.drop_first(), h)),
            ..g
        }
    }
}

/// The number of items a folder shows: its notes and its child folders.
pub open spec fn item_count(g: FolderV) -> int {
    (g.notes.len() + g.folders.len()) as int
}

/// The cursor selects an item, or is 0 where there is none.
pub open spec fn cursor_ok(c: int, n: int) -> bool {
    if n == 0 {
        c == 0
    } else {
        0 <= c < n
    }
}

pub open spec fn nav_wf(n: NavV, g: FolderV) -> bool {
    valid_path(g, n.stack) && cursor_ok(n.cursor, item_count(at(g, n.stack)))
}

/// One command on the browser over the tree `g`.
pub open spec fn step_spec(n: NavV, g: FolderV, a: MenuAction) -> (NavV, Effect) {
    let top = at(g, n.stack);
    let count = item_count(top);
    let notes = top.notes.len() as int;
    match a {
        MenuAction::ScrollUp => (
            NavV {
                cursor: if n.cursor > 0 {
                    n.cursor - 1
                } else {
                    0
                },
                ..n
            },
            Effect::Redraw,
        ),
        MenuAction::ScrollDown => (
            NavV {
                cursor: if n.cursor + 1 < count {
                    n.cursor + 1
                } else {
                    n.cursor
                },
                ..n
            },
            Effect::Redraw,
        ),
        MenuAction::SelectItem => if n.cursor < notes {
            (n, Effect::Edit(n.cursor as usize))
        } else if n.cursor < count {
            (NavV { stack: n.stack.push((n.cursor - notes) as usize), cursor: 0, ..n }, Effect::Redraw)
        } else {
            (n, Effect::Redraw)
        },
        MenuAction::AddNote => (n, Effect::PromptNote),
        MenuAction::AddFolder => (n, Effect::PromptFolder),
        MenuAction::Back => if n.stack.len() == 0 {
            (NavV { exited: true, ..n }, Effect::Exit)
        } else {
            (NavV { stack: n.stack.drop_last(), cursor: 0, ..n }, Effect::Redraw)
        },
        MenuAction::Quit => (NavV { exited: true, ..n }, Effect::Exit),
    }
}

proof fn lemma_push(g: FolderV, s: Seq<usize>, j: usize)
    requires
        valid_path(g, s),
        j < at(g, s).folders.len(),
    ensures
        valid_path(g, s.push(j)),
        at(g, s.push(j)) == at(g, s).folders[j as int],
    decreases s.len(),
{
    let t = s.push(j);
    if s.len() > 0 {
        assert(t.drop_first() =~= s.drop_first().push(j));
        assert(t[0] == s[0]);
        lemma_push(g.folders[s[0] as int], s.drop_first(), j);
    } else {
        assert(t.drop_first() =~= Seq::<usize>::empty());
        assert(t[0] == j);
        assert(valid_path(g.folders[j as int], t.drop_first()));
        assert(at(g.folders[j as int], t.drop_first()) == g.folders[j as int]);
    }
}

proof fn lemma_pop(g: FolderV, s: Seq<usize>)
    requires
        valid_path(g, s),
        s.len() > 0,
    ensures
        valid_path(g, s.drop_last()),
    decreases s.len(),
{
    if s.len() > 1 {
        assert(s.drop_last().drop_first() =~= s.drop_first().drop_last());
        lemma_pop(g.folders[s[0] as int], s.drop_first());
    }
}

proof fn lemma_replace(g: FolderV, s: Seq<usize>, h: FolderV)
    requires
        valid_path(g, s),
        h.folders.len() >= at(g, s).folders.len(),
    ensures
        valid_path(replace_at(g, s, h), s),
        at(replace_at(g, s, h), s) == h,
    decreases s.len(),
{
    if s.len() > 0 {
        lemma_replace(g.folders[s[0] as int], s.drop_first(), h);
    }
}

proof fn lemma_at_nested(g: FolderV, s: Seq<usize>)
    requires
        nested(g),
        valid_path(g, s),
    ensures
        nested(at(g, s)),
    decreases s.len(),
{
    if s.len() > 0 {
        lemma_at_nested(g.folders[s[0] as int], s.drop_first());
    }
}

proof fn lemma_replace_nested(g: FolderV, s: Seq<usize>, h: FolderV)
    requires
        nested(g),
        valid_path(g, s),
        nested(h),
        h.path == at(g, s).path,
    ensures
        nested(replace_at(g, s, h)),
        replace_at(g, s, h).path == g.path,
    decreases s.len(),
{
    if s.len() > 0 {
        let j = s[0] as int;
        lemma_replace_nested(g.folders[j], s.drop_first(), h);
        let r = replace_at(g, s, h);
        assert forall|i: int| 0 <= i < r.folders.len() implies child_of(
            (#[trigger] r.folders[i]).path,
            r.path->Some_0,
        ) && nested(r.folders[i]) by {
            if i != j {
                assert(r.folders[i] == g.folders[i]);
            }
        }
        assert forall|i: int| 0 <= i < r.notes.len() implies child_of(
            #[trigger] r.notes[i].path,
            r.path->Some_0,
        ) by {
            assert(r.notes[i] == g.notes[i]);
        }
    }
}

/// Appending a note whose directory lies directly inside that of the open
/// folder keeps every node's directory directly inside its parent's.
pub proof fn lemma_add_note_nested(g: FolderV, s: Seq<usize>, n: NoteV)
    requires
        nested(g),
        valid_path(g, s),
        child_of(n.path, at(g, s).path->Some_0),
    ensures
        nested(replace_at(g, s, with_note(at(g, s), n))),
{
    lemma_at_nested(g, s);
    let t = at(g, s);
    let h = with_note(t, n);
    assert forall|i: int| 0 <= i < h.notes.len() implies child_of(#[trigger] h.notes[i].path, h.path->Some_0) by {
        if i < t.notes.len() {
            assert(h.notes[i] == t.notes[i]);
        }
    }
    assert forall|i: int| 0 <= i < h.folders.len() implies child_of(
        (#[trigger] h.folders[i]).path,
        h.path->Some_0,
    ) && nested(h.folders[i]) by {
        assert(h.folders[i] == t.folders[i]);
    }
    lemma_replace_nested(g, s, h);
}

/// Appending a folder, nested itself, whose directory lies directly inside
/// that of the open folder keeps every node's directory directly inside its
/// parent's.
pub proof fn lemma_add_folder_nested(g: FolderV, s: Seq<usize>, c: FolderV)
    requires
        nested(g),
        valid_path(g, s),
        nested(c),
        child_of(c.path, at(g, s).path->Some_0),
    ensures
        nested(replace_at(g, s, with_folder(at(g, s), c))),
{
    lemma_at_nested(g, s);
    let t = at(g, s);
    let h = with_folder(t, c);
    assert forall|i: int| 0 <= i < h.notes.len() implies child_of(#[trigger] h.notes[i].path, h.path->Some_0) by {
        assert(h.notes[i] == t.notes[i]);
    }
    assert forall|i: int| 0 <= i < h.folders.len() implies child_of(
        (#[trigger] h.folders[i]).path,
        h.path->Some_0,
    ) && nested(h.folders[i]) by {
        if i < t.folders.len() {
            assert(h.folders[i] == t.folders[i]);
        }
    }
    lemma_replace_nested(g, s, h);
}

proof fn lemma_at_placed(g: FolderV, s: Seq<usize>)
    requires
        placed_tree(g),
        valid_path(g, s),
    ensures
        placed_tree(at(g, s)),
    decreases s.len(),
{
    if s.len() > 0 {
        lemma_at_placed(g.folders[s[0] as int], s.drop_first());
    }
}

proof fn lemma_replace_placed(g: FolderV, s: Seq<usize>, h: FolderV)
    requires
        placed_tree(g),
        valid_path(g, s),
        placed_tree(h),
        h.path == at(g, s).path,
        h.meta == at(g, s).meta,
    ensures
        placed_tree(replace_at(g, s, h)),
        replace_at(g, s, h).path == g.path,
        replace_at(g, s, h).meta == g.meta,
    decreases s.len(),
{
    if s.len() > 0 {
        let j = s[0] as int;
        lemma_replace_placed(g.folders[j], s.drop_first(), h);
        let r = replace_at(g, s, h);
        assert forall|i: int| 0 <= i < r.folders.len() implies (#[trigger] r.folders[i]).path == Some(
            child_path(r.path->Some_0, r.folders[i].meta.title),
        ) && placed_tree(r.folders[i]) by {
            if i != j {
                assert(r.folders[i] == g.folders[i]);
            }
        }
        assert forall|i: int| 0 <= i < r.notes.len() implies (#[trigger] r.notes[i]).path == Some(
            child_path(r.path->Some_0, r.notes[i].meta.title),
        ) by {
            assert(r.notes[i] == g.notes[i]);
        }
    }
}

/// Appending a note placed under the open folder keeps a placed tree placed.
pub proof fn lemma_add_note_placed(g: FolderV, s: Seq<usize>, n: NoteV)
    requires
        placed_tree(g),
        valid_path(g, s),
        n.path == Some(child_path(at(g, s).path->Some_0, n.meta.title)),
    ensures
        placed_tree(replace_at(g, s, with_note(at(g, s), n))),
{
    lemma_at_placed(g, s);
    let t = at(g, s);
    let h = with_note(t, n);
    assert forall|i: int| 0 <= i < h.notes.len() implies (#[trigger] h.notes[i]).path == Some(
        child_path(h.path->Some_0, h.notes[i].meta.title),
    ) by {
        if i < t.notes.len() {
            assert(h.notes[i] == t.notes[i]);
        }
    }
    assert forall|i: int| 0 <= i < h.folders.len() implies (#[trigger] h.folders[i]).path == Some(
        child_path(h.path->Some_0, h.folders[i].meta.title),
    ) && placed_tree(h.folders[i]) by {
        assert(h.folders[i] == t.folders[i]);
    }
    lemma_replace_placed(g, s, h);
}

/// Appending a placed folder placed under the open folder keeps a placed
/// tree placed.
pub proof fn lemma_add_folder_placed(g: FolderV, s: Seq<usize>, c: FolderV)
    requires
        placed_tree(g),
        valid_path(g, s),
        placed_tree(c),
        c.path == Some(child_path(at(g, s).path->Some_0, c.meta.title)),
    ensures
        placed_tree(replace_at(g, s, with_folder(at(g, s), c))),
{
    lemma_at_placed(g, s);
    let t = at(g, s);
    let h = with_folder(t, c);
    assert forall|i: int| 0 <= i < h.notes.len() implies (#[trigger] h.notes[i]).path == Some(
        child_path(h.path->Some_0, h.notes[i].meta.title),
    ) by {
        assert(h.notes[i] == t.notes[i]);
    }
    assert forall|i: int| 0 <= i < h.folders.len() implies (#[trigger] h.folders[i]).path == Some(
        child_path(h.path->Some_0, h.folders[i].meta.title),
    ) && placed_tree(h.folders[i]) by {
        if i < t.folders.len() {
            assert(h.folders[i] == t.folders[i]);
        }
    }
    lemma_replace_placed(g, s, h);
}

/// The state after the commands `acts`, one after another.
pub open spec fn run(n: NavV, g: FolderV, acts: Seq<MenuAction>) -> NavV
    decreases acts.len(),
{
    if acts.len() == 0 {
        n
    } else {
        run(step_spec(n, g, acts[0]).0, g, acts.drop_first())
    }
}

pub open spec fn is_scroll(a: MenuAction) -> bool {
    a == MenuAction::ScrollUp || a == MenuAction::ScrollDown
}

/// However the cursor is scrolled up and down, it stays on an item of the
/// open folder (on 0 where it has none), and the folder stays open.
pub proof fn lemma_scrolls_keep_cursor(n: NavV, g: FolderV, acts: Seq<MenuAction>)
    requires
        nav_wf(n, g),
        forall|i: int| 0 <= i < acts.len() ==> is_scroll(#[trigger] acts[i]),
    ensures
        nav_wf(run(n, g, acts), g),
        run(n, g, acts).stack == n.stack,
        run(n, g, acts).exited == n.exited,
        cursor_ok(run(n, g, acts).cursor, item_count(at(g, n.stack))),
    decreases acts.len(),
{
    if acts.len() > 0 {
        assert(is_scroll(acts[0]));
        let n2 = step_spec(n, g, acts[0]).0;
        assert forall|i: int| 0 <= i < acts.drop_first().len() implies is_scroll(
            #[trigger] acts.drop_first()[i],
        ) by {
            assert(acts.drop_first()[i] == acts[i + 1]);
        }
        lemma_scrolls_keep_cursor(n2, g, acts.drop_first());
    }
}

/// `Back` from the root leaves the browser; from a folder below it, it
/// returns to the parent with the cursor on the first item.
pub proof fn lemma_back(n: NavV, g: FolderV)
    requires
        nav_wf(n, g),
    ensures
        n.stack.len() == 0 ==> step_spec(n, g, MenuAction::Back) == (
            NavV { exited: true, ..n },
            Effect::Exit,
        ),
        n.stack.len() > 0 ==> {
            let m = step_spec(n, g, MenuAction::Back).0;
            &&& m.stack == n.stack.drop_last()
            &&& m.cursor == 0
            &&& m.exited == n.exited
            &&& nav_wf(m, g)
        },
{
    if n.stack.len() > 0 {
        lemma_pop(g, n.stack);
    }
}

impl Nav {
    /// A browser at the root, with the first item selected.
    pub fn new() -> (r: Nav)
        ensures
            r@ == (NavV { stack: Seq::empty(), cursor: 0, exited: false }),
    {
        Nav { stack: Vec::new(), cursor: 0, exited: false }
    }

    /// Carries out one command over the tree `root`. Scrolling stays within
    /// the items, without wrapping; selecting a folder opens it with the
    /// cursor at its first item; `Back` closes the innermost folder, or
    /// leaves from the root; `Quit` leaves from anywhere.
    pub fn step(&mut self, root: &Folder, action: MenuAction) -> (e: Effect)
        requires
            nav_wf(old(self)@, root@),
            item_count(at(root@, old(self)@.stack)) <= usize::MAX,
        ensures
            (final(self)@, e) == step_spec(old(self)@, root@, action),
            !final(self)@.exited ==> nav_wf(final(self)@, root@),
    {
        let top = root.folder_at(&self.stack);
        let notes = top.notes.len();
        let count = notes + top.folders.len();
        match action {
            MenuAction::ScrollUp => {
                if self.cursor > 0 {
                    self.cursor = self.cursor - 1;
                }
                Effect::Redraw
            },
            MenuAction::ScrollDown => {
                if self.cursor + 1 < count {
                    self.cursor = self.cursor + 1;
                }
                Effect::Redraw
            },
            MenuAction::SelectItem => {
                if self.cursor < notes {
                    Effect::Edit(self.cursor)
                } else if self.cursor < count {
                    proof {
                        lemma_push(root@, self.stack@, (self.cursor - notes) as usize);
                    }
                    self.stack.push(self.cursor - notes);
                    self.cursor = 0;
                    Effect::Redraw
                } else {
                    Effect::Redraw
                }
            },
            MenuAction::AddNote => Effect::PromptNote,
            MenuAction::AddFolder => Effect::PromptFolder,
            MenuAction::Back => {
                if self.stack.len() == 0 {
                    self.exited = true;
                    Effect::Exit
                } else {
                    proof {
                        lemma_pop(root@, self.stack@);
                    }
                    self.stack.pop();
                    self.cursor = 0;
                    Effect::Redraw
                }
            },
            MenuAction::Quit => {
                self.exited = true;
                Effect::Exit
            },
        }
    }
}

impl Folder {
    fn folder_at_from(&self, stack: &Vec<usize>, i: usize) -> (r: &Folder)
        requires
            i <= stack@.len(),
            valid_path(self@, stack@.skip(i as int)),
        ensures
            r@ == at(self@, stack@.skip(i as int)),
        decreases stack@.len() - i,
    {
        if i == stack.len() {
            self
        } else {
            let j = stack[i];
            assert(stack@.skip(i as int).drop_first() =~= stack@.skip(i as int + 1));
            assert(self@.folders[j as int] == self.folders@[j as int]@);
            self.folders[j].folder_at_from(stack, i + 1)
        }
    }

    /// The folder reached from this one by the indices of `stack`.
    pub fn folder_at(&self, stack: &Vec<usize>) -> (r: &Folder)
        requires
            valid_path(self@, stack@),
        ensures
            r@ == at(self@, stack@),
    {
        assert(stack@.skip(0) =~= stack@);
        self.folder_at_from(stack, 0)
    }

    fn add_note_from(&mut self, stack: &Vec<usize>, i: usize, note: Note)
        requires
            i <= stack@.len(),
            valid_path(old(self)@, stack@.skip(i as int)),
        ensures
            final(self)@ == replace_at(
                old(self)@,
                stack@.skip(i as int),
                with_note(at(old(self)@, stack@.skip(i as int)), note@),
            ),
        decreases stack@.len() - i,
    {
        if i == stack.len() {
            self.push_note(note);
        } else {
            let ghost g = self@;
            let j = stack[i];
            assert(stack@.skip(i as int).drop_first() =~= stack@.skip(i as int + 1));
            let mut child = self.folders.remove(j);
            assert(child@ == g.folders[j as int]);
            child.add_note_from(stack, i + 1, note);
            self.folders.insert(j, child);
            assert(self@.folders =~= g.folders.update(j as int, child@));
            assert(self@.notes =~= g.notes);
        }
    }

    /// Appends `note` to the folder reached by the indices of `stack`.
    pub fn add_note_at(&mut self, stack: &Vec<usize>, note: Note, written: Result<(), LibError>) -> (r: Result<
        (),
        LibError,
    >)
        requires
            valid_path(old(self)@, stack@),
        ensures
            r == written,
            written is Ok ==> final(self)@ == replace_at(
                old(self)@,
                stack@,
                with_note(at(old(self)@, stack@), note@),
            ),
            written is Err ==> final(self)@ == old(self)@,
            valid_path(final(self)@, stack@),
            written is Ok ==> at(final(self)@, stack@) == with_note(at(old(self)@, stack@), note@),
    {
        match written {
            Ok(_) => {
                proof {
                    lemma_replace(self@, stack@, with_note(at(self@, stack@), note@));
                }
                assert(stack@.skip(0) =~= stack@);
                self.add_note_from(stack, 0, note);
                written
            },
            Err(_) => written,
        }
    }

    fn add_folder_from(&mut self, stack: &Vec<usize>, i: usize, folder: Folder)
        requires
            i <= stack@.len(),
            valid_path(old(self)@, stack@.skip(i as int)),
        ensures
            final(self)@ == replace_at(
                old(self)@,
                stack@.skip(i as int),
                with_folder(at(old(self)@, stack@.skip(i as int)), folder@),
            ),
        decreases stack@.len() - i,
    {
        if i == stack.len() {
            self.push_folder(folder);
        } else {
            let ghost g = self@;
            let j = stack[i];
            assert(stack@.skip(i as int).drop_first() =~= stack@.skip(i as int + 1));
            let mut child = self.folders.remove(j);
            assert(child@ == g.folders[j as int]);
            child.add_folder_from(stack, i + 1, folder);
            self.folders.insert(j, child);
            assert(self@.folders =~= g.folders.update(j as int, child@));
            assert(self@.notes =~= g.notes);
        }
    }

    /// Appends `folder` to the child folders of the folder reached by the
    /// indices of `stack`.
    pub fn add_folder_at(&mut self, stack: &Vec<usize>, folder: Folder, written: Result<(), LibError>) -> (r: Result<
        (),
        LibError,
    >)
        requires
            valid_path(old(self)@, stack@),
        ensures
            r == written,
            written is Ok ==> final(self)@ == replace_at(
                old(self)@,
                stack@,
                with_folder(at(old(self)@, stack@), folder@),
            ),
            written is Err ==> final(self)@ == old(self)@,
            valid_path(final(self)@, stack@),
            written is Ok ==> at(final(self)@, stack@) == with_folder(at(old(self)@, stack@), folder@),
    {
        match written {
            Ok(_) => {
                proof {
                    lemma_replace(self@, stack@, with_folder(at(self@, stack@), folder@));
                }
                assert(stack@.skip(0) =~= stack@);
                self.add_folder_from(stack, 0, folder);
                written
            },
            Err(_) => written,
        }
    }
}

} // verus!
