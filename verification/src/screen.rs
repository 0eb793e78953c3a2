//! The decisions of the terminal front-end: which pane has the focus, which
//! list entry is selected, what the input line collects, and which piece of
//! file work a key asks for. The front-end reads keys, does the file work
//! and draws; after file work it reports the new list lengths back here.
use crate::item_db::{item_search, row_view, search_result};
use crate::text::{parse_u32, parsed_u32, trim_text, trimmed};
use vstd::prelude::*;

verus! {

/// Which list the cursor keys move in the main view.
#[derive(Clone, Copy, PartialEq, Eq, Structural, Debug)]
pub enum Focus {
    Snapshots,
    Chars,
}

/// The main split view, the item list of the selected character, or the
/// search of items to add.
#[derive(Clone, Copy, PartialEq, Eq, Structural, Debug)]
pub enum Mode {
    Normal,
    Items,
    AddItem,
}

/// What the input line is collecting, if anything.
#[derive(Clone, Copy, PartialEq, Eq, Structural, Debug)]
pub enum Input {
    Idle,
    NewSnapshot,
    Rename,
    Runes,
    ItemQty,
    AddQty,
}

/// A key as the front-end reports it.
#[derive(Clone, Copy, PartialEq, Eq, Structural, Debug)]
pub enum Key {
    Char(char),
    Up,
    Down,
    Enter,
    Esc,
    Tab,
    Backspace,
    Other,
}

/// The file work that a key asks for.
#[derive(Clone, Copy, PartialEq, Eq, Structural, Debug)]
pub enum Todo {
    Nothing,
    /// Reload the save and the snapshot list.
    Refresh,
    /// Store the quick snapshot.
    SaveQuick,
    /// Restore the quick snapshot.
    LoadQuick,
    /// Restore the snapshot at this index of the list.
    LoadSnapshot(usize),
    /// Delete the snapshot at this index of the list.
    DeleteSnapshot(usize),
    /// Read the owned items of the selected character.
    OpenItems,
    /// Store a snapshot under the committed name.
    SaveNamed,
    /// Rename the selected character to the committed name.
    Rename,
    /// Set the runes of the selected character.
    SetRunes(u32),
    /// Set the quantity of the owned item at this index of the item list.
    SetItemQty(usize, u32),
    /// Give the item at this index of the search results.
    GiveItem(usize, u32),
}

/// The selections, list lengths and modes: everything of the screen but text.
#[derive(Clone, Copy, PartialEq, Eq, Structural, Debug)]
pub struct Cursor {
    pub focus: Focus,
    pub mode: Mode,
    pub input: Input,
    pub char_count: usize,
    pub char_sel: usize,
    pub snap_count: usize,
    pub snap_sel: usize,
    pub item_count: usize,
    pub item_sel: usize,
    pub add_sel: usize,
    pub quit: bool,
}

/// The state of the terminal front-end.
pub struct Screen {
    pub cur: Cursor,
    /// The text typed on the input line.
    pub buffer: String,
    /// The search text of the item search.
    pub query: String,
    /// The items that the search finds: base id and name.
    pub results: Vec<(u32, &'static str)>,
    pub status: String,
}

/// What a key asks of the front-end: the file work, and for a committed name
/// the name.
pub struct Action {
    pub todo: Todo,
    pub text: String,
}

/// `String::push`: appends `c`.
#[verifier::external_body]
fn push_char(s: &mut String, c: char)
    ensures
        final(s)@ == old(s)@.push(c),
{
    s.push(c)
}

/// `String::pop`: removes the last character; an empty string stays empty.
#[verifier::external_body]
fn pop_char(s: &mut String) -> (r: Option<char>)
    ensures
        old(s)@.len() == 0 ==> r is None && final(s)@ == old(s)@,
        old(s)@.len() > 0 ==> r == Some(old(s)@.last()) && final(s)@ == old(s)@.drop_last(),
{
    s.pop()
}

/// Text with its last character removed, if it has one.
pub open spec fn drop_char(s: Seq<char>) -> Seq<char> {
    if s.len() > 0 {
        s.drop_last()
    } else {
        s
    }
}

/// A character is selected in the character list.
pub open spec fn char_selected(c: Cursor) -> bool {
    c.char_sel < c.char_count
}

/// `sel + delta` kept inside a list of `n > 0` entries.
pub open spec fn clamped(sel: usize, delta: int, n: usize) -> usize {
    let t = sel + delta;
    if t < 0 {
        0
    } else if t > n - 1 {
        (n - 1) as usize
    } else {
        t as usize
    }
}

/// The cursor keys in the main view move in the focused list, if it holds
/// anything.
pub open spec fn moved(c: Cursor, delta: int) -> Cursor {
    match c.focus {
        Focus::Snapshots => if c.snap_count == 0 {
            c
        } else {
            Cursor { snap_sel: clamped(c.snap_sel, delta, c.snap_count), ..c }
        },
        Focus::Chars => if c.char_count == 0 {
            c
        } else {
            Cursor { char_sel: clamped(c.char_sel, delta, c.char_count), ..c }
        },
    }
}

/// One step down a list of `n` entries, staying on the last one.
pub open spec fn step_down(sel: usize, n: usize) -> usize {
    if n == 0 {
        sel
    } else if sel + 1 > n - 1 {
        (n - 1) as usize
    } else {
        (sel + 1) as usize
    }
}

/// One step up a list, staying on the first entry.
pub open spec fn step_up(sel: usize) -> usize {
    if sel == 0 {
        0
    } else {
        (sel - 1) as usize
    }
}

/// The search text after `key` in the item search.
pub open spec fn query_after(c: Cursor, key: Key, q: Seq<char>) -> Seq<char> {
    if c.input != Input::Idle {
        q
    } else if c.mode == Mode::Items && key == Key::Char('a') {
        seq![]
    } else if c.mode == Mode::AddItem {
        match key {
            Key::Backspace => drop_char(q),
            Key::Char(ch) => q.push(ch),
            _ => q,
        }
    } else {
        q
    }
}

/// Whether `key` runs the item search again.
pub open spec fn searches(c: Cursor, key: Key) -> bool {
    &&& c.input == Input::Idle
    &&& {
        ||| c.mode == Mode::Items && key == Key::Char('a')
        ||| c.mode == Mode::AddItem && (key == Key::Backspace || key is Char)
    }
}

/// The cursor after `key`; `found` is how many items the search finds when
/// the key runs it, `shown` how many the current results hold.
pub open spec fn cursor_after(c: Cursor, key: Key, found: nat, shown: nat) -> Cursor {
    if c.input != Input::Idle {
        if key == Key::Enter || key == Key::Esc {
            Cursor { input: Input::Idle, ..c }
        } else {
            c
        }
    } else {
        match c.mode {
            Mode::Items => if key == Key::Esc || key == Key::Char('i') || key == Key::Char('q') {
                Cursor { mode: Mode::Normal, ..c }
            } else if key == Key::Down || key == Key::Char('j') {
                Cursor { item_sel: step_down(c.item_sel, c.item_count), ..c }
            } else if key == Key::Up || key == Key::Char('k') {
                Cursor { item_sel: step_up(c.item_sel), ..c }
            } else if key == Key::Enter || key == Key::Char('e') {
                if c.item_count > 0 {
                    Cursor { input: Input::ItemQty, ..c }
                } else {
                    c
                }
            } else if key == Key::Char('a') {
                Cursor { mode: Mode::AddItem, add_sel: 0, ..c }
            } else {
                c
            },
            Mode::AddItem => match key {
                Key::Esc => Cursor { mode: Mode::Items, ..c },
                Key::Up => Cursor { add_sel: step_up(c.add_sel), ..c },
                Key::Down => Cursor { add_sel: step_down(c.add_sel, shown as usize), ..c },
                Key::Enter => if shown > 0 {
                    Cursor { input: Input::AddQty, ..c }
                } else {
                    c
                },
                Key::Backspace | Key::Char(_) => if c.add_sel >= found {
                    Cursor { add_sel: if found == 0 { 0 } else { (found - 1) as usize }, ..c }
                } else {
                    c
                },
                _ => c,
            },
            Mode::Normal => if key == Key::Char('q') || key == Key::Esc {
                Cursor { quit: true, ..c }
            } else if key == Key::Tab {
                Cursor {
                    focus: if c.focus == Focus::Snapshots {
                        Focus::Chars
                    } else {
                        Focus::Snapshots
                    },
                    ..c
                }
            } else if key == Key::Down || key == Key::Char('j') {
                moved(c, 1)
            } else if key == Key::Up || key == Key::Char('k') {
                moved(c, -1)
            } else if key == Key::Char('n') {
                Cursor { input: Input::NewSnapshot, ..c }
            } else if c.focus == Focus::Chars && char_selected(c) && key == Key::Char('g') {
                Cursor { input: Input::Runes, ..c }
            } else if c.focus == Focus::Chars && char_selected(c) && key == Key::Char('R') {
                Cursor { input: Input::Rename, ..c }
            } else {
                c
            },
        }
    }
}

/// Whether `key` starts or ends a use of the input line, which empties it.
pub open spec fn clears_buffer(c: Cursor, key: Key, shown: nat) -> bool {
    let n = cursor_after(c, key, 0, shown);
    ||| c.input != Input::Idle && (key == Key::Enter || key == Key::Esc)
    ||| c.input == Input::Idle && n.input != Input::Idle
}

/// The input line after `key`.
pub open spec fn buffer_after(c: Cursor, key: Key, b: Seq<char>, shown: nat) -> Seq<char> {
    if clears_buffer(c, key, shown) {
        seq![]
    } else if c.input != Input::Idle {
        match key {
            Key::Backspace => drop_char(b),
            Key::Char(ch) => b.push(ch),
            _ => b,
        }
    } else {
        b
    }
}

/// The file work that committing `text` on the input line asks for.
pub open spec fn commit_todo(c: Cursor, text: Seq<char>, shown: nat) -> Todo {
    match c.input {
        Input::NewSnapshot => if text.len() == 0 {
            Todo::Nothing
        } else {
            Todo::SaveNamed
        },
        Input::Rename => if !char_selected(c) || text.len() == 0 {
            Todo::Nothing
        } else {
            Todo::Rename
        },
        Input::Runes => if !char_selected(c) {
            Todo::Nothing
        } else {
            match parsed_u32(text) {
                Some(v) => Todo::SetRunes(v),
                None => Todo::Nothing,
            }
        },
        Input::ItemQty => if !char_selected(c) || c.item_sel >= c.item_count {
            Todo::Nothing
        } else {
            match parsed_u32(text) {
                Some(q) => Todo::SetItemQty(c.item_sel, q),
                None => Todo::Nothing,
            }
        },
        Input::AddQty => if !char_selected(c) {
            Todo::Nothing
        } else {
            match parsed_u32(trimmed(text)) {
                Some(q) => if c.add_sel >= shown {
                    Todo::Nothing
                } else {
                    Todo::GiveItem(c.add_sel, q)
                },
                None => Todo::Nothing,
            }
        },
        Input::Idle => Todo::Nothing,
    }
}

/// The file work that `key` asks for.
pub open spec fn todo_after(c: Cursor, key: Key, b: Seq<char>, shown: nat) -> Todo {
    if c.input != Input::Idle {
        if key == Key::Enter {
            commit_todo(c, trimmed(b), shown)
        } else {
            Todo::Nothing
        }
    } else if c.mode != Mode::Normal {
        Todo::Nothing
    } else if key == Key::Char('r') {
        Todo::Refresh
    } else if key == Key::Char('s') {
        Todo::SaveQuick
    } else if key == Key::Char('l') {
        Todo::LoadQuick
    } else if key == Key::Char('q') || key == Key::Esc || key == Key::Tab || key == Key::Down
        || key == Key::Up || key == Key::Char('j') || key == Key::Char('k') || key == Key::Char(
        'n',
    ) {
        Todo::Nothing
    } else if c.focus == Focus::Snapshots {
        if key == Key::Enter && c.snap_sel < c.snap_count {
            Todo::LoadSnapshot(c.snap_sel)
        } else if key == Key::Char('d') && c.snap_sel < c.snap_count {
            Todo::DeleteSnapshot(c.snap_sel)
        } else {
            Todo::Nothing
        }
    } else if key == Key::Char('i') && char_selected(c) {
        Todo::OpenItems
    } else {
        Todo::Nothing
    }
}

/// The status line shown when the item search opens.
pub open spec fn search_hint() -> Seq<char> {
    "打字过滤 · ↑↓ 选 · Enter 加 · Esc 返回"@
}

/// The status line that a commit sets by itself, if any.
pub open spec fn commit_status(c: Cursor, text: Seq<char>) -> Option<Seq<char>> {
    match c.input {
        Input::NewSnapshot => if text.len() == 0 {
            Some("已取消(空名字)"@)
        } else {
            None
        },
        Input::Rename => if !char_selected(c) {
            Some("没有选中角色"@)
        } else if text.len() == 0 {
            Some("已取消(空名字)"@)
        } else {
            None
        },
        Input::Runes => if !char_selected(c) {
            Some("没有选中角色"@)
        } else if parsed_u32(text) is None {
            Some("请输入一个数字(新卢恩数)"@)
        } else {
            None
        },
        Input::ItemQty => if !char_selected(c) || c.item_sel >= c.item_count {
            None
        } else if parsed_u32(text) is None {
            Some("请输入一个数字"@)
        } else {
            None
        },
        Input::AddQty => if !char_selected(c) {
            Some("没有选中角色"@)
        } else if parsed_u32(trimmed(text)) is None {
            Some("请输入一个数字"@)
        } else {
            None
        },
        Input::Idle => None,
    }
}

/// The status line that `key` sets by itself, if any.
pub open spec fn status_after(c: Cursor, key: Key, b: Seq<char>) -> Option<Seq<char>> {
    if c.input != Input::Idle {
        if key == Key::Enter {
            commit_status(c, trimmed(b))
        } else if key == Key::Esc {
            Some("已取消"@)
        } else {
            None
        }
    } else if c.mode == Mode::Items && key == Key::Char('a') {
        Some(search_hint())
    } else {
        None
    }
}

/// The whole step that `key` makes, over the state before it.
pub open spec fn stepped(old: &Screen, new: &Screen, key: Key, a: &Action) -> bool {
    let c = old.cur;
    let shown = old.results@.len();
    let q = query_after(c, key, old.query@);
    let found = search_result(q).len();
    &&& new.cur == cursor_after(c, key, found, shown)
    &&& new.buffer@ == buffer_after(c, key, old.buffer@, shown)
    &&& new.query@ == q
    &&& searches(c, key) ==> new.results@.map_values(|e: (u32, &str)| row_view(e))
        == search_result(q)
    &&& !searches(c, key) ==> new.results == old.results
    &&& new.status@ == match status_after(c, key, old.buffer@) {
        Some(m) => m,
        None => old.status@,
    }
    &&& a.todo == todo_after(c, key, old.buffer@, shown)
    &&& a.text@ == if c.input != Input::Idle && key == Key::Enter {
        trimmed(old.buffer@)
    } else {
        seq![]
    }
}

fn nothing() -> (a: Action)
    ensures
        a.todo == Todo::Nothing,
        a.text@ == Seq::<char>::empty(),
{
    Action { todo: Todo::Nothing, text: String::new() }
}

fn clamp_move(sel: usize, up: bool, n: usize) -> (r: usize)
    requires
        n > 0,
    ensures
        r == clamped(sel, if up { -1 } else { 1 }, n),
{
    if up {
        if sel == 0 {
            0
        } else if sel - 1 > n - 1 {
            n - 1
        } else {
            sel - 1
        }
    } else if sel >= n - 1 {
        n - 1
    } else {
        sel + 1
    }
}

fn down_one(sel: usize, n: usize) -> (r: usize)
    ensures
        r == step_down(sel, n),
{
    if n == 0 {
        sel
    } else if sel >= n - 1 {
        n - 1
    } else {
        sel + 1
    }
}

fn up_one(sel: usize) -> (r: usize)
    ensures
        r == step_up(sel),
{
    if sel == 0 {
        0
    } else {
        sel - 1
    }
}

impl Screen {
    /// The screen at start: snapshots focused, nothing typed, nothing listed.
    pub fn new() -> (s: Screen)
        ensures
            s.cur == (Cursor {
                focus: Focus::Snapshots,
                mode: Mode::Normal,
                input: Input::Idle,
                char_count: 0,
                char_sel: 0,
                snap_count: 0,
                snap_sel: 0,
                item_count: 0,
                item_sel: 0,
                add_sel: 0,
                quit: false,
            }),
            s.buffer@ == Seq::<char>::empty(),
            s.query@ == Seq::<char>::empty(),
            s.results@.len() == 0,
            s.status@ == "就绪"@,
    {
        Screen {
            cur: Cursor {
                focus: Focus::Snapshots,
                mode: Mode::Normal,
                input: Input::Idle,
                char_count: 0,
                char_sel: 0,
                snap_count: 0,
                snap_sel: 0,
                item_count: 0,
                item_sel: 0,
                add_sel: 0,
                quit: false,
            },
            buffer: String::new(),
            query: String::new(),
            results: Vec::new(),
            status: String::from_str("就绪"),
        }
    }

    /// The selected character's index in the character list, if any.
    pub fn selected_char(&self) -> (r: Option<usize>)
        ensures
            r == if char_selected(self.cur) {
                Some(self.cur.char_sel)
            } else {
                None::<usize>
            },
    {
        if self.cur.char_sel < self.cur.char_count {
            Some(self.cur.char_sel)
        } else {
            None
        }
    }

    /// After the save and the snapshots were read again: the list lengths,
    /// with each selection moved onto its list's last entry if past it.
    pub fn reload(&mut self, char_count: usize, snap_count: usize)
        ensures
            final(self).cur == (Cursor {
                char_count,
                char_sel: if old(self).cur.char_sel >= char_count {
                    if char_count == 0 { 0 } else { (char_count - 1) as usize }
                } else {
                    old(self).cur.char_sel
                },
                snap_count,
                snap_sel: if old(self).cur.snap_sel >= snap_count {
                    if snap_count == 0 { 0 } else { (snap_count - 1) as usize }
                } else {
                    old(self).cur.snap_sel
                },
                ..old(self).cur
            }),
            final(self).buffer == old(self).buffer,
            final(self).query == old(self).query,
            final(self).results == old(self).results,
            final(self).status == old(self).status,
    {
        self.cur.char_count = char_count;
        if self.cur.char_sel >= char_count {
            self.cur.char_sel = if char_count == 0 { 0 } else { char_count - 1 };
        }
        self.cur.snap_count = snap_count;
        if self.cur.snap_sel >= snap_count {
            self.cur.snap_sel = if snap_count == 0 { 0 } else { snap_count - 1 };
        }
    }

    /// The owned items of the selected character were read: the item list
    /// opens on its first entry.
    pub fn items_opened(&mut self, item_count: usize)
        ensures
            final(self).cur == (Cursor { item_count, item_sel: 0, mode: Mode::Items, ..old(self).cur }),
            final(self).buffer == old(self).buffer,
            final(self).query == old(self).query,
            final(self).results == old(self).results,
            final(self).status == old(self).status,
    {
        self.cur.item_count = item_count;
        self.cur.item_sel = 0;
        self.cur.mode = Mode::Items;
    }

    /// The owned items were read again after an edit; an item given returns
    /// to the item list.
    pub fn items_reloaded(&mut self, item_count: usize, back_to_items: bool)
        ensures
            final(self).cur == (Cursor {
                item_count,
                mode: if back_to_items { Mode::Items } else { old(self).cur.mode },
                ..old(self).cur
            }),
            final(self).buffer == old(self).buffer,
            final(self).query == old(self).query,
            final(self).results == old(self).results,
            final(self).status == old(self).status,
    {
        self.cur.item_count = item_count;
        if back_to_items {
            self.cur.mode = Mode::Items;
        }
    }

    fn search(&mut self)
        ensures
            final(self).results@.map_values(|e: (u32, &str)| row_view(e)) == search_result(
                old(self).query@,
            ),
            final(self).cur == old(self).cur,
            final(self).buffer == old(self).buffer,
            final(self).query == old(self).query,
            final(self).status == old(self).status,
    {
        self.results = item_search(self.query.as_str());
    }

    /// Handles one key.
    pub fn press(&mut self, key: Key) -> (a: Action)
        ensures
            stepped(old(self), final(self), key, &a),
    {
        if self.cur.input != Input::Idle {
            self.input_key(key)
        } else {
            match self.cur.mode {
                Mode::Items => self.items_key(key),
                Mode::AddItem => self.search_key(key),
                Mode::Normal => self.main_key(key),
            }
        }
    }

    fn input_key(&mut self, key: Key) -> (a: Action)
        requires
            old(self).cur.input != Input::Idle,
        ensures
            stepped(old(self), final(self), key, &a),
    {
        match key {
            Key::Enter => {
                let text = trim_text(self.buffer.as_str());
                let kind = self.cur.input;
                self.cur.input = Input::Idle;
                self.buffer = String::new();
                let todo = self.commit(kind, &text);
                Action { todo, text }
            },
            Key::Esc => {
                self.cur.input = Input::Idle;
                self.buffer = String::new();
                self.status = String::from_str("已取消");
                nothing()
            },
            Key::Backspace => {
                pop_char(&mut self.buffer);
                nothing()
            },
            Key::Char(ch) => {
                push_char(&mut self.buffer, ch);
                nothing()
            },
            _ => nothing(),
        }
    }

    /// The decision on committed `text`; sets the status line where the
    /// decision alone settles it.
    fn commit(&mut self, kind: Input, text: &String) -> (todo: Todo)
        requires
            kind != Input::Idle,
        ensures
            todo == commit_todo(Cursor { input: kind, ..old(self).cur }, text@, old(self).results@.len()),
            final(self).status@ == match commit_status(Cursor { input: kind, ..old(self).cur }, text@) {
                Some(m) => m,
                None => old(self).status@,
            },
            final(self).cur == old(self).cur,
            final(self).buffer == old(self).buffer,
            final(self).query == old(self).query,
            final(self).results == old(self).results,
    {
        let selected = self.cur.char_sel < self.cur.char_count;
        let n = text.unicode_len();
        match kind {
            Input::NewSnapshot => {
                if n == 0 {
                    self.status = String::from_str("已取消(空名字)");
                    Todo::Nothing
                } else {
                    Todo::SaveNamed
                }
            },
            Input::Rename => {
                if !selected {
                    self.status = String::from_str("没有选中角色");
                    Todo::Nothing
                } else if n == 0 {
                    self.status = String::from_str("已取消(空名字)");
                    Todo::Nothing
                } else {
                    Todo::Rename
                }
            },
            Input::Runes => {
                if !selected {
                    self.status = String::from_str("没有选中角色");
                    return Todo::Nothing;
                }
                match parse_u32(text.as_str()) {
                    Some(v) => Todo::SetRunes(v),
                    None => {
                        self.status = String::from_str("请输入一个数字(新卢恩数)");
                        Todo::Nothing
                    },
                }
            },
            Input::ItemQty => {
                if !selected || self.cur.item_sel >= self.cur.item_count {
                    return Todo::Nothing;
                }
                match parse_u32(text.as_str()) {
                    Some(q) => Todo::SetItemQty(self.cur.item_sel, q),
                    None => {
                        self.status = String::from_str("请输入一个数字");
                        Todo::Nothing
                    },
                }
            },
            Input::AddQty => {
                if !selected {
                    self.status = String::from_str("没有选中角色");
                    return Todo::Nothing;
                }
                let t = trim_text(text.as_str());
                match parse_u32(t.as_str()) {
                    Some(q) => {
                        if self.cur.add_sel >= self.results.len() {
                            Todo::Nothing
                        } else {
                            Todo::GiveItem(self.cur.add_sel, q)
                        }
                    },
                    None => {
                        self.status = String::from_str("请输入一个数字");
                        Todo::Nothing
                    },
                }
            },
            Input::Idle => Todo::Nothing,
        }
    }

    fn items_key(&mut self, key: Key) -> (a: Action)
        requires
            old(self).cur.input == Input::Idle,
            old(self).cur.mode == Mode::Items,
        ensures
            stepped(old(self), final(self), key, &a),
    {
        if key == Key::Esc || key == Key::Char('i') || key == Key::Char('q') {
            self.cur.mode = Mode::Normal;
        } else if key == Key::Down || key == Key::Char('j') {
            self.cur.item_sel = down_one(self.cur.item_sel, self.cur.item_count);
        } else if key == Key::Up || key == Key::Char('k') {
            self.cur.item_sel = up_one(self.cur.item_sel);
        } else if key == Key::Enter || key == Key::Char('e') {
            if self.cur.item_count > 0 {
                self.cur.input = Input::ItemQty;
                self.buffer = String::new();
            }
        } else if key == Key::Char('a') {
            self.query = String::new();
            self.search();
            self.cur.add_sel = 0;
            self.cur.mode = Mode::AddItem;
            self.status = String::from_str("打字过滤 · ↑↓ 选 · Enter 加 · Esc 返回");
        }
        nothing()
    }

    fn search_key(&mut self, key: Key) -> (a: Action)
        requires
            old(self).cur.input == Input::Idle,
            old(self).cur.mode == Mode::AddItem,
        ensures
            stepped(old(self), final(self), key, &a),
    {
        match key {
            Key::Esc => {
                self.cur.mode = Mode::Items;
            },
            Key::Up => {
                self.cur.add_sel = up_one(self.cur.add_sel);
            },
            Key::Down => {
                self.cur.add_sel = down_one(self.cur.add_sel, self.results.len());
            },
            Key::Enter => {
                if self.results.len() > 0 {
                    self.cur.input = Input::AddQty;
                    self.buffer = String::new();
                }
            },
            Key::Backspace => {
                pop_char(&mut self.query);
                self.refilter();
            },
            Key::Char(ch) => {
                push_char(&mut self.query, ch);
                self.refilter();
            },
            _ => {},
        }
        nothing()
    }

    fn refilter(&mut self)
        ensures
            final(self).results@.map_values(|e: (u32, &str)| row_view(e)) == search_result(
                old(self).query@,
            ),
            final(self).cur == (Cursor {
                add_sel: if old(self).cur.add_sel >= search_result(old(self).query@).len() {
                    if search_result(old(self).query@).len() == 0 {
                        0
                    } else {
                        (search_result(old(self).query@).len() - 1) as usize
                    }
                } else {
                    old(self).cur.add_sel
                },
                ..old(self).cur
            }),
            final(self).buffer == old(self).buffer,
            final(self).query == old(self).query,
            final(self).status == old(self).status,
    {
        self.search();
        let n = self.results.len();
        proof {
            assert(self.results@.map_values(|e: (u32, &str)| row_view(e)).len() == n);
        }
        if self.cur.add_sel >= n {
            self.cur.add_sel = if n == 0 { 0 } else { n - 1 };
        }
    }

    fn main_key(&mut self, key: Key) -> (a: Action)
        requires
            old(self).cur.input == Input::Idle,
            old(self).cur.mode == Mode::Normal,
        ensures
            stepped(old(self), final(self), key, &a),
    {
        let selected = self.cur.char_sel < self.cur.char_count;
        if key == Key::Char('q') || key == Key::Esc {
            self.cur.quit = true;
            nothing()
        } else if key == Key::Char('r') {
            Action { todo: Todo::Refresh, text: String::new() }
        } else if key == Key::Tab {
            self.cur.focus = match self.cur.focus {
                Focus::Snapshots => Focus::Chars,
                Focus::Chars => Focus::Snapshots,
            };
            nothing()
        } else if key == Key::Down || key == Key::Char('j') {
            self.move_sel(false);
            nothing()
        } else if key == Key::Up || key == Key::Char('k') {
            self.move_sel(true);
            nothing()
        } else if key == Key::Char('s') {
            Action { todo: Todo::SaveQuick, text: String::new() }
        } else if key == Key::Char('l') {
            Action { todo: Todo::LoadQuick, text: String::new() }
        } else if key == Key::Char('n') {
            self.cur.input = Input::NewSnapshot;
            self.buffer = String::new();
            nothing()
        } else {
            match self.cur.focus {
                Focus::Snapshots => {
                    if key == Key::Enter && self.cur.snap_sel < self.cur.snap_count {
                        Action { todo: Todo::LoadSnapshot(self.cur.snap_sel), text: String::new() }
                    } else if key == Key::Char('d') && self.cur.snap_sel < self.cur.snap_count {
                        Action {
                            todo: Todo::DeleteSnapshot(self.cur.snap_sel),
                            text: String::new(),
                        }
                    } else {
                        nothing()
                    }
                },
                Focus::Chars => {
                    if key == Key::Char('g') && selected {
                        self.cur.input = Input::Runes;
                        self.buffer = String::new();
                        nothing()
                    } else if key == Key::Char('R') && selected {
                        self.cur.input = Input::Rename;
                        self.buffer = String::new();
                        nothing()
                    } else if key == Key::Char('i') && selected {
                        Action { todo: Todo::OpenItems, text: String::new() }
                    } else {
                        nothing()
                    }
                },
            }
        }
    }

    fn move_sel(&mut self, up: bool)
        ensures
            final(self).cur == moved(old(self).cur, if up { -1 } else { 1 }),
            final(self).buffer == old(self).buffer,
            final(self).query == old(self).query,
            final(self).results == old(self).results,
            final(self).status == old(self).status,
    {
        match self.cur.focus {
            Focus::Snapshots => {
                if self.cur.snap_count > 0 {
                    self.cur.snap_sel = clamp_move(self.cur.snap_sel, up, self.cur.snap_count);
                }
            },
            Focus::Chars => {
                if self.cur.char_count > 0 {
                    self.cur.char_sel = clamp_move(self.cur.char_sel, up, self.cur.char_count);
                }
            },
        }
    }
}

} // verus!
