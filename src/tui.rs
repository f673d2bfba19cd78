//! A one-line editor for the console: the host feeds it key presses and
//! shows what it echoes; the line is done at Enter (or abandoned at Esc).
use crate::kernel::push_char;
use vstd::prelude::*;

verus! {

/// A key press, as the editor sees it.
#[derive(Clone, Copy, Debug, PartialEq, Eq, Structural)]
pub enum EditKey {
    Char(char),
    Backspace,
    Left,
    Right,
    Up,
    /// Ctrl-A: to the start of the line.
    Home,
    /// Ctrl-E: to the end of the line.
    End,
    /// Ctrl-K: delete to the end of the line.
    KillToEnd,
    Enter,
    Esc,
    Other,
}

/// What the editor does with a key: text to echo to the terminal, and, when
/// the line is over, the line (`Some(None)` when it was abandoned).
pub struct EditAction {
    pub echo: String,
    pub done: Option<Option<String>>,
}

/// What one key press does to the editor `old`, giving `new` and `r`.
pub open spec fn key_effect(old: ForthLineEditor, new: ForthLineEditor, key: EditKey, r: EditAction) -> bool {
    &&& new.wf()
    &&& 0 <= new.cursor_at() <= new.text().len()
    &&& key matches EditKey::Char(c) ==> new.text() == old.text().insert(old.cursor_at(), c) && new.cursor_at()
        == old.cursor_at() + 1
    &&& key is Backspace && old.cursor_at() > 0 ==> new.text() == old.text().remove(old.cursor_at() - 1)
        && new.cursor_at() == old.cursor_at() - 1
    &&& key is Left ==> new.text() == old.text() && new.cursor_at() == if old.cursor_at() > 0 {
        old.cursor_at() - 1
    } else {
        0
    }
    &&& key is Right ==> new.text() == old.text() && new.cursor_at() == if old.cursor_at() < old.text().len() {
        old.cursor_at() + 1
    } else {
        old.cursor_at()
    }
    &&& key is Home ==> new.text() == old.text() && new.cursor_at() == 0
    &&& key is End ==> new.text() == old.text() && new.cursor_at() == old.text().len()
    &&& key is KillToEnd ==> new.text() == old.text().subrange(0, old.cursor_at())
    &&& key is Enter ==> r.done is Some && r.done->0 is Some && r.done->0->0@ == old.text() && new.text().len() == 0
    &&& key is Esc ==> r.done == Some(None::<String>) && new.text().len() == 0
    &&& !(key is Enter || key is Esc) ==> r.done is None
    &&& key is Up && old.previous() is Some ==> new.text() == old.previous()->0 && new.cursor_at() == new.text().len()
    &&& key is Up && old.previous() is None ==> new.text() == old.text() && new.cursor_at() == old.cursor_at()
    &&& key is Enter ==> new.previous() == Some(old.text())
    &&& !(key is Enter) ==> new.previous() == old.previous()
}

#[derive(Debug)]
pub struct ForthLineEditor {
    buffer: Vec<char>,
    cursor: usize,
    previous_line: Option<Vec<char>>,
}

impl ForthLineEditor {
    pub closed spec fn wf(&self) -> bool {
        self.cursor <= self.buffer@.len()
    }

    pub closed spec fn text(&self) -> Seq<char> {
        self.buffer@
    }

    /// The line entered last, which Up recalls.
    pub closed spec fn previous(&self) -> Option<Seq<char>> {
        match self.previous_line {
            Some(v) => Some(v@),
            None => None,
        }
    }

    pub closed spec fn cursor_at(&self) -> int {
        self.cursor as int
    }

    pub fn new() -> (r: ForthLineEditor)
        ensures
            r.wf(),
            r.text().len() == 0,
            r.cursor_at() == 0,
    {
        ForthLineEditor { buffer: Vec::new(), cursor: 0, previous_line: None }
    }

    /// Applies one key press.
    pub fn handle_key(&mut self, key: EditKey) -> (r: EditAction)
        requires
            old(self).wf(),
            old(self).text().len() < usize::MAX,
        ensures
            final(self).wf(),
            key_effect(*old(self), *final(self), key, r),
    {
        let mut echo = String::new();
        match key {
            EditKey::Char(c) => {
                self.buffer.insert(self.cursor, c);
                self.cursor = self.cursor + 1;
                push_char(&mut echo, c);
            },
            EditKey::Backspace => {
                if self.cursor > 0 {
                    self.cursor = self.cursor - 1;
                    self.buffer.remove(self.cursor);
                    push_char(&mut echo, 8u8 as char);
                    push_char(&mut echo, 32u8 as char);
                    push_char(&mut echo, 8u8 as char);
                }
            },
            EditKey::Left => {
                if self.cursor > 0 {
                    self.cursor = self.cursor - 1;
                    push_escape(&mut echo, 68u8);
                }
            },
            EditKey::Right => {
                if self.cursor < self.buffer.len() {
                    self.cursor = self.cursor + 1;
                    push_escape(&mut echo, 67u8);
                }
            },
            EditKey::Up => {
                if let Some(prev) = &self.previous_line {
                    self.buffer = copy_chars(prev);
                    self.cursor = self.buffer.len();
                    push_char(&mut echo, 13u8 as char);
                    push_escape(&mut echo, 75u8);
                    push_char(&mut echo, 111u8 as char);
                    push_char(&mut echo, 107u8 as char);
                    push_char(&mut echo, 62u8 as char);
                    push_char(&mut echo, 32u8 as char);
                    let mut i: usize = 0;
                    while i < self.buffer.len()
                        invariant
                            i <= self.buffer@.len(),
                            self.cursor == self.buffer@.len(),
                            self.previous_line == old(self).previous_line,
                            self.previous_line matches Some(p) && self.buffer@ == p@,
                        decreases self.buffer@.len() - i,
                    {
                        push_char(&mut echo, self.buffer[i]);
                        i = i + 1;
                    }
                }
            },
            EditKey::Home => {
                while self.cursor > 0
                    invariant
                        self.cursor <= self.buffer@.len(),
                        self.buffer@ == old(self).buffer@,
                        self.previous_line == old(self).previous_line,
                    decreases self.cursor,
                {
                    self.cursor = self.cursor - 1;
                    push_escape(&mut echo, 68u8);
                }
            },
            EditKey::End => {
                while self.cursor < self.buffer.len()
                    invariant
                        self.cursor <= self.buffer@.len(),
                        self.buffer@ == old(self).buffer@,
                        self.previous_line == old(self).previous_line,
                    decreases self.buffer@.len() - self.cursor,
                {
                    self.cursor = self.cursor + 1;
                    push_escape(&mut echo, 67u8);
                }
            },
            EditKey::KillToEnd => {
                push_escape(&mut echo, 75u8);
                self.buffer.truncate(self.cursor);
            },
            EditKey::Enter => {
                let line = chars_to_string(&self.buffer);
                self.previous_line = Some(copy_chars(&self.buffer));
                self.buffer = Vec::new();
                self.cursor = 0;
                push_char(&mut echo, 13u8 as char);
                push_char(&mut echo, 10u8 as char);
                return EditAction { echo, done: Some(Some(line)) };
            },
            EditKey::Esc => {
                self.buffer = Vec::new();
                self.cursor = 0;
                push_char(&mut echo, 13u8 as char);
                push_char(&mut echo, 10u8 as char);
                return EditAction { echo, done: Some(None) };
            },
            EditKey::Other => {},
        }
        EditAction { echo, done: None }
    }
}

/// The console's line source: an editor that keeps the previous line.
#[derive(Debug)]
pub struct ForthTui {
    editor: ForthLineEditor,
}

impl ForthTui {
    pub closed spec fn wf(&self) -> bool {
        self.editor.wf()
    }

    /// The line being edited.
    pub closed spec fn text(&self) -> Seq<char> {
        self.editor.text()
    }

    /// The editor's state.
    pub closed spec fn editor_state(&self) -> ForthLineEditor {
        self.editor
    }

    pub fn new() -> (r: Result<ForthTui, ()>)
        ensures
            r is Ok,
            r->Ok_0.wf(),
    {
        Ok(ForthTui { editor: ForthLineEditor::new() })
    }

    /// Feeds one key press to the editor; the line comes back in `done`
    /// once Enter (or Esc) is pressed.
    pub fn get_line(&mut self, key: EditKey) -> (r: EditAction)
        requires
            old(self).wf(),
            old(self).text().len() < usize::MAX,
        ensures
            final(self).wf(),
            key_effect(old(self).editor_state(), final(self).editor_state(), key, r),
            final(self).text() == final(self).editor_state().text(),
            old(self).text() == old(self).editor_state().text(),
    {
        self.editor.handle_key(key)
    }
}

/// Writes the escape sequence ESC [ `code`.
fn push_escape(out: &mut String, code: u8)
    ensures
        final(out)@ == old(out)@ + seq![27u8 as char, 91u8 as char, code as char],
{
    push_char(out, 27u8 as char);
    push_char(out, 91u8 as char);
    push_char(out, code as char);
    assert(final(out)@ =~= old(out)@ + seq![27u8 as char, 91u8 as char, code as char]);
}

fn copy_chars(v: &Vec<char>) -> (r: Vec<char>)
    ensures
        r@ == v@,
{
    let mut r: Vec<char> = Vec::new();
    let mut i: usize = 0;
    while i < v.len()
        invariant
            i <= v@.len(),
            r@ == v@.subrange(0, i as int),
        decreases v@.len() - i,
    {
        r.push(v[i]);
        i = i + 1;
        assert(r@ =~= v@.subrange(0, i as int));
    }
    assert(v@.subrange(0, v@.len() as int) =~= v@);
    r
}

fn chars_to_string(v: &Vec<char>) -> (r: String)
    ensures
        r@ == v@,
{
    let mut r = String::new();
    let mut i: usize = 0;
    while i < v.len()
        invariant
            i <= v@.len(),
            r@ == v@.subrange(0, i as int),
        decreases v@.len() - i,
    {
        push_char(&mut r, v[i]);
        i = i + 1;
        assert(r@ =~= v@.subrange(0, i as int));
    }
    assert(v@.subrange(0, v@.len() as int) =~= v@);
    r
}


} // verus!
