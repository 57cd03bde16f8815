//! A line of text under edit.

use vstd::prelude::*;
use crate::text::text_from;

verus! {

/// A key as the line editor sees it.
#[derive(Clone, Copy, Debug, PartialEq, Eq, Structural)]
pub enum Key {
    Char(char),
    Backspace,
    Delete,
    Left,
    Right,
    Home,
    End,
    /// Any key that the editor has no use for.
    Other,
}

/// The text of a line and the place of the cursor in it.
pub struct Line {
    pub text: Seq<char>,
    pub cursor: nat,
}

impl Line {
    /// What a key makes of a line: a character goes in at the cursor,
    /// backspace takes out the character before it, delete the one under
    /// it, and the rest move the cursor within the text.
    pub open spec fn after(self, key: Key) -> Line {
        match key {
            Key::Char(c) => Line {
                text: self.text.insert(self.cursor as int, c),
                cursor: self.cursor + 1,
            },
            Key::Backspace => if self.cursor > 0 {
                Line {
                    text: self.text.remove(self.cursor - 1),
                    cursor: (self.cursor - 1) as nat,
                }
            } else {
                self
            },
            Key::Delete => if self.cursor < self.text.len() {
                Line { text: self.text.remove(self.cursor as int), ..self }
            } else {
                self
            },
            Key::Left => if self.cursor > 0 {
                Line { cursor: (self.cursor - 1) as nat, ..self }
            } else {
                self
            },
            Key::Right => if self.cursor < self.text.len() {
                Line { cursor: self.cursor + 1, ..self }
            } else {
                self
            },
            Key::Home => Line { cursor: 0, ..self },
            Key::End => Line { cursor: self.text.len(), ..self },
            Key::Other => self,
        }
    }
}

pub struct InputWidget {
    text: Vec<char>,
    cursor_position: usize,
}

impl View for InputWidget {
    type V = Line;

    closed spec fn view(&self) -> Line {
        Line { text: self.text@, cursor: self.cursor_position as nat }
    }
}

impl InputWidget {
    /// The cursor stands in the text or at its end.
    pub open spec fn wf(&self) -> bool {
        self@.cursor <= self@.text.len()
    }

    pub fn new() -> (w: Self)
        ensures
            w.wf(),
            w@ == (Line { text: Seq::empty(), cursor: 0 }),
    {
        InputWidget { text: Vec::new(), cursor_position: 0 }
    }

    pub fn get_text(&self) -> (text: String)
        ensures
            text@ == self@.text,
    {
        text_from(&self.text)
    }

    /// The place of the cursor, counted in characters.
    pub fn cursor_position(&self) -> (at: usize)
        ensures
            at == self@.cursor,
    {
        self.cursor_position
    }

    pub fn clear(&mut self)
        ensures
            final(self).wf(),
            final(self)@ == (Line { text: Seq::empty(), cursor: 0 }),
    {
        self.text = Vec::new();
        self.cursor_position = 0;
    }

    /// Takes a key.
    pub fn handle_key(&mut self, key: Key)
        requires
            old(self).wf(),
        ensures
            final(self).wf(),
            final(self)@ == old(self)@.after(key),
    {
        match key {
            Key::Char(c) => {
                self.text.insert(self.cursor_position, c);
                let len = self.text.len();
                assert(self.cursor_position < len);
                self.cursor_position += 1;
            },
            Key::Backspace => {
                if self.cursor_position > 0 {
                    self.cursor_position -= 1;
                    self.text.remove(self.cursor_position);
                }
            },
            Key::Delete => {
                if self.cursor_position < self.text.len() {
                    self.text.remove(self.cursor_position);
                }
            },
            Key::Left => {
                if self.cursor_position > 0 {
                    self.cursor_position -= 1;
                }
            },
            Key::Right => {
                if self.cursor_position < self.text.len() {
                    self.cursor_position += 1;
                }
            },
            Key::Home => {
                self.cursor_position = 0;
            },
            Key::End => {
                self.cursor_position = self.text.len();
            },
            Key::Other => {},
        }
    }
}

impl Default for InputWidget {
    fn default() -> (w: Self)
        ensures
            w.wf(),
            w@ == (Line { text: Seq::empty(), cursor: 0 }),
    {
        InputWidget::new()
    }
}

} // verus!
