//! The input state: the edit buffer, the input mode and the suggestion
//! text, mutated by the presentation thread on key input and by application
//! commands.

use vstd::prelude::*;

use crate::wrap::Wrapped;
use crate::ConsoleEvent;

verus! {

/// How typed characters are interpreted and displayed.
pub enum InputMode {
    /// Ordinary editing: the buffer is rendered as typed.
    Text,
    /// Ordinary editing plus ghost completion text after the cursor.
    Suggesting(String),
    /// The rendered buffer is masked; the stored buffer is kept as typed.
    Secure,
}

impl InputMode {
    /// The active suggestion text; empty outside `Suggesting` mode.
    pub open spec fn suggestion(self) -> Seq<char> {
        match self {
            InputMode::Suggesting(s) => s@,
            _ => Seq::empty(),
        }
    }
}

/// The text being edited together with the input mode.
pub struct Input {
    pub buffer: Wrapped,
    pub mode: InputMode,
}

impl Input {
    /// The buffer's well-formedness carries over.
    pub open spec fn wf(self) -> bool {
        self.buffer.wf()
    }

    /// The characters in the edit buffer.
    pub open spec fn text(self) -> Seq<char> {
        self.buffer.text()
    }

    /// The remaining completion, meaningful only while suggesting.
    pub open spec fn suggestion(self) -> Seq<char> {
        self.mode.suggestion()
    }

    /// Whether a suggestion slot is active.
    pub open spec fn is_suggesting(self) -> bool {
        self.mode is Suggesting
    }

    /// Whether the rendered buffer is masked.
    pub open spec fn is_secure(self) -> bool {
        self.mode is Secure
    }

    /// An empty buffer in plain text mode.
    pub fn new() -> (r: Input)
        ensures
            r.wf(),
            r.text() == Seq::<char>::empty(),
            r.mode is Text,
    {
        Input { buffer: Wrapped::new(String::new()), mode: InputMode::Text }
    }

    /// Apply one typed character, as the presentation side does on key
    /// input: backspace erases the last character, carriage return and
    /// newline submit the buffer, tab is reserved and ignored, and any
    /// other character is appended. An active suggestion is shortened by a
    /// character matching its head and cleared by anything else; erasing
    /// also clears it. The result is the notification owed to the
    /// application thread, if any.
    pub fn apply_char(&mut self, ch: char) -> (r: Option<ConsoleEvent>)
        requires
            old(self).wf(),
        ensures
            final(self).wf(),
            final(self).is_secure() == old(self).is_secure(),
            final(self).is_suggesting() == old(self).is_suggesting(),
            ch == '\u{8}' ==> {
                &&& r == Some(ConsoleEvent::InputBufferChanged)
                &&& final(self).text() == (if old(self).text().len() > 0 {
                    old(self).text().drop_last()
                } else {
                    old(self).text()
                })
                &&& final(self).suggestion() == Seq::<char>::empty()
            },
            ch == '\r' || ch == '\n' ==> r == Some(ConsoleEvent::Input) && *final(self) == *old(
                self,
            ),
            ch == '\t' ==> r is None && *final(self) == *old(self),
            !(ch == '\u{8}' || ch == '\r' || ch == '\n' || ch == '\t') ==> {
                &&& r == Some(ConsoleEvent::InputBufferChanged)
                &&& final(self).text() == old(self).text().push(ch)
                &&& final(self).suggestion() == (if old(self).suggestion().len() > 0 && old(
                    self,
                ).suggestion()[0] == ch {
                    old(self).suggestion().drop_first()
                } else {
                    Seq::<char>::empty()
                })
            },
    {
        if ch == '\u{8}' {
            self.buffer.pop();
            let cleared = match &self.mode {
                InputMode::Suggesting(_) => InputMode::Suggesting(String::new()),
                InputMode::Text => InputMode::Text,
                InputMode::Secure => InputMode::Secure,
            };
            self.mode = cleared;
            Some(ConsoleEvent::InputBufferChanged)
        } else if ch == '\r' || ch == '\n' {
            Some(ConsoleEvent::Input)
        } else if ch == '\t' {
            None
        } else {
            self.buffer.push(ch);
            let trimmed = match &self.mode {
                InputMode::Suggesting(sug) => {
                    let n = sug.as_str().unicode_len();
                    if n > 0 && sug.as_str().get_char(0) == ch {
                        InputMode::Suggesting(sug.as_str().substring_char(1, n).to_owned())
                    } else {
                        InputMode::Suggesting(String::new())
                    }
                },
                InputMode::Text => InputMode::Text,
                InputMode::Secure => InputMode::Secure,
            };
            self.mode = trimmed;
            Some(ConsoleEvent::InputBufferChanged)
        }
    }

    /// Move the remaining suggestion into the buffer in one step and clear
    /// it. Nothing happens, and `false` comes back, when no suggestion is
    /// active or the active one is already empty.
    pub fn complete_suggestion(&mut self) -> (r: bool)
        requires
            old(self).wf(),
        ensures
            final(self).wf(),
            r == (old(self).is_suggesting() && old(self).suggestion().len() > 0),
            !r ==> *final(self) == *old(self),
            r ==> {
                &&& final(self).text() == old(self).text() + old(self).suggestion()
                &&& final(self).is_suggesting()
                &&& final(self).suggestion() == Seq::<char>::empty()
            },
    {
        let completion = match &self.mode {
            InputMode::Suggesting(sug) => {
                if sug.as_str().unicode_len() > 0 {
                    Some(sug.clone())
                } else {
                    None
                }
            },
            _ => None,
        };
        match completion {
            Some(sug) => {
                self.buffer.push_str(sug.as_str());
                self.mode = InputMode::Suggesting(String::new());
                true
            },
            None => false,
        }
    }

    /// Offer `suggestion` as the completion of the current buffer.
    pub fn set_suggestion(&mut self, suggestion: String)
        ensures
            final(self).wf() == old(self).wf(),
            final(self).buffer == old(self).buffer,
            final(self).is_suggesting(),
            final(self).suggestion() == suggestion@,
    {
        self.mode = InputMode::Suggesting(suggestion);
    }

    /// Switch to masked input.
    pub fn set_secure(&mut self)
        ensures
            final(self).wf() == old(self).wf(),
            final(self).buffer == old(self).buffer,
            final(self).is_secure(),
    {
        self.mode = InputMode::Secure;
    }

    /// Leave masked input: overwrite the buffer's storage with null
    /// characters before emptying it (best-effort hygiene, not a guarantee
    /// that no copy survives elsewhere), and return to plain text mode.
    pub fn clear_secure(&mut self)
        ensures
            final(self).wf(),
            final(self).mode is Text,
            final(self).text() == Seq::<char>::empty(),
    {
        self.mode = InputMode::Text;
        let n = self.buffer.char_len();
        self.buffer.clear();
        let mut i: usize = 0;
        while i < n
            invariant
                self.mode is Text,
            decreases n - i,
        {
            self.buffer.push('\0');
            i = i + 1;
        }
        self.buffer.clear();
    }

    /// The text the presentation side renders for the buffer: the buffer
    /// itself, or one mask character per buffer character in masked mode.
    /// The result is a fresh wrapper, ready to be wrapped at the viewport
    /// width.
    pub fn display_buffer(&self) -> (r: Wrapped)
        ensures
            r.wf(),
            r.is_dirty(),
            r.text().len() == self.text().len(),
            !self.is_secure() ==> r.text() == self.text(),
            self.is_secure() ==> forall|i: int| 0 <= i < r.text().len() ==> r.text()[i] == '*',
    {
        match &self.mode {
            InputMode::Secure => {
                let n = self.buffer.char_len();
                let mut masked = Wrapped::new(String::new());
                let mut i: usize = 0;
                while i < n
                    invariant
                        i <= n,
                        masked.is_dirty(),
                        masked.text().len() == i,
                        forall|j: int| 0 <= j < i ==> masked.text()[j] == '*',
                    decreases n - i,
                {
                    masked.push('*');
                    i = i + 1;
                }
                masked
            },
            _ => Wrapped::new(self.buffer.as_text().clone()),
        }
    }

    /// Empty the buffer; an active suggestion slot closes, masked mode
    /// stays.
    pub fn clear_input(&mut self)
        ensures
            final(self).wf(),
            final(self).text() == Seq::<char>::empty(),
            !final(self).is_suggesting(),
            final(self).is_secure() == old(self).is_secure(),
    {
        self.buffer.clear();
        let next = match &self.mode {
            InputMode::Suggesting(_) => InputMode::Text,
            InputMode::Text => InputMode::Text,
            InputMode::Secure => InputMode::Secure,
        };
        self.mode = next;
    }
}

impl Clone for Input {
    /// The copy carries the same text, mode and suggestion.
    fn clone(&self) -> (r: Self)
        ensures
            r.wf(),
            r.text() == self.text(),
            r.is_suggesting() == self.is_suggesting(),
            r.is_secure() == self.is_secure(),
            r.suggestion() == self.suggestion(),
    {
        let mode = match &self.mode {
            InputMode::Suggesting(sug) => InputMode::Suggesting(sug.clone()),
            InputMode::Text => InputMode::Text,
            InputMode::Secure => InputMode::Secure,
        };
        Input { buffer: self.buffer.clone(), mode }
    }
}

impl Default for Input {
    /// Same as [`Input::new`].
    fn default() -> (r: Self)
        ensures
            r.wf(),
            r.text() == Seq::<char>::empty(),
            r.mode is Text,
    {
        Input::new()
    }
}

} // verus!
