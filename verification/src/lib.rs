//! Core of an embeddable interactive console: a word-wrap engine, a
//! scrollback history, and the input/suggestion state shared between an
//! application thread and a presentation thread.
//!
//! Everything here is pure state and text manipulation with verified
//! contracts. Locks, channels and threads live with the embedding program.

use vstd::prelude::*;

pub mod input;
pub mod laws;
pub mod scrollback;
pub mod wrap;

pub use input::Input;
pub use input::InputMode;

use scrollback::Scrollback;

verus! {

/// A notification from the presentation side to the application thread.
pub enum ConsoleEvent {
    /// The edit buffer changed (a character was typed or erased).
    InputBufferChanged,
    /// The current buffer was submitted (carriage return or newline).
    Input,
}

/// A command from the application thread, applied by the presentation side
/// to the shared console state before its next render pass.
pub enum Command {
    /// Append a line of output as the newest scrollback entry.
    Push(String),
    /// Offer a completion for the current edit buffer.
    SetSuggestion(String),
    /// Empty the edit buffer.
    ResetInput,
    /// Jump the view back to the newest content.
    ResetScroll,
    /// Drop the whole scrollback history.
    ResetScrollback,
    /// Ask the console to shut down.
    Shutdown,
}

/// Apply one command to the pieces of the shared console state, and report
/// whether the shutdown flag is set afterwards. Each command touches one
/// piece: no atomicity across pieces is promised, matching the per-field
/// locking around them.
pub fn apply_command(
    cmd: Command,
    input: &mut Input,
    scrollback: &mut Scrollback,
    shutdown: &mut bool,
) -> (r: bool)
    requires
        old(input).wf(),
        old(scrollback).wf(),
    ensures
        final(input).wf(),
        final(scrollback).wf(),
        r == *final(shutdown),
        *final(shutdown) == (*old(shutdown) || cmd is Shutdown),
        cmd matches Command::Push(line) ==> {
            &&& final(scrollback).entry_texts() == seq![line@] + old(scrollback).entry_texts()
            &&& *final(input) == *old(input)
        },
        cmd matches Command::SetSuggestion(text) ==> {
            &&& final(input).is_suggesting() && final(input).suggestion() == text@
            &&& final(input).text() == old(input).text()
            &&& *final(scrollback) == *old(scrollback)
        },
        cmd is ResetInput ==> {
            &&& final(input).text() == Seq::<char>::empty() && !final(input).is_suggesting()
            &&& *final(scrollback) == *old(scrollback)
        },
        cmd is ResetScroll ==> {
            &&& final(scrollback).scroll == 0 && final(scrollback).events == old(scrollback).events
            &&& *final(input) == *old(input)
        },
        cmd is ResetScrollback ==> {
            &&& final(scrollback).entry_texts() == Seq::<Seq<char>>::empty()
            &&& final(scrollback).scroll == 0
            &&& *final(input) == *old(input)
        },
        cmd is Shutdown ==> *final(input) == *old(input) && *final(scrollback) == *old(scrollback),
{
    match cmd {
        Command::Push(line) => {
            scrollback.push(line);
        },
        Command::SetSuggestion(text) => {
            input.set_suggestion(text);
        },
        Command::ResetInput => {
            input.clear_input();
        },
        Command::ResetScroll => {
            scrollback.reset_scroll();
        },
        Command::ResetScrollback => {
            scrollback.clear();
        },
        Command::Shutdown => {
            *shutdown = true;
        },
    }
    *shutdown
}

/// A callback the presentation backend installs so state mutations can
/// request a fresh render pass. A single callback is active at a time.
pub trait Redrawer: Send + Sync + 'static {
    fn redraw(&mut self);
}

} // verus!
