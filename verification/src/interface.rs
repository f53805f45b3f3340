//! The state of the full-screen interface and how events change it.
//!
//! Reading events from the terminal and drawing on it are left to the
//! caller, who hands each event over as a value of this module.

use vstd::prelude::*;

verus! {

/// The key of a key event, as far as the interface tells keys apart.
#[derive(Clone, Copy, Debug, PartialEq, Eq, Structural)]
pub enum KeyCode {
    /// A character key.
    Char(char),
    /// Any other key.
    Other,
}

/// What happened to the key.
#[derive(Clone, Copy, Debug, PartialEq, Eq, Structural)]
pub enum KeyEventKind {
    Press,
    Repeat,
    Release,
}

/// A key event.
#[derive(Clone, Copy, Debug, PartialEq, Eq, Structural)]
pub struct KeyEvent {
    /// The key itself.
    pub code: KeyCode,
    /// Whether it was pressed, held or released.
    pub kind: KeyEventKind,
}

impl From<KeyCode> for KeyEvent {
    /// The event of pressing the key `code`.
    fn from(code: KeyCode) -> (event: KeyEvent) {
        KeyEvent { code, kind: KeyEventKind::Press }
    }
}

impl vstd::std_specs::convert::FromSpecImpl<KeyCode> for KeyEvent {
    open spec fn obeys_from_spec() -> bool {
        true
    }

    open spec fn from_spec(code: KeyCode) -> KeyEvent {
        KeyEvent { code, kind: KeyEventKind::Press }
    }
}

/// An event of the terminal.
#[derive(Clone, Copy, Debug, PartialEq, Eq, Structural)]
pub enum Event {
    /// A key event.
    Key(KeyEvent),
    /// Anything else: the mouse, a change of size or of focus, pasted text.
    Other,
}

/// Whether `event` asks the interface to quit: the key `q` was pressed.
pub open spec fn asks_to_quit(event: Event) -> bool {
    match event {
        Event::Key(key_event) => key_event.kind == KeyEventKind::Press && key_event.code
            == KeyCode::Char('q'),
        Event::Other => false,
    }
}

/// The state of the interface.
#[derive(Debug)]
pub struct Ui {
    /// Whether the user has asked to quit. The main loop goes on for as
    /// long as this is false.
    pub exit: bool,
}

impl Default for Ui {
    /// An interface that has not been asked to quit.
    fn default() -> (ui: Ui)
        ensures
            !ui.exit,
    {
        Ui { exit: false }
    }
}

impl Ui {
    /// Takes a key: `q` quits, every other key changes nothing.
    pub fn handle_key_event(&mut self, key_event: KeyEvent)
        ensures
            final(self).exit == (old(self).exit || key_event.code == KeyCode::Char('q')),
    {
        match key_event.code {
            KeyCode::Char('q') => self.exit(),
            _ => {},
        }
    }

    /// updates the application's state based on user input
    pub fn handle_events(&mut self, event: Event)
        ensures
            final(self).exit == (old(self).exit || asks_to_quit(event)),
    {
        match event {
            // it's important to check that the event is a key press event:
            // terminals also report keys that are held and released.
            Event::Key(key_event) => {
                if key_event.kind == KeyEventKind::Press {
                    self.handle_key_event(key_event)
                }
            },
            _ => {},
        }
    }

    /// Asks the main loop to stop.
    pub fn exit(&mut self)
        ensures
            final(self).exit,
    {
        self.exit = true;
    }
}

} // verus!
