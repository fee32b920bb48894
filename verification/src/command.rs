//! Input events, editor commands and the keymap that connects them.
//!
//! Key codes and modifier sets are the library's own plain values; the
//! terminal layer converts its native events into them. The keymap is
//! an association list where the latest binding for an event wins,
//! which gives insertion-overrides-default semantics.

use vstd::prelude::*;

verus! {

/// A key, as the editor distinguishes them.
#[derive(Debug, Clone, Copy, PartialEq, Eq, Structural, Hash)]
pub enum KeyCode {
    Enter,
    Backspace,
    Delete,
    Up,
    Down,
    Left,
    Right,
    Home,
    End,
    PageUp,
    PageDown,
    Esc,
    Tab,
    F(u8),
    Char(char),
}

/// The modifier keys held together with a key.
#[derive(Debug, Clone, Copy, PartialEq, Eq, Structural, Hash)]
pub struct KeyModifiers {
    pub control: bool,
    pub alt: bool,
    pub shift: bool,
}

impl KeyModifiers {
    /// No modifier held.
    pub fn none() -> (r: Self)
        ensures
            r == (KeyModifiers { control: false, alt: false, shift: false }),
    {
        KeyModifiers { control: false, alt: false, shift: false }
    }

    /// Only control held.
    pub fn control() -> (r: Self)
        ensures
            r == (KeyModifiers { control: true, alt: false, shift: false }),
    {
        KeyModifiers { control: true, alt: false, shift: false }
    }

    /// Only shift held.
    pub fn shift() -> (r: Self)
        ensures
            r == (KeyModifiers { control: false, alt: false, shift: true }),
    {
        KeyModifiers { control: false, alt: false, shift: true }
    }

    /// Only alt held.
    pub fn alt() -> (r: Self)
        ensures
            r == (KeyModifiers { control: false, alt: true, shift: false }),
    {
        KeyModifiers { control: false, alt: true, shift: false }
    }

    /// Control and shift held.
    pub fn control_shift() -> (r: Self)
        ensures
            r == (KeyModifiers { control: true, alt: false, shift: true }),
    {
        KeyModifiers { control: true, alt: false, shift: true }
    }

    /// Nothing beyond at most shift: the privileged rule that turns a
    /// printable character into text input.
    pub open spec fn at_most_shift(&self) -> bool {
        !self.control && !self.alt
    }
}

/// One key press: the key and the modifiers held with it.
#[derive(Debug, Clone, Copy, PartialEq, Eq, Structural, Hash)]
pub struct InputEvent {
    pub code: KeyCode,
    pub modifiers: KeyModifiers,
}

/// Everything the editor can be told to do.
#[derive(Debug, Clone, Copy, PartialEq, Eq, Structural)]
pub enum Command {
    InputChar(char),
    InputEnter,
    DeleteLeft,
    DeleteRight,
    DeleteWordLeft,
    DeleteWordRight,
    CursorUp,
    CursorDown,
    CursorLeft,
    CursorRight,
    CursorWordLeft,
    CursorWordRight,
    CursorHome,
    CursorEnd,
    CursorPageUp,
    CursorPageDown,
    SelectAll,
    SelectLine,
    TextCopy,
    TextCut,
    TextPaste,
    TextCopyAndClearSelection,
    Exit,
}

/// What a binding list maps `key` to: the latest entry wins.
pub open spec fn keymap_lookup(entries: Seq<(InputEvent, Command)>, key: InputEvent) -> Option<
    Command,
>
    decreases entries.len(),
{
    if entries.len() == 0 {
        None
    } else if entries.last().0 == key {
        Some(entries.last().1)
    } else {
        keymap_lookup(entries.drop_last(), key)
    }
}

/// The table from input events to commands; later insertions override
/// earlier ones.
pub struct KeyMap {
    entries: Vec<(InputEvent, Command)>,
}

impl View for KeyMap {
    type V = Seq<(InputEvent, Command)>;

    closed spec fn view(&self) -> Seq<(InputEvent, Command)> {
        self.entries@
    }
}

impl KeyMap {
    pub fn new() -> (r: Self)
        ensures
            r@ == Seq::<(InputEvent, Command)>::empty(),
    {
        KeyMap { entries: Vec::new() }
    }

    /// Binds `key` to `command`, overriding any earlier binding.
    pub fn insert(&mut self, key: InputEvent, command: Command)
        ensures
            final(self)@ == old(self)@.push((key, command)),
            forall|k: InputEvent|
                #[trigger] keymap_lookup(final(self)@, k) == if k == key {
                    Some(command)
                } else {
                    keymap_lookup(old(self)@, k)
                },
    {
        self.entries.push((key, command));
        proof {
            assert forall|k: InputEvent| #[trigger]
                keymap_lookup(self.entries@, k) == (if k == key {
                    Some(command)
                } else {
                    keymap_lookup(old(self)@.push((key, command)).drop_last(), k)
                }) by {
                assert(self.entries@.last() == (key, command));
            }
            assert(old(self)@.push((key, command)).drop_last() =~= old(self)@);
        }
    }

    /// The binding of `key`, if any.
    pub fn get(&self, key: InputEvent) -> (r: Option<Command>)
        ensures
            r == keymap_lookup(self@, key),
    {
        let n = self.entries.len();
        proof {
            assert(self.entries@.take(n as int) =~= self.entries@);
        }
        let mut i: usize = n;
        while i > 0
            invariant
                i <= n,
                n == self.entries@.len(),
                keymap_lookup(self.entries@, key) == keymap_lookup(
                    self.entries@.take(i as int),
                    key,
                ),
            decreases i,
        {
            i = i - 1;
            let e = self.entries[i];
            if e.0 == key {
                proof {
                    assert(self.entries@.take(i + 1).last() == e);
                }
                return Some(e.1);
            }
            proof {
                assert(self.entries@.take(i + 1).drop_last() =~= self.entries@.take(i as int));
                assert(self.entries@.take(i + 1).last() == e);
            }
        }
        proof {
            assert(self.entries@.take(0) =~= Seq::<(InputEvent, Command)>::empty());
        }
        None
    }

    pub fn len(&self) -> (r: usize)
        ensures
            r == self@.len(),
    {
        self.entries.len()
    }
}

/// Every built-in binding, in insertion order.
pub open spec fn default_bindings() -> Seq<(InputEvent, Command)> {
    seq![
        (InputEvent { code: KeyCode::Enter, modifiers: KeyModifiers { control: false, alt: false, shift: false } }, Command::InputEnter),
        (InputEvent { code: KeyCode::Enter, modifiers: KeyModifiers { control: false, alt: false, shift: true } }, Command::InputEnter),
        (InputEvent { code: KeyCode::Backspace, modifiers: KeyModifiers { control: false, alt: false, shift: false } }, Command::DeleteLeft),
        (InputEvent { code: KeyCode::Delete, modifiers: KeyModifiers { control: false, alt: false, shift: false } }, Command::DeleteRight),
        (InputEvent { code: KeyCode::Backspace, modifiers: KeyModifiers { control: false, alt: false, shift: true } }, Command::DeleteLeft),
        (InputEvent { code: KeyCode::Delete, modifiers: KeyModifiers { control: false, alt: false, shift: true } }, Command::DeleteRight),
        (InputEvent { code: KeyCode::Backspace, modifiers: KeyModifiers { control: true, alt: false, shift: false } }, Command::DeleteWordLeft),
        (InputEvent { code: KeyCode::Delete, modifiers: KeyModifiers { control: true, alt: false, shift: false } }, Command::DeleteWordRight),
        (InputEvent { code: KeyCode::Backspace, modifiers: KeyModifiers { control: true, alt: false, shift: true } }, Command::DeleteWordLeft),
        (InputEvent { code: KeyCode::Delete, modifiers: KeyModifiers { control: true, alt: false, shift: true } }, Command::DeleteWordRight),
        (InputEvent { code: KeyCode::Char('w'), modifiers: KeyModifiers { control: true, alt: false, shift: false } }, Command::DeleteWordLeft),
        (InputEvent { code: KeyCode::Char('d'), modifiers: KeyModifiers { control: false, alt: true, shift: false } }, Command::DeleteWordRight),
        (InputEvent { code: KeyCode::Up, modifiers: KeyModifiers { control: false, alt: false, shift: false } }, Command::CursorUp),
        (InputEvent { code: KeyCode::Down, modifiers: KeyModifiers { control: false, alt: false, shift: false } }, Command::CursorDown),
        (InputEvent { code: KeyCode::Left, modifiers: KeyModifiers { control: false, alt: false, shift: false } }, Command::CursorLeft),
        (InputEvent { code: KeyCode::Right, modifiers: KeyModifiers { control: false, alt: false, shift: false } }, Command::CursorRight),
        (InputEvent { code: KeyCode::Up, modifiers: KeyModifiers { control: false, alt: false, shift: true } }, Command::CursorUp),
        (InputEvent { code: KeyCode::Down, modifiers: KeyModifiers { control: false, alt: false, shift: true } }, Command::CursorDown),
        (InputEvent { code: KeyCode::Left, modifiers: KeyModifiers { control: false, alt: false, shift: true } }, Command::CursorLeft),
        (InputEvent { code: KeyCode::Right, modifiers: KeyModifiers { control: false, alt: false, shift: true } }, Command::CursorRight),
        (InputEvent { code: KeyCode::Left, modifiers: KeyModifiers { control: true, alt: false, shift: false } }, Command::CursorWordLeft),
        (InputEvent { code: KeyCode::Right, modifiers: KeyModifiers { control: true, alt: false, shift: false } }, Command::CursorWordRight),
        (InputEvent { code: KeyCode::Left, modifiers: KeyModifiers { control: true, alt: false, shift: true } }, Command::CursorWordLeft),
        (InputEvent { code: KeyCode::Right, modifiers: KeyModifiers { control: true, alt: false, shift: true } }, Command::CursorWordRight),
        (InputEvent { code: KeyCode::Home, modifiers: KeyModifiers { control: false, alt: false, shift: false } }, Command::CursorHome),
        (InputEvent { code: KeyCode::End, modifiers: KeyModifiers { control: false, alt: false, shift: false } }, Command::CursorEnd),
        (InputEvent { code: KeyCode::PageUp, modifiers: KeyModifiers { control: false, alt: false, shift: false } }, Command::CursorPageUp),
        (InputEvent { code: KeyCode::PageDown, modifiers: KeyModifiers { control: false, alt: false, shift: false } }, Command::CursorPageDown),
        (InputEvent { code: KeyCode::Char('a'), modifiers: KeyModifiers { control: true, alt: false, shift: false } }, Command::SelectAll),
        (InputEvent { code: KeyCode::Char('l'), modifiers: KeyModifiers { control: true, alt: false, shift: false } }, Command::SelectLine),
        (InputEvent { code: KeyCode::Char('c'), modifiers: KeyModifiers { control: true, alt: false, shift: false } }, Command::TextCopy),
        (InputEvent { code: KeyCode::Char('x'), modifiers: KeyModifiers { control: true, alt: false, shift: false } }, Command::TextCut),
        (InputEvent { code: KeyCode::Char('v'), modifiers: KeyModifiers { control: true, alt: false, shift: false } }, Command::TextPaste),
        (InputEvent { code: KeyCode::Esc, modifiers: KeyModifiers { control: false, alt: false, shift: false } }, Command::Exit),
    ]
}

/// The editor's built-in bindings: exactly `default_bindings`, so any
/// lookup is determined by that table.
pub fn default_keymap() -> (r: KeyMap)
    ensures
        r@ == default_bindings(),
        keymap_lookup(r@, InputEvent { code: KeyCode::Esc, modifiers: KeyModifiers {
            control: false,
            alt: false,
            shift: false,
        } }) == Some(Command::Exit),
        keymap_lookup(r@, InputEvent { code: KeyCode::Enter, modifiers: KeyModifiers {
            control: false,
            alt: false,
            shift: false,
        } }) == Some(Command::InputEnter),
        keymap_lookup(r@, InputEvent { code: KeyCode::Backspace, modifiers: KeyModifiers {
            control: false,
            alt: false,
            shift: false,
        } }) == Some(Command::DeleteLeft),
{
    let mut m = KeyMap::new();
    let none = KeyModifiers::none();
    let shift = KeyModifiers::shift();
    let control = KeyModifiers::control();
    let control_shift = KeyModifiers::control_shift();
    let alt = KeyModifiers::alt();

    m.insert(InputEvent { code: KeyCode::Enter, modifiers: none }, Command::InputEnter);
    m.insert(InputEvent { code: KeyCode::Enter, modifiers: shift }, Command::InputEnter);
    m.insert(InputEvent { code: KeyCode::Backspace, modifiers: none }, Command::DeleteLeft);
    m.insert(InputEvent { code: KeyCode::Delete, modifiers: none }, Command::DeleteRight);
    m.insert(InputEvent { code: KeyCode::Backspace, modifiers: shift }, Command::DeleteLeft);
    m.insert(InputEvent { code: KeyCode::Delete, modifiers: shift }, Command::DeleteRight);
    m.insert(InputEvent { code: KeyCode::Backspace, modifiers: control }, Command::DeleteWordLeft);
    m.insert(InputEvent { code: KeyCode::Delete, modifiers: control }, Command::DeleteWordRight);
    m.insert(
        InputEvent { code: KeyCode::Backspace, modifiers: control_shift },
        Command::DeleteWordLeft,
    );
    m.insert(
        InputEvent { code: KeyCode::Delete, modifiers: control_shift },
        Command::DeleteWordRight,
    );
    m.insert(InputEvent { code: KeyCode::Char('w'), modifiers: control }, Command::DeleteWordLeft);
    m.insert(InputEvent { code: KeyCode::Char('d'), modifiers: alt }, Command::DeleteWordRight);

    m.insert(InputEvent { code: KeyCode::Up, modifiers: none }, Command::CursorUp);
    m.insert(InputEvent { code: KeyCode::Down, modifiers: none }, Command::CursorDown);
    m.insert(InputEvent { code: KeyCode::Left, modifiers: none }, Command::CursorLeft);
    m.insert(InputEvent { code: KeyCode::Right, modifiers: none }, Command::CursorRight);
    m.insert(InputEvent { code: KeyCode::Up, modifiers: shift }, Command::CursorUp);
    m.insert(InputEvent { code: KeyCode::Down, modifiers: shift }, Command::CursorDown);
    m.insert(InputEvent { code: KeyCode::Left, modifiers: shift }, Command::CursorLeft);
    m.insert(InputEvent { code: KeyCode::Right, modifiers: shift }, Command::CursorRight);
    m.insert(InputEvent { code: KeyCode::Left, modifiers: control }, Command::CursorWordLeft);
    m.insert(InputEvent { code: KeyCode::Right, modifiers: control }, Command::CursorWordRight);
    m.insert(
        InputEvent { code: KeyCode::Left, modifiers: control_shift },
        Command::CursorWordLeft,
    );
    m.insert(
        InputEvent { code: KeyCode::Right, modifiers: control_shift },
        Command::CursorWordRight,
    );

    m.insert(InputEvent { code: KeyCode::Home, modifiers: none }, Command::CursorHome);
    m.insert(InputEvent { code: KeyCode::End, modifiers: none }, Command::CursorEnd);
    m.insert(InputEvent { code: KeyCode::PageUp, modifiers: none }, Command::CursorPageUp);
    m.insert(InputEvent { code: KeyCode::PageDown, modifiers: none }, Command::CursorPageDown);

    m.insert(InputEvent { code: KeyCode::Char('a'), modifiers: control }, Command::SelectAll);
    m.insert(InputEvent { code: KeyCode::Char('l'), modifiers: control }, Command::SelectLine);

    m.insert(InputEvent { code: KeyCode::Char('c'), modifiers: control }, Command::TextCopy);
    m.insert(InputEvent { code: KeyCode::Char('x'), modifiers: control }, Command::TextCut);
    m.insert(InputEvent { code: KeyCode::Char('v'), modifiers: control }, Command::TextPaste);

    m.insert(InputEvent { code: KeyCode::Esc, modifiers: none }, Command::Exit);

    proof {
        assert(m@ =~= default_bindings());
    }
    m
}

} // verus!
