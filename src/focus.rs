//! Which region of the screen has the focus, and what a key does there.

use vstd::prelude::*;

verus! {

/// The regions of the screen that can take the focus, in tab order.
#[derive(Debug, Clone, Copy, PartialEq, Eq, Structural)]
pub enum Focus {
    Input,
    Font,
    Flags,
    Output,
    CommandLine,
}

/// How many regions can take the focus.
pub const FOCUS_COUNT: usize = 5;

impl Focus {
    /// The place of the region in tab order.
    pub open spec fn index(self) -> int {
        match self {
            Focus::Input => 0,
            Focus::Font => 1,
            Focus::Flags => 2,
            Focus::Output => 3,
            Focus::CommandLine => 4,
        }
    }

    /// The place of the region in tab order.
    pub fn position(self) -> (r: usize)
        ensures
            r == self.index(),
            r < FOCUS_COUNT,
    {
        match self {
            Focus::Input => 0,
            Focus::Font => 1,
            Focus::Flags => 2,
            Focus::Output => 3,
            Focus::CommandLine => 4,
        }
    }

    /// The region at place `i` of the tab order.
    pub fn at(i: usize) -> (r: Focus)
        requires
            i < FOCUS_COUNT,
        ensures
            r.index() == i,
    {
        if i == 0 {
            Focus::Input
        } else if i == 1 {
            Focus::Font
        } else if i == 2 {
            Focus::Flags
        } else if i == 3 {
            Focus::Output
        } else {
            Focus::CommandLine
        }
    }

    /// The region after this one, after the last the first.
    pub fn next(self) -> (r: Focus)
        ensures
            r == self.next_spec(),
    {
        Focus::at((self.position() + 1) % FOCUS_COUNT)
    }

    /// The region before this one, before the first the last.
    pub fn previous(self) -> (r: Focus)
        ensures
            r == self.previous_spec(),
    {
        Focus::at((self.position() + FOCUS_COUNT - 1) % FOCUS_COUNT)
    }
}

/// Moving the focus forward and then back, or back and then forward, comes
/// back to the region one started from.
pub proof fn lemma_focus_round_trip(f: Focus)
    ensures
        f.next_spec().previous_spec() == f,
        f.previous_spec().next_spec() == f,
{
}

/// A key press, as far as the front-end tells keys apart.
#[derive(Debug, Clone, Copy, PartialEq, Eq, Structural)]
pub enum Key {
    /// Ctrl-C.
    Quit,
    /// Tab.
    NextRegion,
    /// Shift-Tab.
    PreviousRegion,
    Up,
    Down,
    Enter,
    /// Any other key: an edit of the focused text field.
    Other,
}

/// What the front-end does in answer to a key.
#[derive(Debug, Clone, Copy, PartialEq, Eq, Structural)]
pub enum Action {
    /// Leave, printing the last display command line.
    Quit,
    /// Give the focus to the region.
    MoveFocus(Focus),
    PreviousFont,
    NextFont,
    /// Copy the rendered output to the clipboard.
    CopyOutput,
    /// Copy the display command line to the clipboard.
    CopyCommandLine,
    /// Hand the key to the focused text field.
    Edit,
    Nothing,
}

/// What a key does with the focus on `focus`; copying needs a clipboard.
pub open spec fn key_action(focus: Focus, key: Key, clipboard: bool) -> Action {
    match key {
        Key::Quit => Action::Quit,
        Key::NextRegion => Action::MoveFocus(focus.next_spec()),
        Key::PreviousRegion => Action::MoveFocus(focus.previous_spec()),
        _ => match focus {
            Focus::Font => match key {
                Key::Up => Action::PreviousFont,
                Key::Down => Action::NextFont,
                _ => Action::Nothing,
            },
            Focus::Output | Focus::CommandLine => if key == Key::Enter && clipboard {
                if focus == Focus::Output {
                    Action::CopyOutput
                } else {
                    Action::CopyCommandLine
                }
            } else {
                Action::Nothing
            },
            _ => if key == Key::Enter {
                Action::Nothing
            } else {
                Action::Edit
            },
        },
    }
}

impl Focus {
    /// The region after this one in tab order, after the last the first.
    pub open spec fn next_spec(self) -> Focus {
        Focus::at_index((self.index() + 1) % 5)
    }

    /// The region before this one in tab order, before the first the last.
    pub open spec fn previous_spec(self) -> Focus {
        Focus::at_index((self.index() + 4) % 5)
    }

    /// The region at place `i` of the tab order.
    pub open spec fn at_index(i: int) -> Focus {
        if i == 0 {
            Focus::Input
        } else if i == 1 {
            Focus::Font
        } else if i == 2 {
            Focus::Flags
        } else if i == 3 {
            Focus::Output
        } else {
            Focus::CommandLine
        }
    }
}

/// What a key does with the focus on `focus`: Ctrl-C leaves; Tab and
/// Shift-Tab move the focus; Up and Down change the font in the font field;
/// Enter copies in an output region when there is a clipboard; other keys
/// edit a text field, where Enter does nothing, as a field holds one line.
pub fn on_key(focus: Focus, key: Key, clipboard: bool) -> (r: Action)
    ensures
        r == key_action(focus, key, clipboard),
{
    match key {
        Key::Quit => Action::Quit,
        Key::NextRegion => Action::MoveFocus(focus.next()),
        Key::PreviousRegion => Action::MoveFocus(focus.previous()),
        _ => match focus {
            Focus::Font => match key {
                Key::Up => Action::PreviousFont,
                Key::Down => Action::NextFont,
                _ => Action::Nothing,
            },
            Focus::Output | Focus::CommandLine => {
                if key == Key::Enter && clipboard {
                    if focus == Focus::Output {
                        Action::CopyOutput
                    } else {
                        Action::CopyCommandLine
                    }
                } else {
                    Action::Nothing
                }
            },
            _ => {
                if key == Key::Enter {
                    Action::Nothing
                } else {
                    Action::Edit
                }
            },
        },
    }
}

} // verus!
