use crate::state::{moved, Dir, State};
use crate::text::without_last_word;
use vstd::prelude::*;

verus! {

/// A key press, as the event loop hands it over.
#[derive(PartialEq, Eq, Structural, Clone, Copy, Debug)]
pub enum Key {
    /// A character typed without the control modifier.
    Char(char),
    /// A character typed with the control modifier held.
    Ctrl(char),
    Up,
    Down,
    Backspace,
    Enter,
    Esc,
    /// Any other key.
    Other,
}

/// What a key asks of the session.
#[derive(PartialEq, Eq, Structural, Clone, Copy, Debug)]
pub enum Command {
    Insert(char),
    DeleteChar,
    DeleteWord,
    Move(Dir),
    Confirm,
    Cancel,
    Ignore,
}

/// What the event loop does after a command.
#[derive(PartialEq, Eq, Structural, Clone, Copy, Debug)]
pub enum Step {
    /// Draw the state again and wait for the next key.
    Continue,
    /// End the session and launch the program at this position of `programs`.
    Launch(usize),
    /// End the session without launching anything.
    Quit,
}

/// The key bindings: control-j and the down arrow move down, control-k and
/// the up arrow move up, control-w deletes a word, backspace a character,
/// enter confirms, escape cancels, and any other character is typed into the
/// query.
pub open spec fn command_of(key: Key) -> Command {
    match key {
        Key::Ctrl(c) => if c == 'j' {
            Command::Move(Dir::Down)
        } else if c == 'k' {
            Command::Move(Dir::Up)
        } else if c == 'w' {
            Command::DeleteWord
        } else {
            Command::Insert(c)
        },
        Key::Char(c) => Command::Insert(c),
        Key::Up => Command::Move(Dir::Up),
        Key::Down => Command::Move(Dir::Down),
        Key::Backspace => Command::DeleteChar,
        Key::Enter => Command::Confirm,
        Key::Esc => Command::Cancel,
        Key::Other => Command::Ignore,
    }
}

/// The command that `key` is bound to.
pub fn command_for(key: Key) -> (r: Command)
    ensures
        r == command_of(key),
{
    match key {
        Key::Ctrl(c) => if c == 'j' {
            Command::Move(Dir::Down)
        } else if c == 'k' {
            Command::Move(Dir::Up)
        } else if c == 'w' {
            Command::DeleteWord
        } else {
            Command::Insert(c)
        },
        Key::Char(c) => Command::Insert(c),
        Key::Up => Command::Move(Dir::Up),
        Key::Down => Command::Move(Dir::Down),
        Key::Backspace => Command::DeleteChar,
        Key::Enter => Command::Confirm,
        Key::Esc => Command::Cancel,
        Key::Other => Command::Ignore,
    }
}

/// `after` and `r` are what carrying out `command` makes of `before`.
pub open spec fn applies(before: State, after: State, command: Command, r: Step) -> bool {
    match command {
        Command::Insert(c) => {
            &&& after.input@ == before.input@.push(c)
            &&& after.programs == before.programs
            &&& after.selected == moved(
                before.selected,
                after.filtered@.len(),
                Dir::Same,
            )
            &&& r == Step::Continue
        },
        Command::DeleteChar => {
            &&& after.input@ == if before.input@.len() == 0 {
                before.input@
            } else {
                before.input@.drop_last()
            }
            &&& after.programs == before.programs
            &&& after.selected == if before.input@.len() == 0 {
                before.selected
            } else {
                moved(before.selected, after.filtered@.len(), Dir::Same)
            }
            &&& r == Step::Continue
        },
        Command::DeleteWord => {
            &&& after.input@ == without_last_word(before.input@)
            &&& after.programs == before.programs
            &&& after.selected == moved(
                before.selected,
                after.filtered@.len(),
                Dir::Same,
            )
            &&& r == Step::Continue
        },
        Command::Move(dir) => {
            &&& after.input == before.input
            &&& after.programs == before.programs
            &&& after.selected == moved(
                before.selected,
                before.filtered@.len(),
                dir,
            )
            &&& r == Step::Continue
        },
        Command::Confirm => {
            &&& after == before
            &&& r == match before.selected {
                Some(i) => Step::Launch(before.filtered@[i as int]),
                None => Step::Continue,
            }
        },
        Command::Cancel => after == before && r == Step::Quit,
        Command::Ignore => after == before && r == Step::Continue,
    }
}

impl State {
    /// Carries out `command` and says how the session goes on. Confirming
    /// launches the selected program, or does nothing while the view is empty.
    pub fn apply(&mut self, command: Command) -> (r: Step)
        requires
            old(self).wf(),
        ensures
            final(self).wf(),
            applies(*old(self), *final(self), command, r),
    {
        match command {
            Command::Insert(c) => {
                self.enter_char(c);
                Step::Continue
            },
            Command::DeleteChar => {
                self.delete_char();
                Step::Continue
            },
            Command::DeleteWord => {
                self.delete_word();
                Step::Continue
            },
            Command::Move(dir) => {
                self.move_index(dir);
                Step::Continue
            },
            Command::Confirm => match self.selected {
                Some(i) => Step::Launch(self.filtered[i]),
                None => Step::Continue,
            },
            Command::Cancel => Step::Quit,
            Command::Ignore => Step::Continue,
        }
    }

    /// Handles one key press: carries out the command it is bound to.
    pub fn handle_key(&mut self, key: Key) -> (r: Step)
        requires
            old(self).wf(),
        ensures
            final(self).wf(),
            applies(*old(self), *final(self), command_of(key), r),
    {
        let command = command_for(key);
        self.apply(command)
    }
}

} // verus!
