//! The command-line editing state of the terminal surface: focus and the
//! text under edit. Rendering and keyboard I/O live with the binary built
//! around the library; they drive this state through its methods.

use vstd::prelude::*;

use crate::text::push_char;

verus! {

/// The abstract command-line state: whether it has focus, and its text.
#[verifier::ext_equal]
pub struct CliModel {
    pub focus: bool,
    pub text: Seq<char>,
}

/// The operator's command line: focused while a command is being typed.
#[derive(Debug, Default)]
pub struct CommandLine {
    has_focus: bool,
    command: String,
}

impl View for CommandLine {
    type V = CliModel;

    closed spec fn view(&self) -> CliModel {
        CliModel { focus: self.has_focus, text: self.command@ }
    }
}

impl CommandLine {
    pub fn new() -> (r: CommandLine)
        ensures
            r@ == (CliModel { focus: false, text: Seq::<char>::empty() }),
    {
        CommandLine { has_focus: false, command: String::new() }
    }

    /// Whether the command line is being edited.
    pub fn has_focus(&self) -> (r: bool)
        ensures
            r == self@.focus,
    {
        self.has_focus
    }

    /// The text under edit.
    pub fn command(&self) -> (r: &String)
        ensures
            r@ == self@.text,
    {
        &self.command
    }

    /// Appends one typed character.
    pub fn push_char(&mut self, c: char)
        ensures
            final(self)@ == (CliModel { focus: old(self)@.focus, text: old(self)@.text.push(c) }),
    {
        push_char(&mut self.command, c);
    }

    /// Drops focus; the text stays.
    pub fn blur(&mut self)
        ensures
            final(self)@ == (CliModel { focus: false, text: old(self)@.text }),
    {
        self.has_focus = false;
    }

    /// Takes focus and starts a fresh command with its leading colon.
    pub fn focus(&mut self)
        ensures
            final(self)@ == (CliModel { focus: true, text: ":"@ }),
    {
        self.has_focus = true;
        self.command = String::from_str(":");
    }

    /// Deletes the last character; deleting the leading colon drops focus
    /// instead. Without focus nothing changes.
    pub fn backspace(&mut self)
        ensures
            final(self)@ == (if !old(self)@.focus {
                old(self)@
            } else if old(self)@.text.len() > 1 {
                CliModel { focus: true, text: old(self)@.text.drop_last() }
            } else {
                CliModel { focus: false, text: old(self)@.text }
            }),
    {
        if !self.has_focus {
            return ;
        }
        let n = self.command.as_str().unicode_len();
        if n > 1 {
            let shorter = self.command.as_str().substring_char(0, n - 1);
            let shorter = shorter.to_owned();
            self.command = shorter;
            proof {
                assert(old(self)@.text.take(n - 1) =~= old(self)@.text.drop_last());
            }
        } else {
            self.blur();
        }
    }

    /// Abandons the command: clears the text and drops focus.
    pub fn exit(&mut self)
        ensures
            final(self)@ == (CliModel { focus: false, text: Seq::<char>::empty() }),
    {
        self.command = String::new();
        self.blur();
    }

    /// Finishes the command: returns the text, leaving the line empty and
    /// unfocused. An empty line yields nothing.
    pub fn complete(&mut self) -> (r: Option<String>)
        ensures
            match r {
                Some(command) => old(self)@.text.len() > 0 && command@ == old(self)@.text
                    && final(self)@ == (CliModel { focus: false, text: Seq::<char>::empty() }),
                None => old(self)@.text.len() == 0 && final(self)@ == (CliModel {
                    focus: old(self)@.focus,
                    text: Seq::<char>::empty(),
                }),
            },
    {
        if self.command.as_str().unicode_len() > 0 {
            let command = self.command.clone();
            self.command = String::new();
            self.blur();
            return Some(command);
        }
        None
    }
}

} // verus!
