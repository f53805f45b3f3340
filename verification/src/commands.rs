//! Shell commands.

use crate::effect::{emit, print, views, Effect, EffectView};
use vstd::prelude::*;
use vstd::string::*;

verus! {

/// What a command does: the text that describes it, the effects of
/// executing it, and whether executing it ends the session.
pub struct Behaviour {
    pub description: Seq<char>,
    pub effects: Seq<EffectView>,
    pub terminates: bool,
}

/// A command that can be executed in the shell.
pub trait ShellCommand {
    /// What this command does, as a value. A command says it here, and its
    /// `execute` and `describe` are held to it; of a command that does not
    /// say it, nothing is known.
    open spec fn behaviour(&self) -> Behaviour {
        arbitrary()
    }

    /// Execute the command: its effects are appended to `out`. A return
    /// value of true will cause the shell to exit.
    fn execute(&self, out: &mut Vec<Effect>) -> (stop: bool)
        ensures
            views(final(out)@) == views(old(out)@) + self.behaviour().effects,
            stop == self.behaviour().terminates,
    ;

    /// Describe the command. Can be used to generate help text.
    fn describe(&self) -> (text: String)
        ensures
            text@ == self.behaviour().description,
    ;
}

/// A command that exits the shell.
pub struct ExitCommand {
    /// A message that will be printed just before exiting the shell.
    pub exit_string: String,
}

/// What the command that exits with the message `closing` does.
pub open spec fn exit_behaviour(closing: Seq<char>) -> Behaviour {
    Behaviour {
        description: "Exit the command interpreter"@,
        effects: seq![EffectView::Print(closing + "\n"@)],
        terminates: true,
    }
}

impl ShellCommand for ExitCommand {
    open spec fn behaviour(&self) -> Behaviour {
        exit_behaviour(self.exit_string@)
    }

    fn execute(&self, out: &mut Vec<Effect>) -> (stop: bool) {
        let line = self.exit_string.clone().concat("\n");
        print(out, line);
        true
    }

    fn describe(&self) -> (text: String) {
        String::from_str("Exit the command interpreter")
    }
}

/// Shell command for sending a message to mission control.
pub struct SendMessageCommand {}

/// What the command that sends a message does: it asks for the message,
/// takes one line of input, and acknowledges it. The line goes nowhere.
pub open spec fn send_message_behaviour() -> Behaviour {
    Behaviour {
        description: "Send a message to mission control"@,
        effects: seq![
            EffectView::Print("Enter message:\n"@),
            EffectView::Print(">> "@),
            EffectView::Flush,
            EffectView::SkipLine,
            EffectView::Print("Message sent\n"@),
        ],
        terminates: false,
    }
}

impl ShellCommand for SendMessageCommand {
    open spec fn behaviour(&self) -> Behaviour {
        send_message_behaviour()
    }

    fn execute(&self, out: &mut Vec<Effect>) -> (stop: bool) {
        print(out, String::from_str("Enter message:\n"));
        print(out, String::from_str(">> "));
        emit(out, Effect::Flush);
        emit(out, Effect::SkipLine);
        print(out, String::from_str("Message sent\n"));
        false
    }

    fn describe(&self) -> (text: String) {
        String::from_str("Send a message to mission control")
    }
}

/// Shell command for checking status of ship systems
pub struct CheckStatusCommand {}

/// What the command that checks the status does.
pub open spec fn check_status_behaviour() -> Behaviour {
    Behaviour {
        description: "Check systems status"@,
        effects: seq![
            EffectView::Print("Engines:      Nominal\n"@),
            EffectView::Print("Shields:      Nominal\n"@),
            EffectView::Print("Life support: Nominal\n"@),
        ],
        terminates: false,
    }
}

impl ShellCommand for CheckStatusCommand {
    open spec fn behaviour(&self) -> Behaviour {
        check_status_behaviour()
    }

    fn execute(&self, out: &mut Vec<Effect>) -> (stop: bool) {
        print(out, String::from_str("Engines:      Nominal\n"));
        print(out, String::from_str("Shields:      Nominal\n"));
        print(out, String::from_str("Life support: Nominal\n"));
        false
    }

    fn describe(&self) -> (text: String) {
        String::from_str("Check systems status")
    }
}

} // verus!
