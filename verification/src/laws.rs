//! What holds of every shell and every input, proved from what the
//! contracts of the shell's functions state.

use crate::commands::Behaviour;
use crate::effect::EffectView;
use crate::model::{
    ascending, closing_effects, help_effects, listing, next_line, prompt_effects, respond,
    session, Reply,
};
use crate::shell::Shell;
use crate::text::{
    all_white_space, lemma_trimmed_idempotent, lemma_trimmed_ignores_surroundings, trimmed,
};
use vstd::prelude::*;

verus! {

/// Whatever was registered since the shell was made, a command is
/// registered under the name `exit`.
pub proof fn law_exit_is_always_registered(shell: Shell)
    requires
        shell.wf(),
    ensures
        shell@.commands.contains_key("exit"@),
{
    shell.lemma_well_formed();
}

/// The help text has its heading, one line for `help`, and after it one
/// line for each registered command, in the ascending order of the names,
/// whatever the order was in which the commands were registered.
pub proof fn law_help_lists_the_registry(shell: Shell)
    requires
        shell.wf(),
    ensures
        ascending(listing(shell@.commands.dom())),
        listing(shell@.commands.dom()).to_set() == shell@.commands.dom(),
        help_effects(shell@.commands).len() == 2 + shell@.commands.dom().len(),
        help_effects(shell@.commands)[0] == EffectView::Print("Available commands:\n"@),
{
    shell.lemma_well_formed();
}

/// A line that is, once trimmed, the name of a registered command executes
/// that command, once: the answer is what the command does, and it ends the
/// session if the command says so. The one exception is the name `help`.
pub proof fn law_registered_name_executes_its_command(
    commands: Map<Seq<char>, Behaviour>,
    line: Seq<char>,
)
    requires
        commands.contains_key(trimmed(line)),
        trimmed(line) != "help"@,
    ensures
        respond(commands, line) == (Reply {
            effects: commands[trimmed(line)].effects,
            stop: commands[trimmed(line)].terminates,
        }),
{
}

/// A command registered under a name that is taken replaces the command
/// that had the name: the registry is the same as if the first had never
/// been registered, and a line with that name executes the second.
pub proof fn law_later_registration_replaces(
    commands: Map<Seq<char>, Behaviour>,
    name: Seq<char>,
    first: Behaviour,
    second: Behaviour,
    line: Seq<char>,
)
    requires
        trimmed(line) == name,
        name != "help"@,
    ensures
        commands.insert(name, first).insert(name, second) == commands.insert(name, second),
        respond(commands.insert(name, first).insert(name, second), line) == (Reply {
            effects: second.effects,
            stop: second.terminates,
        }),
{
}

/// The line `help` gives the help text and goes on with the session. No
/// registered command is executed for it, not even one that was registered
/// under the name `help`.
pub proof fn law_help_is_reserved(commands: Map<Seq<char>, Behaviour>, line: Seq<char>)
    requires
        trimmed(line) == "help"@,
    ensures
        respond(commands, line) == (Reply { effects: help_effects(commands), stop: false }),
{
}

/// Whether, from the line at index `at` on, a command ends the session
/// before the lines have run out.
pub open spec fn ended_by_command(
    commands: Map<Seq<char>, Behaviour>,
    lines: Seq<Seq<char>>,
    at: nat,
) -> bool
    decreases lines.len() - at,
{
    if at >= lines.len() {
        false
    } else {
        let reply = respond(commands, lines[at as int]);
        reply.stop || ended_by_command(commands, lines, next_line(lines.len(), at, reply.effects))
    }
}

/// Whatever the input was: a session that no command has ended comes to
/// the end of the input, and there it ends with one more prompt, an empty
/// line, and what the command registered as `exit` does, once.
pub proof fn law_end_of_input_executes_exit(
    commands: Map<Seq<char>, Behaviour>,
    lines: Seq<Seq<char>>,
    at: nat,
) -> (before: Seq<EffectView>)
    requires
        !ended_by_command(commands, lines, at),
    ensures
        session(commands, lines, at) == before + prompt_effects() + closing_effects(commands),
    decreases lines.len() - at,
{
    if at >= lines.len() {
        Seq::empty()
    } else {
        let reply = respond(commands, lines[at as int]);
        let rest = law_end_of_input_executes_exit(
            commands,
            lines,
            next_line(lines.len(), at, reply.effects),
        );
        prompt_effects() + reply.effects + rest
    }
}

/// A session that a command ends does not run past that command: it ends
/// with what the command does.
pub proof fn law_command_ends_session(
    commands: Map<Seq<char>, Behaviour>,
    lines: Seq<Seq<char>>,
    at: nat,
) -> (last: int)
    requires
        ended_by_command(commands, lines, at),
    ensures
        at <= last < lines.len(),
        respond(commands, lines[last]).stop,
        exists|before: Seq<EffectView>|
            session(commands, lines, at) == before + respond(commands, lines[last]).effects,
    decreases lines.len() - at,
{
    let reply = respond(commands, lines[at as int]);
    if reply.stop {
        assert(session(commands, lines, at) == prompt_effects() + reply.effects);
        at as int
    } else {
        let next = next_line(lines.len(), at, reply.effects);
        let last = law_command_ends_session(commands, lines, next);
        let rest = choose|rest: Seq<EffectView>|
            session(commands, lines, next) == rest + respond(commands, lines[last]).effects;
        let before = prompt_effects() + reply.effects + rest;
        assert(session(commands, lines, at) =~= before + respond(commands, lines[last]).effects);
        last
    }
}

/// A line is answered as its trimmed text is: white space before and
/// after the command's name does not count.
pub proof fn law_line_is_trimmed(commands: Map<Seq<char>, Behaviour>, line: Seq<char>)
    ensures
        respond(commands, line) == respond(commands, trimmed(line)),
{
    lemma_trimmed_idempotent(line);
}

/// A text with white space before and after it is answered as the text
/// alone.
pub proof fn law_surrounding_white_space_is_ignored(
    commands: Map<Seq<char>, Behaviour>,
    lead: Seq<char>,
    word: Seq<char>,
    trail: Seq<char>,
)
    requires
        all_white_space(lead),
        all_white_space(trail),
    ensures
        respond(commands, lead + word + trail) == respond(commands, word),
{
    lemma_trimmed_ignores_surroundings(lead, word, trail);
}

} // verus!
