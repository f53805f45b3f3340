//! What a shell does, stated on plain values: the registry is a map from
//! names to what the commands do, the input is a sequence of lines, and
//! what happens is a sequence of effects.

use crate::commands::Behaviour;
use crate::effect::{skipped, EffectView};
use crate::text::{before, lemma_before_is_strict_total_order, padded, trimmed};
use vstd::prelude::*;
use vstd::utf8::*;

verus! {

/// Whether `names` are in strictly ascending order.
pub open spec fn ascending(names: Seq<Seq<char>>) -> bool {
    forall|i: int, j: int| 0 <= i < j < names.len() ==> before(names[i], names[j])
}

/// Whether `names` are the members of `of`, each once, in ascending order.
pub open spec fn is_listing(names: Seq<Seq<char>>, of: Set<Seq<char>>) -> bool {
    ascending(names) && names.to_set() == of
}

/// The members of `of` in ascending order.
pub open spec fn listing(of: Set<Seq<char>>) -> Seq<Seq<char>> {
    choose|names: Seq<Seq<char>>| is_listing(names, of)
}

/// A set of names has one listing at most.
pub proof fn lemma_listing_unique(a: Seq<Seq<char>>, b: Seq<Seq<char>>)
    requires
        ascending(a),
        ascending(b),
        a.to_set() == b.to_set(),
    ensures
        a == b,
    decreases a.len(),
{
    lemma_before_is_strict_total_order();
    if a.len() == 0 || b.len() == 0 {
        if a.len() > 0 {
            assert(b.to_set().contains(a[0]));
        }
        if b.len() > 0 {
            assert(a.to_set().contains(b[0]));
        }
    } else {
        assert(b.to_set().contains(a[0]));
        assert(a.to_set().contains(b[0]));
        let i = choose|i: int| 0 <= i < a.len() && a[i] == b[0];
        let j = choose|j: int| 0 <= j < b.len() && b[j] == a[0];
        if i > 0 && j > 0 {
            assert(before(a[0], a[i]));
            assert(before(b[0], b[j]));
        }
        let a1 = a.drop_first();
        let b1 = b.drop_first();
        assert forall|x: Seq<char>| a1.to_set().contains(x) == b1.to_set().contains(x) by {
            if a1.contains(x) {
                let k = choose|k: int| 0 <= k < a1.len() && a1[k] == x;
                assert(before(a[0], a[k + 1]));
                assert(b.to_set().contains(x));
                let m = choose|m: int| 0 <= m < b.len() && b[m] == x;
                assert(b1[m - 1] == x);
            }
            if b1.contains(x) {
                let k = choose|k: int| 0 <= k < b1.len() && b1[k] == x;
                assert(before(b[0], b[k + 1]));
                assert(a.to_set().contains(x));
                let m = choose|m: int| 0 <= m < a.len() && a[m] == x;
                assert(a1[m - 1] == x);
            }
        }
        assert(a1.to_set() =~= b1.to_set());
        lemma_listing_unique(a1, b1);
        assert(a =~= seq![a[0]] + a1);
    }
}

/// The length in bytes of the longest of `names`.
pub open spec fn longest(names: Seq<Seq<char>>) -> nat
    decreases names.len(),
{
    if names.len() == 0 {
        0
    } else {
        let rest = longest(names.drop_last());
        let last = encode_utf8(names.last()).len();
        if last > rest {
            last
        } else {
            rest
        }
    }
}

/// The width of the column of names in the help text: one more than the
/// longest name has bytes, and 5 at least.
pub open spec fn column_width(names: Seq<Seq<char>>) -> nat {
    if longest(names) + 1 > 5 {
        longest(names) + 1
    } else {
        5
    }
}

/// The line of the help text that stands for `help` itself.
pub open spec fn help_line(width: nat) -> Seq<char> {
    padded("help"@, width) + " Print this help text\n"@
}

/// The line of the help text for the command `name`.
pub open spec fn entry_line(name: Seq<char>, description: Seq<char>, width: nat) -> Seq<char> {
    padded(name, width) + " "@ + description + "\n"@
}

/// The help text, line by line: the heading, the line for `help`, then
/// one line for each registered command, in the ascending order of their
/// names.
pub open spec fn help_effects(commands: Map<Seq<char>, Behaviour>) -> Seq<EffectView> {
    let names = listing(commands.dom());
    let width = column_width(names);
    seq![EffectView::Print("Available commands:\n"@), EffectView::Print(help_line(width))]
        + Seq::new(
        names.len(),
        |i: int| EffectView::Print(entry_line(names[i], commands[names[i]].description, width)),
    )
}

/// What the shell writes before it reads a line.
pub open spec fn prompt_effects() -> Seq<EffectView> {
    seq![EffectView::Print("> "@), EffectView::Flush]
}

/// What the shell does when the input has ended: it writes an empty line
/// and executes the command registered as `exit`.
pub open spec fn closing_effects(commands: Map<Seq<char>, Behaviour>) -> Seq<EffectView> {
    seq![EffectView::Print("\n"@)] + commands["exit"@].effects
}

/// The shell's answer to a line of input.
pub struct Reply {
    /// What is done.
    pub effects: Seq<EffectView>,
    /// Whether the session ends with it.
    pub stop: bool,
}

/// The answer to `line` of a shell with the registry `commands`. The line
/// is trimmed. `help` gives the help text, whatever is registered under
/// that name. A registered name executes its command, once. Anything else
/// is an unknown command.
pub open spec fn respond(commands: Map<Seq<char>, Behaviour>, line: Seq<char>) -> Reply {
    let word = trimmed(line);
    if word == "help"@ {
        Reply { effects: help_effects(commands), stop: false }
    } else if commands.contains_key(word) {
        Reply { effects: commands[word].effects, stop: commands[word].terminates }
    } else {
        Reply { effects: seq![EffectView::Print("Error: unknown command\n"@)], stop: false }
    }
}

/// The index of the line that the shell reads next, after it has answered
/// the line at index `at` of `count` lines with `effects`: the effects may
/// have read lines themselves.
pub open spec fn next_line(count: nat, at: nat, effects: Seq<EffectView>) -> nat {
    if at + 1 + skipped(effects) < count {
        at + 1 + skipped(effects)
    } else {
        count
    }
}

/// What a session does from the moment at which the shell is about to
/// read the line at index `at` of `lines`: it prompts and answers the
/// line, and goes on with the next one, until a command ends the session.
/// Where the lines run out first, it prompts once more and closes.
pub open spec fn session(
    commands: Map<Seq<char>, Behaviour>,
    lines: Seq<Seq<char>>,
    at: nat,
) -> Seq<EffectView>
    decreases lines.len() - at,
{
    if at >= lines.len() {
        prompt_effects() + closing_effects(commands)
    } else {
        let reply = respond(commands, lines[at as int]);
        if reply.stop {
            prompt_effects() + reply.effects
        } else {
            prompt_effects() + reply.effects + session(
                commands,
                lines,
                next_line(lines.len(), at, reply.effects),
            )
        }
    }
}

/// A shell as its contracts speak of it: its greeting, and the behaviour
/// of each registered command under the command's name.
pub struct ShellView {
    pub greeting: Seq<char>,
    pub commands: Map<Seq<char>, Behaviour>,
}

/// What a whole session on the input `lines` does: the greeting, then the
/// session from the first line on.
pub open spec fn run_effects(shell: ShellView, lines: Seq<Seq<char>>) -> Seq<EffectView> {
    seq![EffectView::Print(shell.greeting + "\n"@)] + session(shell.commands, lines, 0)
}

} // verus!
