//! A generic command interpreter: the registry of commands, and the steps
//! of a session.

use crate::commands::{exit_behaviour, Behaviour, ExitCommand, ShellCommand};
use crate::effect::{count_skipped, emit, print, views, Effect, EffectView};
use crate::model::{
    ascending, closing_effects, column_width, entry_line, help_effects, help_line, is_listing,
    lemma_listing_unique, listing, longest, prompt_effects, respond, run_effects, session,
    ShellView,
};
use crate::text::{before, lemma_before_is_strict_total_order, pad_past, place, texts, trim, Place};
use vstd::prelude::*;
use vstd::seq_lib::seq_to_set_is_finite;
use vstd::string::*;

verus! {

/// A command under its name. The type of the command is left open, so
/// that an entry takes a boxed command as it stands.
struct Named<C> {
    name: String,
    command: C,
}

impl<C> Named<C> {
    /// `command` under `name`.
    fn new(name: String, command: C) -> (named: Self)
        ensures
            named.name == name,
            named.command == command,
    {
        Named { name, command }
    }
}

/// An entry of the registry.
type Entry = Named<Box<dyn ShellCommand>>;

/// The names of `entries`, in order.
spec fn names_of(entries: Seq<Entry>) -> Seq<Seq<char>> {
    entries.map_values(|e: Entry| e.name@)
}

/// The commands of `entries`, each under its name.
spec fn registry(entries: Seq<Entry>) -> Map<Seq<char>, Behaviour> {
    Map::new(
        |name: Seq<char>| names_of(entries).contains(name),
        |name: Seq<char>| entries[names_of(entries).index_of(name)].command.behaviour(),
    )
}

/// In an ascending list each name stands at one index only.
proof fn lemma_index_of(names: Seq<Seq<char>>, i: int)
    requires
        ascending(names),
        0 <= i < names.len(),
    ensures
        names.index_of(names[i]) == i,
{
    lemma_before_is_strict_total_order();
    let j = names.index_of(names[i]);
    if j < i {
        assert(before(names[j], names[i]));
    } else if i < j {
        assert(before(names[i], names[j]));
    }
}

/// The registry holds each entry's command under the entry's name.
proof fn lemma_registry_entry(entries: Seq<Entry>, i: int)
    requires
        ascending(names_of(entries)),
        0 <= i < entries.len(),
    ensures
        registry(entries).contains_key(entries[i].name@),
        registry(entries)[entries[i].name@] == entries[i].command.behaviour(),
{
    lemma_index_of(names_of(entries), i);
}

/// The registry holds nothing under a name that belongs between two
/// entries, before the first or after the last.
proof fn lemma_registry_gap(entries: Seq<Entry>, at: int, name: Seq<char>)
    requires
        ascending(names_of(entries)),
        0 <= at <= entries.len(),
        forall|i: int| 0 <= i < at ==> before(#[trigger] names_of(entries)[i], name),
        at < entries.len() ==> before(name, names_of(entries)[at]),
    ensures
        !names_of(entries).contains(name),
        !registry(entries).contains_key(name),
{
    lemma_before_is_strict_total_order();
    let names = names_of(entries);
    assert forall|i: int| 0 <= i < names.len() implies names[i] != name by {
        if at < i {
            assert(before(names[at], names[i]));
        }
    }
}

/// Putting an entry in the place of the entry that has its name keeps the
/// names as they are, and changes the registry under that name only.
proof fn lemma_replace(entries: Seq<Entry>, at: int, entry: Entry)
    requires
        ascending(names_of(entries)),
        0 <= at < entries.len(),
        names_of(entries)[at] == entry.name@,
    ensures
        names_of(entries.update(at, entry)) == names_of(entries),
        registry(entries.update(at, entry)) == registry(entries).insert(
            entry.name@,
            entry.command.behaviour(),
        ),
{
    let after = entries.update(at, entry);
    let names = names_of(entries);
    assert(names_of(after) =~= names);
    assert forall|k: Seq<char>| #[trigger]
        registry(after).contains_key(k) implies registry(after)[k] == registry(entries).insert(
        entry.name@,
        entry.command.behaviour(),
    )[k] by {
        let j = names.index_of(k);
        assert(names[j] == k);
        lemma_index_of(names, j);
        lemma_index_of(names, at);
        assert(j == at <==> k == entry.name@);
    }
}

/// Putting a new entry where its name belongs keeps the names ascending,
/// keeps the names that were there, and adds the entry to the registry.
proof fn lemma_insert(entries: Seq<Entry>, at: int, entry: Entry)
    requires
        ascending(names_of(entries)),
        0 <= at <= entries.len(),
        forall|i: int| 0 <= i < at ==> before(#[trigger] names_of(entries)[i], entry.name@),
        at < entries.len() ==> before(entry.name@, names_of(entries)[at]),
    ensures
        ascending(names_of(entries.insert(at, entry))),
        forall|k: Seq<char>|
            names_of(entries).contains(k) ==> names_of(entries.insert(at, entry)).contains(k),
        registry(entries.insert(at, entry)) == registry(entries).insert(
            entry.name@,
            entry.command.behaviour(),
        ),
{
    lemma_before_is_strict_total_order();
    let after = entries.insert(at, entry);
    let olds = names_of(entries);
    let news = names_of(after);
    let name = entry.name@;
    entries.insert_ensures(at, entry);
    olds.insert_ensures(at, name);
    assert(news =~= olds.insert(at, name));
    assert forall|a: int, b: int| 0 <= a < b < news.len() implies before(news[a], news[b]) by {
        if a == at && at < b - 1 {
            assert(before(olds[at], olds[b - 1]));
        }
    }
    assert forall|k: Seq<char>| olds.contains(k) implies news.contains(k) by {
        let j = olds.index_of(k);
        assert(news[if j < at { j } else { j + 1 }] == k);
    }
    lemma_registry_gap(entries, at, name);
    assert forall|k: Seq<char>| #[trigger]
        registry(after).contains_key(k) implies registry(after)[k] == registry(entries).insert(
        name,
        entry.command.behaviour(),
    )[k] by {
        let j = news.index_of(k);
        assert(news[j] == k);
        lemma_registry_entry(after, j);
        if j != at {
            let j0 = if j < at { j } else { j - 1 };
            assert(olds[j0] == k);
            assert(k != name);
            lemma_registry_entry(entries, j0);
        }
    }
}

/// The names of the entries are the listing of the registry.
proof fn lemma_registry_listing(entries: Seq<Entry>)
    requires
        ascending(names_of(entries)),
    ensures
        is_listing(names_of(entries), registry(entries).dom()),
        listing(registry(entries).dom()) == names_of(entries),
{
    let names = names_of(entries);
    let of = registry(entries).dom();
    assert(is_listing(names, of));
    let chosen = listing(of);
    lemma_listing_unique(chosen, names);
}

/// An interactive command interpreter.
pub struct Shell {
    greeting: String,
    commands: Vec<Entry>,
}

impl View for Shell {
    type V = ShellView;

    closed spec fn view(&self) -> ShellView {
        ShellView { greeting: self.greeting@, commands: registry(self.commands@) }
    }
}

impl Shell {
    /// Whether the shell is well formed: its entries stand in the order of
    /// their names, so that no name stands twice, and `exit` is among them.
    /// Every shell that [`Shell::new`] made is, and stays so.
    pub closed spec fn wf(&self) -> bool {
        &&& ascending(names_of(self.commands@))
        &&& names_of(self.commands@).contains("exit"@)
    }

    /// Where `name` stands among the entries: the index of the first entry
    /// whose name does not come before it, and whether that entry has this
    /// very name.
    fn position(&self, name: &str) -> (r: (usize, bool))
        ensures
            r.0 <= self.commands@.len(),
            forall|i: int| 0 <= i < r.0 ==> before(#[trigger] names_of(self.commands@)[i], name@),
            r.1 ==> r.0 < self.commands@.len() && names_of(self.commands@)[r.0 as int] == name@,
            !r.1 && r.0 < self.commands@.len() ==> before(
                name@,
                names_of(self.commands@)[r.0 as int],
            ),
    {
        let mut i: usize = 0;
        while i < self.commands.len()
            invariant
                i <= self.commands@.len(),
                forall|k: int| 0 <= k < i ==> before(#[trigger] names_of(self.commands@)[k], name@),
            decreases self.commands@.len() - i,
        {
            match place(self.commands[i].name.as_str(), name) {
                Place::Before => {},
                Place::Same => {
                    return (i, true);
                },
                Place::After => {
                    return (i, false);
                },
            }
            i = i + 1;
        }
        (i, false)
    }

    /// Generate a new shell with barebones commands.
    pub fn new(greeting: String, closing: String) -> (shell: Shell)
        ensures
            shell.wf(),
            shell@ == (ShellView {
                greeting: greeting@,
                commands: Map::empty().insert("exit"@, exit_behaviour(closing@)),
            }),
    {
        let mut commands: Vec<Entry> = Vec::new();
        let exit_command = ExitCommand { exit_string: closing };
        let exit: Box<dyn ShellCommand> = Box::new(exit_command);
        let entry = Named::new(String::from_str("exit"), exit);
        commands.push(entry);
        proof {
            assert(names_of(commands@)[0] == "exit"@);
            assert(registry(commands@) =~= Map::empty().insert("exit"@, exit_behaviour(closing@)));
        }
        Shell { greeting, commands }
    }

    /// Add a new command to the shell. A command that was registered under
    /// the same name before is replaced; every other name keeps its command.
    pub fn add_command(&mut self, name: &str, command: Box<dyn ShellCommand>)
        requires
            old(self).wf(),
        ensures
            final(self).wf(),
            final(self)@ == (ShellView {
                greeting: old(self)@.greeting,
                commands: old(self)@.commands.insert(name@, command.behaviour()),
            }),
            final(self)@.commands.dom() == old(self)@.commands.dom().insert(name@),
            forall|k: Seq<char>|
                k != name@ && #[trigger] old(self)@.commands.contains_key(k)
                    ==> final(self)@.commands[k] == old(self)@.commands[k],
    {
        let (at, found) = self.position(name);
        let entry = Named::new(String::from_str(name), command);
        proof {
            if found {
                lemma_replace(self.commands@, at as int, entry);
            } else {
                lemma_insert(self.commands@, at as int, entry);
            }
        }
        if found {
            self.commands[at] = entry;
        } else {
            self.commands.insert(at, entry);
        }
    }

    /// In a well-formed shell `exit` is registered, and the names of the
    /// registered commands are finitely many and have a listing, which
    /// holds each of them once.
    pub proof fn lemma_well_formed(&self)
        requires
            self.wf(),
        ensures
            self@.commands.contains_key("exit"@),
            self@.commands.dom().finite(),
            is_listing(listing(self@.commands.dom()), self@.commands.dom()),
            listing(self@.commands.dom()).len() == self@.commands.dom().len(),
    {
        lemma_before_is_strict_total_order();
        lemma_registry_listing(self.commands@);
        let names = names_of(self.commands@);
        seq_to_set_is_finite(names);
        assert forall|i: int, j: int|
            0 <= i < names.len() && 0 <= j < names.len() && i != j implies names[i]
            != names[j] by {
            if i < j {
                assert(before(names[i], names[j]));
            } else {
                assert(before(names[j], names[i]));
            }
        }
        names.unique_seq_to_set();
    }

    /// The greeting, to be written once when the session starts.
    pub fn greet(&self, out: &mut Vec<Effect>)
        ensures
            views(final(out)@) == views(old(out)@).push(
                EffectView::Print(self@.greeting + "\n"@),
            ),
    {
        let line = self.greeting.clone().concat("\n");
        print(out, line);
    }

    /// The prompt, to be written before each line is read.
    pub fn prompt(&self, out: &mut Vec<Effect>)
        ensures
            views(final(out)@) == views(old(out)@) + prompt_effects(),
    {
        print(out, String::from_str("> "));
        emit(out, Effect::Flush);
    }

    /// Print information about all available commands.
    pub fn print_help_text(&self, out: &mut Vec<Effect>)
        requires
            self.wf(),
        ensures
            views(final(out)@) == views(old(out)@) + help_effects(self@.commands),
    {
        let ghost names = names_of(self.commands@);
        let ghost commands = registry(self.commands@);
        proof {
            lemma_registry_listing(self.commands@);
        }
        // Find the longest command for display
        let mut reach: usize = 4;
        let mut i: usize = 0;
        while i < self.commands.len()
            invariant
                i <= self.commands@.len(),
                names == names_of(self.commands@),
                reach == if longest(names.take(i as int)) > 4 {
                    longest(names.take(i as int))
                } else {
                    4
                },
            decreases self.commands@.len() - i,
        {
            let n = self.commands[i].name.as_str().as_bytes().len();
            assert(names.take(i + 1).drop_last() =~= names.take(i as int));
            if n > reach {
                reach = n;
            }
            i = i + 1;
        }
        assert(names.take(i as int) =~= names);
        let ghost width = column_width(names);

        print(out, String::from_str("Available commands:\n"));
        let mut line = pad_past("help", reach);
        line.append(" Print this help text\n");
        print(out, line);
        let mut i: usize = 0;
        while i < self.commands.len()
            invariant
                i <= self.commands@.len(),
                self.wf(),
                names == names_of(self.commands@),
                commands == registry(self.commands@),
                width == reach + 1,
                views(out@) == views(old(out)@) + (seq![
                    EffectView::Print("Available commands:\n"@),
                    EffectView::Print(help_line(width)),
                ] + Seq::new(
                    i as nat,
                    |k: int|
                        EffectView::Print(
                            entry_line(names[k], commands[names[k]].description, width),
                        ),
                )),
            decreases self.commands@.len() - i,
        {
            let entry = &self.commands[i];
            let mut line = pad_past(entry.name.as_str(), reach);
            line.append(" ");
            let description = entry.command.describe();
            line.append(description.as_str());
            line.append("\n");
            proof {
                lemma_registry_entry(self.commands@, i as int);
            }
            print(out, line);
            i = i + 1;
        }
    }

    /// Answers one line of input: the line is trimmed, and the command of
    /// that name is executed. The result says whether the session ends.
    pub fn dispatch(&self, line: &str, out: &mut Vec<Effect>) -> (stop: bool)
        requires
            self.wf(),
        ensures
            views(final(out)@) == views(old(out)@) + respond(self@.commands, line@).effects,
            stop == respond(self@.commands, line@).stop,
    {
        let command = trim(line);
        match place(command, "help") {
            Place::Same => {
                self.print_help_text(out);
                false
            },
            _ => {
                let (at, found) = self.position(command);
                if found {
                    proof {
                        lemma_registry_entry(self.commands@, at as int);
                    }
                    self.commands[at].command.execute(out)
                } else {
                    proof {
                        lemma_registry_gap(self.commands@, at as int, command@);
                    }
                    print(out, String::from_str("Error: unknown command\n"));
                    false
                }
            },
        }
    }

    /// Ends the session because the input has ended: an empty line is
    /// written and the command registered as `exit` is executed. Whatever
    /// that command returns, the session is over.
    pub fn end_of_input(&self, out: &mut Vec<Effect>)
        requires
            self.wf(),
        ensures
            views(final(out)@) == views(old(out)@) + closing_effects(self@.commands),
    {
        print(out, String::from_str("\n"));
        let (at, found) = self.position("exit");
        proof {
            if !found {
                lemma_registry_gap(self.commands@, at as int, "exit"@);
            }
            lemma_registry_entry(self.commands@, at as int);
        }
        let _ = self.commands[at].command.execute(out);
    }

    /// Execute the shell on an input that is known beforehand, line by
    /// line, and return everything that the session does. The session goes
    /// on until a command ends it or the lines have run out.
    pub fn run(&self, lines: &Vec<String>) -> (trace: Vec<Effect>)
        requires
            self.wf(),
        ensures
            views(trace@) == run_effects(self@, texts(lines@)),
    {
        let ghost commands = self@.commands;
        let ghost input = texts(lines@);
        let mut out: Vec<Effect> = Vec::new();
        self.greet(&mut out);
        let mut at: usize = 0;
        loop
            invariant_except_break
                at <= lines@.len(),
                views(out@) + session(commands, input, at as nat) == run_effects(self@, input),
            invariant
                self.wf(),
                commands == self@.commands,
                input == texts(lines@),
            ensures
                views(out@) == run_effects(self@, input),
            decreases lines@.len() - at,
        {
            self.prompt(&mut out);
            if at >= lines.len() {
                self.end_of_input(&mut out);
                break ;
            }
            let from = out.len();
            let stop = self.dispatch(lines[at].as_str(), &mut out);
            let ghost reply = respond(commands, input[at as int]);
            if stop {
                break ;
            }
            let skips = count_skipped(&out, from);
            proof {
                assert(views(out@).len() == out@.len());
                assert(views(out@.skip(from as int)) =~= reply.effects) by {
                    assert forall|k: int| 0 <= k < reply.effects.len() implies views(
                        out@.skip(from as int),
                    )[k] == reply.effects[k] by {
                        assert(views(out@)[from + k] == reply.effects[k]);
                    }
                }
            }
            if skips < lines.len() - at - 1 {
                at = at + 1 + skips;
            } else {
                at = lines.len();
            }
        }
        out
    }
}

} // verus!
