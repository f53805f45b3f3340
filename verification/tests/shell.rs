use curiosity::commands::{CheckStatusCommand, ExitCommand, SendMessageCommand, ShellCommand};
use curiosity::effect::{print, transcript, Effect};
use curiosity::shell::Shell;

/// A command that writes its own name and goes on.
struct Echo {
    word: &'static str,
}

impl ShellCommand for Echo {
    fn execute(&self, out: &mut Vec<Effect>) -> bool {
        print(out, format!("{}\n", self.word));
        false
    }

    fn describe(&self) -> String {
        format!("Say {}", self.word)
    }
}

fn lines(input: &[&str]) -> Vec<String> {
    input.iter().map(|line| format!("{}\n", line)).collect()
}

fn rover() -> Shell {
    let mut shell = Shell::new(String::from("Welcome"), String::from("Bye"));
    shell.add_command("status", Box::new(CheckStatusCommand {}));
    shell
}

fn answer(shell: &Shell, line: &str) -> (String, bool) {
    let mut out = Vec::new();
    let stop = shell.dispatch(line, &mut out);
    (transcript(&out), stop)
}

const STATUS: &str = "Engines:      Nominal\nShields:      Nominal\nLife support: Nominal\n";

#[test]
fn session_with_status_help_and_exit() {
    let shell = rover();
    let trace = shell.run(&lines(&["status", "help", "exit"]));
    assert_eq!(
        transcript(&trace),
        "Welcome\n\
         > Engines:      Nominal\n\
         Shields:      Nominal\n\
         Life support: Nominal\n\
         > Available commands:\n\
         help    Print this help text\n\
         exit    Exit the command interpreter\n\
         status  Check systems status\n\
         > Bye\n"
    );
}

#[test]
fn session_with_status_help_and_exit_effect_by_effect() {
    let shell = rover();
    let trace = shell.run(&lines(&["status", "help", "exit"]));
    let text = |s: &str| Effect::Print(String::from(s));
    assert_eq!(
        trace,
        vec![
            text("Welcome\n"),
            text("> "),
            Effect::Flush,
            text("Engines:      Nominal\n"),
            text("Shields:      Nominal\n"),
            text("Life support: Nominal\n"),
            text("> "),
            Effect::Flush,
            text("Available commands:\n"),
            text("help    Print this help text\n"),
            text("exit    Exit the command interpreter\n"),
            text("status  Check systems status\n"),
            text("> "),
            Effect::Flush,
            text("Bye\n"),
        ]
    );
}

#[test]
fn session_on_closed_input() {
    let shell = rover();
    let trace = shell.run(&Vec::new());
    assert_eq!(transcript(&trace), "Welcome\n> \nBye\n");
    assert_eq!(
        trace,
        vec![
            Effect::Print(String::from("Welcome\n")),
            Effect::Print(String::from("> ")),
            Effect::Flush,
            Effect::Print(String::from("\n")),
            Effect::Print(String::from("Bye\n")),
        ]
    );
}

#[test]
fn session_ends_at_the_end_of_input_whatever_came_before() {
    let shell = rover();
    let trace = shell.run(&lines(&["status", "nonsense", "", "help"]));
    let text = transcript(&trace);
    assert!(text.ends_with("> \nBye\n"), "{:?}", text);
    assert_eq!(text.matches("Bye").count(), 1);
    assert_eq!(text.matches("> ").count(), 5);
}

#[test]
fn session_stops_at_exit() {
    let shell = rover();
    let trace = shell.run(&lines(&["exit", "status", "help"]));
    assert_eq!(transcript(&trace), "Welcome\n> Bye\n");
}

#[test]
fn session_reports_unknown_commands_and_goes_on() {
    let shell = rover();
    let trace = shell.run(&lines(&["launch", "exit"]));
    assert_eq!(transcript(&trace), "Welcome\n> Error: unknown command\n> Bye\n");
}

#[test]
fn a_command_that_reads_takes_the_next_line() {
    let mut shell = Shell::new(String::from("Welcome to Curiosity"), String::from("Goodbye"));
    shell.add_command("msg", Box::new(SendMessageCommand {}));
    let trace = shell.run(&lines(&["msg", "help", "exit"]));
    assert_eq!(
        transcript(&trace),
        "Welcome to Curiosity\n> Enter message:\n>> Message sent\n> Goodbye\n"
    );
}

#[test]
fn a_command_that_reads_at_the_end_of_input_reads_nothing() {
    let mut shell = Shell::new(String::from("Hi"), String::from("Goodbye"));
    shell.add_command("msg", Box::new(SendMessageCommand {}));
    let trace = shell.run(&lines(&["msg"]));
    assert_eq!(transcript(&trace), "Hi\n> Enter message:\n>> Message sent\n> \nGoodbye\n");
}

#[test]
fn greet_writes_the_greeting_once() {
    let shell = rover();
    let mut out = Vec::new();
    shell.greet(&mut out);
    assert_eq!(out, vec![Effect::Print(String::from("Welcome\n"))]);
}

#[test]
fn prompt_is_written_and_flushed() {
    let shell = rover();
    let mut out = Vec::new();
    shell.prompt(&mut out);
    assert_eq!(out, vec![Effect::Print(String::from("> ")), Effect::Flush]);
}

#[test]
fn a_registered_name_executes_its_command_once() {
    let shell = rover();
    let mut out = Vec::new();
    let stop = shell.dispatch("status", &mut out);
    assert!(!stop);
    let mut expected = Vec::new();
    CheckStatusCommand {}.execute(&mut expected);
    assert_eq!(out, expected);
    assert_eq!(transcript(&out), STATUS);
}

#[test]
fn each_name_executes_its_own_command() {
    let mut shell = rover();
    shell.add_command("alpha", Box::new(Echo { word: "alpha" }));
    shell.add_command("omega", Box::new(Echo { word: "omega" }));
    assert_eq!(answer(&shell, "alpha"), (String::from("alpha\n"), false));
    assert_eq!(answer(&shell, "omega"), (String::from("omega\n"), false));
    assert_eq!(answer(&shell, "status"), (String::from(STATUS), false));
    assert_eq!(answer(&shell, "exit"), (String::from("Bye\n"), true));
}

#[test]
fn exit_is_there_from_the_start() {
    let shell = Shell::new(String::from("Welcome"), String::from("Bye"));
    assert_eq!(answer(&shell, "exit"), (String::from("Bye\n"), true));
    assert_eq!(answer(&shell, "status"), (String::from("Error: unknown command\n"), false));
}

#[test]
fn a_second_registration_replaces_the_first() {
    let mut shell = rover();
    shell.add_command("status", Box::new(Echo { word: "second" }));
    assert_eq!(answer(&shell, "status"), (String::from("second\n"), false));
    shell.add_command("status", Box::new(CheckStatusCommand {}));
    assert_eq!(answer(&shell, "status"), (String::from(STATUS), false));
}

#[test]
fn a_replaced_command_is_listed_once() {
    let mut shell = rover();
    shell.add_command("status", Box::new(Echo { word: "second" }));
    assert_eq!(
        answer(&shell, "help").0,
        "Available commands:\n\
         help    Print this help text\n\
         exit    Exit the command interpreter\n\
         status  Say second\n"
    );
}

#[test]
fn exit_can_be_replaced() {
    let mut shell = rover();
    shell.add_command("exit", Box::new(Echo { word: "staying" }));
    assert_eq!(answer(&shell, "exit"), (String::from("staying\n"), false));
    let trace = shell.run(&lines(&["exit", "exit"]));
    assert_eq!(transcript(&trace), "Welcome\n> staying\n> staying\n> \nstaying\n");
}

#[test]
fn help_is_not_looked_up() {
    let mut shell = rover();
    shell.add_command("help", Box::new(Echo { word: "never" }));
    let (text, stop) = answer(&shell, "help");
    assert!(!stop);
    assert_eq!(
        text,
        "Available commands:\n\
         help    Print this help text\n\
         exit    Exit the command interpreter\n\
         help    Say never\n\
         status  Check systems status\n"
    );
    let trace = shell.run(&lines(&["help", " help "]));
    assert!(transcript(&trace).lines().all(|line| line != "never"));
}

#[test]
fn help_registered_as_exit_does_not_end_the_session() {
    let mut shell = Shell::new(String::from("Welcome"), String::from("Bye"));
    shell.add_command("help", Box::new(ExitCommand { exit_string: String::from("gone") }));
    assert!(!answer(&shell, "help").1);
    assert!(!answer(&shell, "help").0.contains("gone"));
}

#[test]
fn help_of_a_new_shell() {
    let shell = Shell::new(String::from("Welcome"), String::from("Bye"));
    let mut out = Vec::new();
    shell.print_help_text(&mut out);
    assert_eq!(
        out,
        vec![
            Effect::Print(String::from("Available commands:\n")),
            Effect::Print(String::from("help  Print this help text\n")),
            Effect::Print(String::from("exit  Exit the command interpreter\n")),
        ]
    );
}

#[test]
fn help_column_is_one_wider_than_the_longest_name() {
    let mut shell = Shell::new(String::from("Welcome"), String::from("Bye"));
    shell.add_command("diagnostics", Box::new(Echo { word: "d" }));
    assert_eq!(
        answer(&shell, "help").0,
        "Available commands:\n\
         help         Print this help text\n\
         diagnostics  Say d\n\
         exit         Exit the command interpreter\n"
    );
}

#[test]
fn help_column_for_a_name_of_five() {
    let mut shell = Shell::new(String::from("Welcome"), String::from("Bye"));
    shell.add_command("hello", Box::new(Echo { word: "hello" }));
    assert_eq!(
        answer(&shell, "help").0,
        "Available commands:\n\
         help   Print this help text\n\
         exit   Exit the command interpreter\n\
         hello  Say hello\n"
    );
}

#[test]
fn help_column_is_five_at_least() {
    let mut shell = Shell::new(String::from("Welcome"), String::from("Bye"));
    shell.add_command("a", Box::new(Echo { word: "a" }));
    assert_eq!(
        answer(&shell, "help").0,
        "Available commands:\n\
         help  Print this help text\n\
         a     Say a\n\
         exit  Exit the command interpreter\n"
    );
}

#[test]
fn help_column_counts_bytes_and_pads_characters() {
    let mut shell = Shell::new(String::from("Welcome"), String::from("Bye"));
    shell.add_command("größe", Box::new(Echo { word: "g" }));
    assert_eq!(
        answer(&shell, "help").0,
        "Available commands:\n\
         help     Print this help text\n\
         exit     Exit the command interpreter\n\
         größe    Say g\n"
    );
}

#[test]
fn help_lists_names_in_ascending_order() {
    let mut shell = Shell::new(String::from("Welcome"), String::from("Bye"));
    for word in ["zeta", "alpha", "Mid", "beta", "exits", "ex"] {
        shell.add_command(word, Box::new(Echo { word }));
    }
    assert_eq!(
        answer(&shell, "help").0,
        "Available commands:\n\
         help   Print this help text\n\
         Mid    Say Mid\n\
         alpha  Say alpha\n\
         beta   Say beta\n\
         ex     Say ex\n\
         exit   Exit the command interpreter\n\
         exits  Say exits\n\
         zeta   Say zeta\n"
    );
}

#[test]
fn help_does_not_depend_on_the_order_of_registration() {
    let words = ["status", "msg", "alpha", "zeta"];
    let mut forward = Shell::new(String::from("Welcome"), String::from("Bye"));
    for word in words {
        forward.add_command(word, Box::new(Echo { word }));
    }
    let mut backward = Shell::new(String::from("Welcome"), String::from("Bye"));
    for word in words.iter().rev() {
        backward.add_command(word, Box::new(Echo { word }));
    }
    assert_eq!(answer(&forward, "help"), answer(&backward, "help"));
}

#[test]
fn white_space_around_a_name_does_not_count() {
    let shell = rover();
    for line in ["exit", "  exit  ", "exit\n", "\texit\r\n", "\u{A0}exit\u{3000}"] {
        assert_eq!(answer(&shell, line), (String::from("Bye\n"), true), "{:?}", line);
    }
    for line in ["status", " status", "status ", "  status\n"] {
        assert_eq!(answer(&shell, line), (String::from(STATUS), false), "{:?}", line);
    }
    assert_eq!(answer(&shell, "  help \n"), answer(&shell, "help"));
}

#[test]
fn white_space_alone_is_no_command() {
    let shell = rover();
    for line in ["", " ", "\n", "   \t  \n"] {
        assert_eq!(
            answer(&shell, line),
            (String::from("Error: unknown command\n"), false),
            "{:?}",
            line
        );
    }
}

#[test]
fn white_space_inside_a_name_counts() {
    let shell = rover();
    assert_eq!(answer(&shell, "ex it"), (String::from("Error: unknown command\n"), false));
    assert_eq!(answer(&shell, "exit now"), (String::from("Error: unknown command\n"), false));
}

#[test]
fn names_are_case_sensitive() {
    let shell = rover();
    assert_eq!(answer(&shell, "EXIT"), (String::from("Error: unknown command\n"), false));
    assert_eq!(answer(&shell, "Help"), (String::from("Error: unknown command\n"), false));
    assert_eq!(answer(&shell, "Status"), (String::from("Error: unknown command\n"), false));
}

#[test]
fn a_name_is_registered_as_it_is_given() {
    let mut shell = rover();
    shell.add_command(" padded ", Box::new(Echo { word: "padded" }));
    assert_eq!(answer(&shell, " padded "), (String::from("Error: unknown command\n"), false));
    assert_eq!(answer(&shell, "padded"), (String::from("Error: unknown command\n"), false));
}

#[test]
fn the_empty_name_answers_blank_lines() {
    let mut shell = rover();
    shell.add_command("", Box::new(Echo { word: "blank" }));
    assert_eq!(answer(&shell, "  \n"), (String::from("blank\n"), false));
}

#[test]
fn end_of_input_executes_exit_once() {
    let shell = rover();
    let mut out = Vec::new();
    shell.end_of_input(&mut out);
    assert_eq!(
        out,
        vec![Effect::Print(String::from("\n")), Effect::Print(String::from("Bye\n"))]
    );
}

#[test]
fn end_of_input_executes_what_is_registered_as_exit() {
    let mut shell = rover();
    shell.add_command("exit", Box::new(CheckStatusCommand {}));
    let mut out = Vec::new();
    shell.end_of_input(&mut out);
    assert_eq!(transcript(&out), format!("\n{}", STATUS));
}

#[test]
fn dispatch_appends_to_what_is_there() {
    let shell = rover();
    let mut out = vec![Effect::Flush];
    shell.dispatch("launch", &mut out);
    assert_eq!(out, vec![Effect::Flush, Effect::Print(String::from("Error: unknown command\n"))]);
}

#[test]
fn help_begins_with_its_heading() {
    let shell = rover();
    let mut out = Vec::new();
    shell.print_help_text(&mut out);
    assert_eq!(out[0], Effect::Print(String::from("Available commands:\n")));
    assert_eq!(out.len(), 4);
    assert_eq!(transcript(&out).lines().next(), Some("Available commands:"));
}

#[test]
fn a_registration_leaves_the_other_names_alone() {
    let mut shell = rover();
    let before = (answer(&shell, "status"), answer(&shell, "exit"));
    shell.add_command("alpha", Box::new(Echo { word: "alpha" }));
    assert_eq!((answer(&shell, "status"), answer(&shell, "exit")), before);
    assert_eq!(answer(&shell, "alpha"), (String::from("alpha\n"), false));
    shell.add_command("alpha", Box::new(Echo { word: "again" }));
    assert_eq!((answer(&shell, "status"), answer(&shell, "exit")), before);
    assert_eq!(answer(&shell, "alpha"), (String::from("again\n"), false));
    let mut out = Vec::new();
    shell.print_help_text(&mut out);
    assert_eq!(out.len(), 5);
}
