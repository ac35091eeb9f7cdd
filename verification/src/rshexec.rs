//! What the shell does with a line: the command-line grammar (`>` to save
//! the output, one `|` between two programs, the built-ins `cd`, `exit`
//! and `quit`) and the plan that the caller carries out.

use vstd::prelude::*;
use crate::rshio::{CLIInput, OS};
use crate::text::{
    count, count_char, same_text, split, split_char, split_whitespace, trim, trim_str, views,
    words,
};

verus! {

/// A program and its arguments.
pub struct Command {
    pub program: String,
    pub args: Vec<String>,
}

/// The command that the words `ws` give: the first word names the
/// program, the others are its arguments.
pub open spec fn command_from(c: Command, ws: Seq<Seq<char>>) -> bool {
    &&& ws.len() > 0
    &&& c.program@ == ws[0]
    &&& views(c.args@) == ws.drop_first()
}

/// The command of a non-empty list of words.
fn command_of(ws: Vec<String>) -> (c: Command)
    requires
        ws.len() > 0,
    ensures
        command_from(c, views(ws@)),
{
    let mut args = ws;
    let ghost all = args@;
    let program = args.remove(0);
    assert(views(args@) =~= views(all).drop_first());
    Command { program, args }
}

/// Two programs, the output of the first fed to the second.
pub struct Pipeline {
    pub first: Command,
    pub second: Command,
    /// Where the output of the second program is saved (the file name
    /// after `>`, trimmed); `None` when it is printed.
    pub output_file: Option<String>,
}

/// Why a pipeline cannot run.
pub enum PipeError {
    /// One of the two stages holds no word.
    NoCommand,
}

/// The words of the first stage of `s` (up to the first `|`).
pub open spec fn first_stage(s: Seq<char>) -> Seq<Seq<char>> {
    words(split(s, '|')[0])
}

/// The words of the second stage of `s` (between the first `|` and the
/// next one, or the end).
pub open spec fn second_stage(s: Seq<char>) -> Seq<Seq<char>> {
    words(split(s, '|')[1])
}

/// `s` has a second stage, and both stages name a program.
pub open spec fn pipeline_runs(s: Seq<char>) -> bool {
    &&& split(s, '|').len() >= 2
    &&& first_stage(s).len() > 0
    &&& second_stage(s).len() > 0
}

/// `p` is the pipeline that `s` describes, with the output file as
/// written, `out`.
pub open spec fn pipeline_of(p: Pipeline, s: Seq<char>, out: Seq<char>) -> bool {
    &&& command_from(p.first, first_stage(s))
    &&& command_from(p.second, second_stage(s))
    &&& match p.output_file {
        None => trim(out).len() == 0,
        Some(f) => trim(out).len() > 0 && f@ == trim(out),
    }
}

/// The pipeline that `input` describes: its first two stages, the output
/// going to `output_file` unless that is blank. Fails when a stage names no
/// program.
pub fn piped_command(input: &str, output_file: &str) -> (r: Result<
    Pipeline,
    PipeError,
>)
    requires
        split(input@, '|').len() >= 2 || first_stage(input@).len() == 0,
    ensures
        r is Ok <==> pipeline_runs(input@),
        r matches Ok(p) ==> pipeline_of(p, input@, output_file@),
        r matches Ok(p) ==> {
            &&& p.first.program@ == first_stage(input@)[0]
            &&& p.first.args@.len() + 1 == first_stage(input@).len()
            &&& forall|i: int|
                0 <= i < p.first.args@.len() ==> #[trigger] p.first.args@[i]@ == first_stage(
                    input@,
                )[i + 1]
            &&& p.second.program@ == second_stage(input@)[0]
            &&& p.second.args@.len() + 1 == second_stage(input@).len()
            &&& forall|i: int|
                0 <= i < p.second.args@.len() ==> #[trigger] p.second.args@[i]@ == second_stage(
                    input@,
                )[i + 1]
        },
{
    let commands = split_char(input, '|');
    proof {
        crate::text::lemma_split_count(input@, '|');
    }
    assert(commands@[0]@ == split(input@, '|')[0]);
    let words_1 = split_whitespace(commands[0].as_str());
    if words_1.len() == 0 {
        return Err(PipeError::NoCommand);
    }
    assert(commands@[1]@ == split(input@, '|')[1]);
    let words_2 = split_whitespace(commands[1].as_str());
    if words_2.len() == 0 {
        return Err(PipeError::NoCommand);
    }
    let first = command_of(words_1);
    let second = command_of(words_2);
    let file = trim_str(output_file);
    let out = if file.as_str().is_empty() {
        None
    } else {
        Some(file)
    };
    proof {
        lemma_command_keeps_words(first, first_stage(input@));
        lemma_command_keeps_words(second, second_stage(input@));
    }
    Ok(Pipeline { first, second, output_file: out })
}

/// A program from `/bin`, run with its arguments.
pub struct SimpleCommand {
    /// The program's name as typed.
    pub name: String,
    /// The program's path: `/bin/` and its name.
    pub path: String,
    pub args: Vec<String>,
    /// The text after `>`, as written; empty when there is none.
    pub output_file: String,
    /// Where the program's output is saved (the file name trimmed); `None`
    /// when the program writes to the terminal itself.
    pub save_to: Option<String>,
}

/// `sc` runs the words `ws` from `/bin`, with `out` the text after `>`.
pub open spec fn simple_from(sc: SimpleCommand, ws: Seq<Seq<char>>, out: Seq<char>) -> bool {
    &&& ws.len() > 0
    &&& sc.name@ == ws[0]
    &&& sc.path@ == "/bin/"@ + ws[0]
    &&& views(sc.args@) == ws.drop_first()
    &&& sc.output_file@ == out
    &&& match sc.save_to {
        None => out.len() == 0,
        Some(f) => out.len() > 0 && f@ == trim(out),
    }
}

/// The line the shell prints when the output of `name` could not be saved
/// to `out` (the text after `>` as written); the program had arguments when
/// `with_args` holds.
pub open spec fn save_failure_text(name: Seq<char>, with_args: bool, out: Seq<char>) -> Seq<
    char,
> {
    if with_args {
        "rsh: failed to save the output of \""@ + name + " ..\" on "@ + out
    } else {
        "rsh: failed to save the output of "@ + name + " on "@ + out
    }
}

impl SimpleCommand {
    /// The line to print when the program's output could not be saved.
    pub fn save_failure_message(&self) -> (m: String)
        ensures
            m@ == save_failure_text(self.name@, self.args@.len() > 0, self.output_file@),
    {
        let mut m = if self.args.len() > 0 {
            String::from_str("rsh: failed to save the output of \"")
        } else {
            String::from_str("rsh: failed to save the output of ")
        };
        m.append(self.name.as_str());
        if self.args.len() > 0 {
            m.append(" ..\" on ");
        } else {
            m.append(" on ");
        }
        m.append(self.output_file.as_str());
        m
    }
}

/// What the shell does with a line.
pub enum Action {
    /// The line held more than one `>`.
    TooManyRedirects,
    /// Run a pipeline; `source` is the text it was read from. When the
    /// line held more than one `|`, `extra_pipes` is set: only the first two
    /// stages run.
    Pipe { source: String, extra_pipes: bool, result: Result<Pipeline, PipeError> },
    /// Change the working directory; the argument is empty when none was
    /// given.
    ChangeDir(String),
    /// Leave the shell.
    Exit,
    /// Run a program from `/bin`.
    Run(SimpleCommand),
}

/// The part of the line that holds the command: before the `>`, or all of
/// it.
pub open spec fn command_text(s: Seq<char>) -> Seq<char> {
    if count(s, '>') == 1 {
        split(s, '>')[0]
    } else {
        s
    }
}

/// The output file as written after the `>`; empty when there is none.
pub open spec fn output_text(s: Seq<char>) -> Seq<char> {
    if count(s, '>') == 1 {
        split(s, '>')[1]
    } else {
        seq![]
    }
}

/// The words of the command part of the line.
pub open spec fn command_words(s: Seq<char>) -> Seq<Seq<char>> {
    words(command_text(s))
}

/// The lines on which the shell has no command to take: a `|` stands only
/// after the `>` while a word stands before it, or there is neither a `|`
/// nor a word before the `>`.
pub open spec fn run_panics(s: Seq<char>) -> bool {
    &&& count(s, '>') <= 1
    &&& if count(s, '|') > 0 {
        count(command_text(s), '|') == 0 && command_words(s).len() > 0
    } else {
        command_words(s).len() == 0
    }
}

/// The argument of `cd`: its first argument, or empty.
pub open spec fn cd_arg(ws: Seq<Seq<char>>) -> Seq<char> {
    if ws.len() > 1 {
        ws[1]
    } else {
        seq![]
    }
}

/// The word leaves the shell.
pub open spec fn is_exit_word(w: Seq<char>) -> bool {
    w == "exit"@ || w == "quit"@
}

/// `a` is what the shell does with the line `s`.
pub open spec fn plan_of(a: Action, s: Seq<char>) -> bool {
    let ws = command_words(s);
    if count(s, '>') > 1 {
        a is TooManyRedirects
    } else if count(s, '|') > 0 {
        a matches Action::Pipe { source, extra_pipes, result } && {
            &&& source@ == command_text(s)
            &&& extra_pipes == (count(s, '|') > 1)
            &&& (result is Ok <==> pipeline_runs(command_text(s)))
            &&& (result matches Ok(p) ==> pipeline_of(p, command_text(s), output_text(s)))
        }
    } else if ws[0] == "cd"@ {
        a matches Action::ChangeDir(d) && d@ == cd_arg(ws)
    } else if is_exit_word(ws[0]) {
        a is Exit
    } else {
        a matches Action::Run(sc) && simple_from(sc, ws, output_text(s))
    }
}

/// Every line as the shell reads it (trimmed, not empty) that holds no `>`
/// and no `|` is taken.
pub proof fn lemma_plain_line_taken(s: Seq<char>)
    requires
        trim(s) == s,
        s.len() > 0,
        count(s, '>') == 0,
        count(s, '|') == 0,
    ensures
        !run_panics(s),
        command_words(s).len() > 0,
{
    crate::text::lemma_trim_idempotent(s);
    assert(!crate::text::whitespace(s[0]));
    assert(command_text(s) == s);
}

/// Whether the shell can take the line `input` (see `run`).
pub fn run_accepts(input: &str) -> (b: bool)
    ensures
        b == !run_panics(input@),
{
    let redir_count = count_char(input, '>');
    let pipe_count = count_char(input, '|');
    if redir_count > 1 {
        return true;
    }
    let parts = split_char(input, '>');
    proof {
        crate::text::lemma_split_count(input@, '>');
    }
    let cmd: &str = if redir_count == 1 {
        parts[0].as_str()
    } else {
        input
    };
    if pipe_count > 0 {
        count_char(cmd, '|') != 0 || split_whitespace(cmd).len() == 0
    } else {
        split_whitespace(cmd).len() != 0
    }
}

/// The plan for the line `input`; sets `config.exit` on `exit` or `quit`.
fn plan_line(input: &String, config: &mut CLIInput) -> (a: Action)
    requires
        !run_panics(input@),
    ensures
        plan_of(a, input@),
        final(config).exit == (old(config).exit || a is Exit),
        final(config).is_verbose == old(config).is_verbose,
        final(config).exit != old(config).exit ==> {
            &&& count(input@, '>') <= 1
            &&& count(input@, '|') == 0
            &&& is_exit_word(command_words(input@)[0])
        },
        a is ChangeDir ==> {
            &&& count(input@, '>') <= 1
            &&& count(input@, '|') == 0
            &&& command_words(input@)[0] == "cd"@
        },
{
    let line = input.as_str();
    let pipe_count = count_char(line, '|');
    let redir_count = count_char(line, '>');
    proof {
        crate::text::lemma_split_count(input@, '>');
        crate::text::lemma_split_count(input@, '|');
    }
    if redir_count > 1 {
        return Action::TooManyRedirects;
    }
    let parts = split_char(line, '>');
    let cmd: &str = if redir_count == 1 {
        parts[0].as_str()
    } else {
        line
    };
    let out: &str = if redir_count == 1 {
        parts[1].as_str()
    } else {
        ""
    };
    proof {
        reveal_strlit("");
        assert(out@ == output_text(input@));
        assert(cmd@ == command_text(input@));
    }
    if pipe_count > 0 {
        proof {
            crate::text::lemma_split_count(cmd@, '|');
            if count(cmd@, '|') == 0 {
                crate::text::lemma_split_without_separator(cmd@, '|');
            }
        }
        let result = piped_command(cmd, out);
        return Action::Pipe { source: String::from_str(cmd), extra_pipes: pipe_count > 1, result };
    }
    let mut tokens = split_whitespace(cmd);
    let ghost ws = views(tokens@);
    let command = tokens.remove(0);
    assert(views(tokens@) =~= ws.drop_first());
    if same_text(&command, "cd") {
        if tokens.len() > 0 {
            let d = tokens[0].clone();
            return Action::ChangeDir(d);
        } else {
            let d = String::from_str("");
            proof {
                reveal_strlit("");
                assert(d@ =~= cd_arg(ws));
            }
            return Action::ChangeDir(d);
        }
    }
    if same_text(&command, "exit") || same_text(&command, "quit") {
        config.exit = true;
        return Action::Exit;
    }
    let mut path = String::from_str("/bin/");
    path.append(command.as_str());
    let save_to = if out.is_empty() {
        None
    } else {
        Some(trim_str(out))
    };
    Action::Run(
        SimpleCommand {
            name: command,
            path,
            args: tokens,
            output_file: String::from_str(out),
            save_to,
        },
    )
}

/// Every word of a stage reaches its command: the first names the
/// program, each other word is an argument, in order.
pub proof fn lemma_command_keeps_words(c: Command, ws: Seq<Seq<char>>)
    requires
        command_from(c, ws),
    ensures
        c.program@ == ws[0],
        c.args@.len() + 1 == ws.len(),
        forall|i: int| 0 <= i < c.args@.len() ==> #[trigger] c.args@[i]@ == ws[i + 1],
{
    assert(views(c.args@).len() == c.args@.len());
    assert forall|i: int| 0 <= i < c.args@.len() implies #[trigger] c.args@[i]@ == ws[i + 1] by {
        assert(views(c.args@)[i] == c.args@[i]@);
        assert(ws.drop_first()[i] == ws[i + 1]);
    }
}

/// A program run from `/bin` is found at `/bin/<name>` and receives every
/// word after its name, in order.
pub proof fn lemma_program_gets_all_words(sc: SimpleCommand, ws: Seq<Seq<char>>, out: Seq<char>)
    requires
        simple_from(sc, ws, out),
    ensures
        sc.name@ == ws[0],
        sc.path@ == "/bin/"@ + ws[0],
        sc.args@.len() + 1 == ws.len(),
        forall|i: int| 0 <= i < sc.args@.len() ==> #[trigger] sc.args@[i]@ == ws[i + 1],
{
    assert(views(sc.args@).len() == sc.args@.len());
    assert forall|i: int| 0 <= i < sc.args@.len() implies #[trigger] sc.args@[i]@ == ws[i + 1] by {
        assert(views(sc.args@)[i] == sc.args@[i]@);
        assert(ws.drop_first()[i] == ws[i + 1]);
    }
}

/// Reads the line `input` and says what to do with it; on `exit` or
/// `quit` it also sets `config.exit`.
pub fn run(input: &String, config: &mut CLIInput) -> (a: Action)
    requires
        !run_panics(input@),
    ensures
        plan_of(a, input@),
        final(config).exit == (old(config).exit || a is Exit),
        final(config).is_verbose == old(config).is_verbose,
        final(config).exit != old(config).exit ==> {
            &&& count(input@, '>') <= 1
            &&& count(input@, '|') == 0
            &&& is_exit_word(command_words(input@)[0])
        },
        a is ChangeDir ==> {
            &&& count(input@, '>') <= 1
            &&& count(input@, '|') == 0
            &&& command_words(input@)[0] == "cd"@
        },
        a is TooManyRedirects <==> count(input@, '>') > 1,
        a is Pipe <==> (count(input@, '>') <= 1 && count(input@, '|') > 0),
        (count(input@, '>') <= 1 && count(input@, '|') == 0 && (command_words(input@)[0]
            == "exit"@ || command_words(input@)[0] == "quit"@)) <==> a is Exit,
        final(config).exit != old(config).exit ==> (command_words(input@)[0] == "exit"@
            || command_words(input@)[0] == "quit"@),
        (count(input@, '>') <= 1 && count(input@, '|') == 0 && command_words(input@)[0] == "cd"@)
            ==> (a matches Action::ChangeDir(d) && (if command_words(input@).len() > 1 {
            d@ == command_words(input@)[1]
        } else {
            d@.len() == 0
        })),
        a matches Action::Run(sc) ==> {
            &&& (sc.save_to is None <==> output_text(input@).len() == 0)
            &&& (sc.save_to matches Some(f) ==> f@ == trim(output_text(input@)))
            &&& sc.name@ == command_words(input@)[0]
            &&& sc.path@ == "/bin/"@ + command_words(input@)[0]
            &&& sc.args@.len() + 1 == command_words(input@).len()
            &&& forall|i: int|
                0 <= i < sc.args@.len() ==> #[trigger] sc.args@[i]@ == command_words(input@)[i
                    + 1]
        },
        a matches Action::Pipe { result: Ok(p), .. } ==> {
            &&& p.first.args@.len() + 1 == first_stage(command_text(input@)).len()
            &&& forall|i: int|
                0 <= i < p.first.args@.len() ==> #[trigger] p.first.args@[i]@ == first_stage(
                    command_text(input@),
                )[i + 1]
            &&& p.second.args@.len() + 1 == second_stage(command_text(input@)).len()
            &&& forall|i: int|
                0 <= i < p.second.args@.len() ==> #[trigger] p.second.args@[i]@ == second_stage(
                    command_text(input@),
                )[i + 1]
        },
{
    let a = plan_line(input, config);
    let ghost planned = a;
    proof {
        reveal_strlit("cd");
        reveal_strlit("exit");
        reveal_strlit("quit");
        assert("exit"@ != "cd"@ && "quit"@ != "cd"@) by {
            assert("exit"@.len() != "cd"@.len() && "quit"@.len() != "cd"@.len());
        }
        match planned {
            Action::Run(sc) => {
                lemma_program_gets_all_words(sc, command_words(input@), output_text(input@));
            },
            Action::Pipe { result: Ok(p), .. } => {
                lemma_command_keeps_words(p.first, first_stage(command_text(input@)));
                lemma_command_keeps_words(p.second, second_stage(command_text(input@)));
            },
            _ => {},
        }
    }
    a
}

/// Where `cd` goes.
pub enum DirTarget {
    /// The home directory.
    Home(String),
    /// The directory as given.
    Path(String),
}

/// `cd` with this argument goes to the home directory.
pub open spec fn goes_home(d: Seq<char>) -> bool {
    d.len() == 0 || d == "~"@ || d == "$HOME"@
}

/// `cd` goes home for exactly three arguments: none, `~` and `$HOME`; any
/// other argument is a directory to enter.
pub proof fn lemma_cd_goes_home_exactly(d: Seq<char>)
    ensures
        goes_home(d) <==> (d.len() == 0 || d == "~"@ || d == "$HOME"@),
        goes_home(Seq::<char>::empty()),
        goes_home("~"@),
        goes_home("$HOME"@),
        d.len() > 0 && d != "~"@ && d != "$HOME"@ ==> !goes_home(d),
{
}

/// Where `cd new_dir` goes: home for an empty argument, `~` or `$HOME`;
/// otherwise to `new_dir` itself.
pub fn change_dir(new_dir: &str, os: &OS) -> (t: DirTarget)
    ensures
        goes_home(new_dir@) ==> (t matches DirTarget::Home(h) && h@ == os.home()),
        !goes_home(new_dir@) ==> (t matches DirTarget::Path(p) && p@ == new_dir@),
        new_dir@.len() > 0 && new_dir@ != "~"@ && new_dir@ != "$HOME"@ ==> (t matches DirTarget::Path(
            p,
        ) && p@ == new_dir@),
{
    proof {
        lemma_cd_goes_home_exactly(new_dir@);
    }
    let d = String::from_str(new_dir);
    if new_dir.is_empty() || same_text(&d, "~") || same_text(&d, "$HOME") {
        DirTarget::Home(os.home_dir().clone())
    } else {
        DirTarget::Path(d)
    }
}

} // verus!
