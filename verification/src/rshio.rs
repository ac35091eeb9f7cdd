//! The shell's configuration, the user's session data and the prompt.

use vstd::prelude::*;
use crate::text::{same_text, starts_with, trim, trim_str, views};

verus! {

/// Flags set from the command line.
pub struct CLIInput {
    pub is_verbose: bool,
    pub exit: bool,
}

/// The user's session: who and where the user is.
pub struct OS {
    /// The name of the user.
    pub username: String,
    /// The name of the host.
    pub hostname: String,
    /// Current working directory.
    pub cwd: String,
    /// The user's home directory.
    pub hmd: String,
    /// The working directory as the prompt shows it.
    pub cwd_pp: String,
}

/// The abbreviation of the home directory in the prompt.
pub open spec fn tilde() -> Seq<char> {
    seq!['~']
}

/// The home directory leads `path`: `path` is the home directory itself or
/// lies inside it.
pub open spec fn under_home(path: Seq<char>, home: Seq<char>) -> bool {
    ||| path == home
    ||| path.len() > home.len() && path.take(home.len() as int) == home && path[home.len() as int]
        == '/'
}

/// `path` as the prompt shows it: a leading home directory abbreviated to
/// `~`, as bash shows it.
pub open spec fn pretty_path(path: Seq<char>, home: Seq<char>) -> Seq<char> {
    if under_home(path, home) {
        tilde() + path.skip(home.len() as int)
    } else {
        path
    }
}

/// The home directory itself is shown as `~`.
pub proof fn lemma_home_is_tilde(home: Seq<char>)
    ensures
        pretty_path(home, home) == tilde(),
{
    assert(home.skip(home.len() as int) =~= Seq::<char>::empty());
    assert(tilde() + Seq::<char>::empty() =~= tilde());
}

/// A directory inside the home directory is shown as `~` followed by the
/// rest of its path.
pub proof fn lemma_inside_home(home: Seq<char>, rest: Seq<char>)
    requires
        rest.len() > 0,
        rest[0] == '/',
    ensures
        pretty_path(home + rest, home) == tilde() + rest,
{
    let s = home + rest;
    assert(s.take(home.len() as int) =~= home);
    assert(s[home.len() as int] == rest[0]);
    assert(s.skip(home.len() as int) =~= rest);
}

/// A path that does not begin with the home directory is shown as it is.
pub proof fn lemma_other_tree_unchanged(path: Seq<char>, home: Seq<char>)
    requires
        !(home.len() <= path.len() && path.take(home.len() as int) == home),
    ensures
        pretty_path(path, home) == path,
{
    if path == home {
        assert(path.take(home.len() as int) =~= home);
    }
}

/// A sibling of the home directory that merely begins with its name (as
/// `/home/ab` beside `/home/a`) is shown as it is.
pub proof fn lemma_sibling_unchanged(home: Seq<char>, rest: Seq<char>)
    requires
        rest.len() > 0,
        rest[0] != '/',
    ensures
        pretty_path(home + rest, home) == home + rest,
{
    let s = home + rest;
    assert(s[home.len() as int] == rest[0]);
    assert(s != home) by {
        assert(s.len() != home.len());
    }
}

/// A path the home directory does not lead is shown as it is.
pub proof fn lemma_outside_home(path: Seq<char>, home: Seq<char>)
    requires
        !under_home(path, home),
    ensures
        pretty_path(path, home) == path,
{
}

fn tilde_string() -> (s: String)
    ensures
        s@ == tilde(),
{
    let s = String::from_str("~");
    proof {
        reveal_strlit("~");
    }
    assert(s@ =~= tilde());
    s
}

/// `path` as the prompt shows it, with `home` its user's home directory.
fn abbreviate_home(path: &str, home: &str) -> (r: String)
    ensures
        r@ == pretty_path(path@, home@),
{
    let n = path.unicode_len();
    let h = home.unicode_len();
    let same = same_text(&String::from_str(path), home);
    let inside = n > h && starts_with(path, home) && path.get_char(h) == '/';
    if same || inside {
        let mut r = tilde_string();
        r.append(path.substring_char(h, n));
        r
    } else {
        String::from_str(path)
    }
}

impl OS {
    /// The name of the user.
    pub open spec fn login(&self) -> Seq<char> {
        self.username@
    }

    /// The name of the host.
    pub open spec fn host(&self) -> Seq<char> {
        self.hostname@
    }

    /// The current working directory.
    pub open spec fn dir(&self) -> Seq<char> {
        self.cwd@
    }

    /// The home directory.
    pub open spec fn home(&self) -> Seq<char> {
        self.hmd@
    }

    /// The working directory as the prompt shows it.
    pub open spec fn shown_dir(&self) -> Seq<char> {
        self.cwd_pp@
    }

    /// The prompt's path is the working directory with the home directory
    /// abbreviated.
    pub open spec fn wf(&self) -> bool {
        self.shown_dir() == pretty_path(self.dir(), self.home())
    }

    /// The name of the user.
    pub fn username(&self) -> (u: &String)
        ensures
            u@ == self.login(),
    {
        &self.username
    }

    /// The home directory.
    pub fn home_dir(&self) -> (h: &String)
        ensures
            h@ == self.home(),
    {
        &self.hmd
    }

    /// The name of the host.
    pub fn hostname(&self) -> (h: &String)
        ensures
            h@ == self.host(),
    {
        &self.hostname
    }

    /// The shell has changed to the home directory.
    pub fn went_home(&mut self)
        ensures
            final(self).dir() == old(self).home(),
            final(self).home() == old(self).home(),
            final(self).shown_dir() == tilde(),
            final(self).login() == old(self).login(),
            final(self).host() == old(self).host(),
            final(self).wf(),
    {
        self.cwd = self.hmd.clone();
        self.cwd_pp = tilde_string();
        proof {
            lemma_home_is_tilde(self.hmd@);
        }
    }

    /// The shell has changed to another directory, now `cwd`.
    pub fn moved_to(&mut self, cwd: String)
        ensures
            final(self).dir() == cwd@,
            final(self).home() == old(self).home(),
            final(self).shown_dir() == pretty_path(cwd@, old(self).home()),
            final(self).login() == old(self).login(),
            final(self).host() == old(self).host(),
            final(self).wf(),
    {
        self.cwd_pp = abbreviate_home(cwd.as_str(), self.hmd.as_str());
        self.cwd = cwd;
    }
}

/// The session of `username` on `hostname`, working in `cwd`, at home in
/// `hmd`.
pub fn get_user_data(cwd: String, hmd: String, username: String, hostname: String) -> (os: OS)
    ensures
        os.dir() == cwd@,
        os.home() == hmd@,
        os.login() == username@,
        os.host() == hostname@,
        os.shown_dir() == pretty_path(cwd@, hmd@),
        os.wf(),
{
    let pp_path = abbreviate_home(cwd.as_str(), hmd.as_str());
    OS { username, hostname, cwd, hmd, cwd_pp: pp_path }
}


/// What a command-line argument asks for.
pub enum Flag {
    Help,
    Verbose,
    Unknown,
}

/// What the argument `a`, trimmed, asks for.
pub open spec fn arg_flag(a: Seq<char>) -> Flag {
    let t = trim(a);
    if t == "-h"@ || t == "--help"@ {
        Flag::Help
    } else if t == "-v"@ || t == "--verbose"@ {
        Flag::Verbose
    } else {
        Flag::Unknown
    }
}

/// The line the shell prints for the argument `a`.
pub open spec fn arg_reply(a: Seq<char>) -> Seq<char> {
    match arg_flag(a) {
        Flag::Help => "Haha help here"@,
        Flag::Verbose => "Verbose mode on"@,
        Flag::Unknown => a + " is not a valid argument."@,
    }
}

/// Whether some argument asks for `flag`.
pub open spec fn asks_for(args: Seq<String>, flag: Flag) -> bool {
    exists|i: int| 0 <= i < args.len() && arg_flag(#[trigger] args[i]@) == flag
}

/// Reads the shell's own arguments (the program name not among them):
/// `-h`/`--help` asks to exit, `-v`/`--verbose` turns on verbose mode.
/// Returns the line to print for each argument, in order.
pub fn cli(config: &mut CLIInput, args: &Vec<String>) -> (lines: Vec<String>)
    ensures
        final(config).exit == (old(config).exit || asks_for(args@, Flag::Help)),
        final(config).is_verbose == (old(config).is_verbose || asks_for(args@, Flag::Verbose)),
        views(lines@) == args@.map_values(|a: String| arg_reply(a@)),
        forall|i: int|
            0 <= i < args.len() && (trim(#[trigger] args@[i]@) == "-h"@ || trim(args@[i]@)
                == "--help"@) ==> final(config).exit && lines@[i]@ == "Haha help here"@,
        forall|i: int|
            0 <= i < args.len() && (trim(#[trigger] args@[i]@) == "-v"@ || trim(args@[i]@)
                == "--verbose"@) ==> final(config).is_verbose && lines@[i]@
                == "Verbose mode on"@,
        forall|i: int|
            0 <= i < args.len() && trim(#[trigger] args@[i]@) != "-h"@ && trim(args@[i]@)
                != "--help"@ && trim(args@[i]@) != "-v"@ && trim(args@[i]@) != "--verbose"@
                ==> lines@[i]@ == args@[i]@ + " is not a valid argument."@,
        final(config).exit ==> old(config).exit || exists|i: int|
            0 <= i < args.len() && (trim(#[trigger] args@[i]@) == "-h"@ || trim(args@[i]@)
                == "--help"@),
        final(config).is_verbose ==> old(config).is_verbose || exists|i: int|
            0 <= i < args.len() && (trim(#[trigger] args@[i]@) == "-v"@ || trim(args@[i]@)
                == "--verbose"@),
{
    let lines = read_flags(config, args);
    proof {
        assert(views(lines@).len() == lines@.len());
        assert(args@.map_values(|a: String| arg_reply(a@)).len() == args@.len());
        assert forall|i: int| 0 <= i < args.len() implies {
            &&& lines@[i]@ == arg_reply(#[trigger] args@[i]@)
            &&& arg_flag(args@[i]@) == Flag::Help ==> config.exit
            &&& arg_flag(args@[i]@) == Flag::Verbose ==> config.is_verbose
            &&& (trim(args@[i]@) == "-v"@ || trim(args@[i]@) == "--verbose"@) ==> config.is_verbose
                && lines@[i]@ == "Verbose mode on"@
            &&& (trim(args@[i]@) == "-h"@ || trim(args@[i]@) == "--help"@) ==> config.exit
                && lines@[i]@ == "Haha help here"@
        } by {
            lemma_flag_spellings(args@[i]@);
            assert(views(lines@)[i] == lines@[i]@);
            assert(args@.map_values(|a: String| arg_reply(a@))[i] == arg_reply(args@[i]@));
            if arg_flag(args@[i]@) == Flag::Help {
                assert(asks_for(args@, Flag::Help));
            }
            if arg_flag(args@[i]@) == Flag::Verbose {
                assert(asks_for(args@, Flag::Verbose));
            }
        }
        if config.exit && !old(config).exit {
            let i = choose|i: int| 0 <= i < args.len() && arg_flag(#[trigger] args@[i]@) == Flag::Help;
            lemma_flag_spellings(args@[i]@);
        }
        if config.is_verbose && !old(config).is_verbose {
            let i = choose|i: int|
                0 <= i < args.len() && arg_flag(#[trigger] args@[i]@) == Flag::Verbose;
            lemma_flag_spellings(args@[i]@);
        }
    }
    lines
}

/// The spellings of the flags: `-h` and `--help` ask for help, `-v` and
/// `--verbose` for verbose mode (surrounding whitespace ignored); any other
/// argument is refused with its own text.
pub proof fn lemma_flag_spellings(a: Seq<char>)
    ensures
        (trim(a) == "-h"@ || trim(a) == "--help"@) <==> arg_flag(a) == Flag::Help,
        (trim(a) == "-v"@ || trim(a) == "--verbose"@) <==> arg_flag(a) == Flag::Verbose,
        (trim(a) == "-h"@ || trim(a) == "--help"@) ==> arg_reply(a) == "Haha help here"@,
        (trim(a) == "-v"@ || trim(a) == "--verbose"@) ==> arg_reply(a) == "Verbose mode on"@,
        (trim(a) != "-h"@ && trim(a) != "--help"@ && trim(a) != "-v"@ && trim(a) != "--verbose"@)
            ==> arg_reply(a) == a + " is not a valid argument."@,
{
    reveal_strlit("-h");
    reveal_strlit("--help");
    reveal_strlit("-v");
    reveal_strlit("--verbose");
    assert("-h"@ != "-v"@) by {
        assert("-h"@[1] != "-v"@[1]);
    }
    assert("-h"@ != "--verbose"@) by {
        assert("-h"@.len() != "--verbose"@.len());
    }
    assert("--help"@ != "-v"@) by {
        assert("--help"@.len() != "-v"@.len());
    }
    assert("--help"@ != "--verbose"@) by {
        assert("--help"@.len() != "--verbose"@.len());
    }
}

fn read_flags(config: &mut CLIInput, args: &Vec<String>) -> (lines: Vec<String>)
    ensures
        final(config).exit == (old(config).exit || asks_for(args@, Flag::Help)),
        final(config).is_verbose == (old(config).is_verbose || asks_for(args@, Flag::Verbose)),
        views(lines@) == args@.map_values(|a: String| arg_reply(a@)),
{
    let mut lines: Vec<String> = Vec::new();
    let mut i: usize = 0;
    while i < args.len()
        invariant
            i <= args.len(),
            config.exit == (old(config).exit || exists|j: int|
                0 <= j < i && arg_flag(#[trigger] args@[j]@) == Flag::Help),
            config.is_verbose == (old(config).is_verbose || exists|j: int|
                0 <= j < i && arg_flag(#[trigger] args@[j]@) == Flag::Verbose),
            views(lines@) == args@.take(i as int).map_values(|a: String| arg_reply(a@)),
        decreases args.len() - i,
    {
        let arg = &args[i];
        let t = trim_str(arg.as_str());
        let ghost before = views(lines@);
        if same_text(&t, "-h") || same_text(&t, "--help") {
            lines.push(String::from_str("Haha help here"));
            config.exit = true;
            assert(arg_flag(args@[i as int]@) == Flag::Help);
        } else if same_text(&t, "-v") || same_text(&t, "--verbose") {
            lines.push(String::from_str("Verbose mode on"));
            config.is_verbose = true;
            assert(arg_flag(args@[i as int]@) == Flag::Verbose);
        } else {
            let mut line = arg.clone();
            line.append(" is not a valid argument.");
            lines.push(line);
            assert(arg_flag(args@[i as int]@) == Flag::Unknown);
        }
        assert(views(lines@) =~= before.push(arg_reply(args@[i as int]@)));
        assert(args@.take(i + 1) =~= args@.take(i as int).push(args@[i as int]));
        assert(args@.take(i + 1).map_values(|a: String| arg_reply(a@)) =~= args@.take(
            i as int,
        ).map_values(|a: String| arg_reply(a@)).push(arg_reply(args@[i as int]@)));
        i = i + 1;
    }
    assert(args@.take(args.len() as int) =~= args@);
    lines
}

/// The sequence that turns the foreground green.
pub open spec fn green_code() -> Seq<char> {
    "\x1B[38;5;2m"@
}

/// The sequence that turns the foreground blue.
pub open spec fn blue_code() -> Seq<char> {
    "\x1B[38;5;4m"@
}

/// The sequence that restores the default foreground.
pub open spec fn reset_code() -> Seq<char> {
    "\x1B[39m"@
}

/// `termion::color::Green::fg_str`, the text that `color::Fg(color::Green)`
/// writes. termion's source builds it as `csi!("38;5;", "2", "m")`: ESC,
/// then `[38;5;2m`.
#[verifier::external_body]
fn green_fg() -> (s: &'static str)
    ensures
        s@ == green_code(),
{
    termion::color::Green.fg_str()
}

/// `termion::color::Blue::fg_str`, the text that `color::Fg(color::Blue)`
/// writes. termion's source builds it as `csi!("38;5;", "4", "m")`: ESC,
/// then `[38;5;4m`.
#[verifier::external_body]
fn blue_fg() -> (s: &'static str)
    ensures
        s@ == blue_code(),
{
    termion::color::Blue.fg_str()
}

/// `termion::color::Reset::fg_str`, the text that `color::Fg(color::Reset)`
/// writes. termion's source defines it as `csi!("39m")`: ESC, then `[39m`.
#[verifier::external_body]
fn reset_fg() -> (s: &'static str)
    ensures
        s@ == reset_code(),
{
    termion::color::Reset.fg_str()
}

/// The prompt for `os`: the user and host in green, then the working
/// directory (home abbreviated) in blue, then `$ `.
pub open spec fn prompt_text(os: OS) -> Seq<char> {
    green_code() + os.login() + "@"@ + os.host() + reset_code() + ":"@ + blue_code()
        + os.shown_dir() + reset_code() + "$ "@
}

/// Where the directory starts in the prompt of `os`: after the green code,
/// the user, `@`, the host, the reset code, `:` and the blue code.
pub open spec fn prompt_dir_start(os: OS) -> int {
    (green_code().len() + os.login().len() + 1 + os.host().len() + reset_code().len() + 1
        + blue_code().len()) as int
}

/// The prompt shows the session's shown directory, whatever it is, between
/// the blue code and the final reset code and `$ `; so a user at home sees
/// `~` there.
pub proof fn lemma_prompt_shows_dir(os: OS)
    ensures
        prompt_text(os).len() == prompt_dir_start(os) + os.shown_dir().len() + reset_code().len()
            + 2,
        prompt_text(os).subrange(prompt_dir_start(os), prompt_dir_start(os) + os.shown_dir().len())
            == os.shown_dir(),
        prompt_text(os).take(green_code().len() as int) == green_code(),
        prompt_text(os).skip(prompt_dir_start(os) + os.shown_dir().len()) == reset_code()
            + "$ "@,
        os.wf() && os.dir() == os.home() ==> prompt_text(os).subrange(
            prompt_dir_start(os),
            prompt_dir_start(os) + 1,
        ) == tilde(),
{
    reveal_strlit("@");
    reveal_strlit(":");
    reveal_strlit("$ ");
    let x = green_code() + os.login() + "@"@ + os.host() + reset_code() + ":"@ + blue_code();
    let t = prompt_text(os);
    assert(x.len() == prompt_dir_start(os));
    assert(t == x + os.shown_dir() + (reset_code() + "$ "@));
    assert(t.subrange(x.len() as int, (x.len() + os.shown_dir().len()) as int) =~= os.shown_dir());
    assert(t.take(green_code().len() as int) =~= green_code());
    assert(t.skip((x.len() + os.shown_dir().len()) as int) =~= reset_code() + "$ "@);
    if os.wf() && os.dir() == os.home() {
        lemma_home_is_tilde(os.home());
    }
}

/// The prompt the shell prints before it reads a line.
pub fn prompt(os: &OS) -> (p: String)
    ensures
        p@ == prompt_text(*os),
        p@.subrange(prompt_dir_start(*os), prompt_dir_start(*os) + os.shown_dir().len())
            == os.shown_dir(),
        p@.skip(prompt_dir_start(*os) + os.shown_dir().len()) == reset_code() + "$ "@,
        os.wf() && os.dir() == os.home() ==> p@.subrange(
            prompt_dir_start(*os),
            prompt_dir_start(*os) + 1,
        ) == tilde(),
{
    proof {
        lemma_prompt_shows_dir(*os);
    }
    let mut p = String::from_str(green_fg());
    p.append(os.username.as_str());
    p.append("@");
    p.append(os.hostname.as_str());
    p.append(reset_fg());
    p.append(":");
    p.append(blue_fg());
    p.append(os.cwd_pp.as_str());
    p.append(reset_fg());
    p.append("$ ");
    p
}

} // verus!
