use rsh::rshexec::{change_dir, piped_command, run, run_accepts, Action, DirTarget, PipeError};
use rsh::rshio::{get_user_data, CLIInput};

fn fresh() -> CLIInput {
    CLIInput { is_verbose: false, exit: false }
}

fn plan(line: &str) -> (Action, CLIInput) {
    let mut config = fresh();
    assert!(run_accepts(line));
    let action = run(&line.to_string(), &mut config);
    (action, config)
}

#[test]
fn plain_program_runs_from_bin() {
    let (action, config) = plan("ls -l /tmp");
    match action {
        Action::Run(sc) => {
            assert_eq!(sc.name, "ls");
            assert_eq!(sc.path, "/bin/ls");
            assert_eq!(sc.args, vec!["-l", "/tmp"]);
            assert_eq!(sc.output_file, "");
            assert!(sc.save_to.is_none());
        }
        _ => panic!("expected a program"),
    }
    assert!(!config.exit);
}

#[test]
fn redirect_saves_to_trimmed_file() {
    let (action, _) = plan("ls -a > out.txt ");
    match action {
        Action::Run(sc) => {
            assert_eq!(sc.path, "/bin/ls");
            assert_eq!(sc.args, vec!["-a"]);
            assert_eq!(sc.output_file, " out.txt ");
            assert_eq!(sc.save_to, Some("out.txt".to_string()));
        }
        _ => panic!("expected a program"),
    }
}

#[test]
fn redirect_to_nothing_prints() {
    let (action, _) = plan("date >");
    match action {
        Action::Run(sc) => {
            assert_eq!(sc.output_file, "");
            assert!(sc.save_to.is_none());
        }
        _ => panic!("expected a program"),
    }
}

#[test]
fn blank_redirect_still_saves() {
    let (action, _) = plan("date > ");
    match action {
        Action::Run(sc) => {
            assert_eq!(sc.output_file, " ");
            assert_eq!(sc.save_to, Some(String::new()));
        }
        _ => panic!("expected a program"),
    }
}

#[test]
fn cd_with_and_without_argument() {
    let (action, _) = plan("cd /tmp extra");
    assert!(matches!(action, Action::ChangeDir(ref d) if d == "/tmp"));
    let (action, _) = plan("cd");
    assert!(matches!(action, Action::ChangeDir(ref d) if d.is_empty()));
    let (action, _) = plan("cd > f");
    assert!(matches!(action, Action::ChangeDir(ref d) if d.is_empty()));
}

#[test]
fn exit_and_quit_leave() {
    let (action, config) = plan("exit");
    assert!(matches!(action, Action::Exit));
    assert!(config.exit);
    let (action, config) = plan("  quit now");
    assert!(matches!(action, Action::Exit));
    assert!(config.exit);
    let (action, config) = plan("exits");
    assert!(matches!(action, Action::Run(_)));
    assert!(!config.exit);
}

#[test]
fn run_keeps_verbose_flag() {
    let mut config = CLIInput { is_verbose: true, exit: false };
    let _ = run(&"ls".to_string(), &mut config);
    assert!(config.is_verbose);
    assert!(!config.exit);
}

#[test]
fn more_than_one_redirect_is_refused() {
    let (action, config) = plan("a > b > c");
    assert!(matches!(action, Action::TooManyRedirects));
    assert!(!config.exit);
    assert!(run_accepts("> >"));
}

#[test]
fn pipe_of_two_programs() {
    let (action, _) = plan("ls -l | wc -l");
    match action {
        Action::Pipe { source, extra_pipes, result } => {
            assert_eq!(source, "ls -l | wc -l");
            assert!(!extra_pipes);
            let p = result.ok().expect("pipeline");
            assert_eq!(p.first.program, "ls");
            assert_eq!(p.first.args, vec!["-l"]);
            assert_eq!(p.second.program, "wc");
            assert_eq!(p.second.args, vec!["-l"]);
            assert!(p.output_file.is_none());
        }
        _ => panic!("expected a pipeline"),
    }
}

#[test]
fn pipe_with_redirect_saves_to_trimmed_file() {
    let (action, _) = plan("ls | sort > out");
    match action {
        Action::Pipe { source, extra_pipes, result } => {
            assert_eq!(source, "ls | sort ");
            assert!(!extra_pipes);
            let p = result.ok().expect("pipeline");
            assert_eq!(p.second.program, "sort");
            assert!(p.second.args.is_empty());
            assert_eq!(p.output_file, Some("out".to_string()));
        }
        _ => panic!("expected a pipeline"),
    }
}

#[test]
fn extra_pipes_use_first_two_stages() {
    let (action, _) = plan("a | b c | d");
    match action {
        Action::Pipe { extra_pipes, result, .. } => {
            assert!(extra_pipes);
            let p = result.ok().expect("pipeline");
            assert_eq!(p.first.program, "a");
            assert_eq!(p.second.program, "b");
            assert_eq!(p.second.args, vec!["c"]);
        }
        _ => panic!("expected a pipeline"),
    }
}

#[test]
fn empty_stage_is_an_error() {
    let (action, _) = plan("ls | ");
    match action {
        Action::Pipe { result, .. } => assert!(matches!(result, Err(PipeError::NoCommand))),
        _ => panic!("expected a pipeline"),
    }
    assert!(matches!(piped_command(" | wc", ""), Err(PipeError::NoCommand)));
    assert!(matches!(piped_command("ls || wc", ""), Err(PipeError::NoCommand)));
}

#[test]
fn blank_output_file_prints() {
    let p = piped_command("ls|wc", "  ").ok().expect("pipeline");
    assert!(p.output_file.is_none());
    let p = piped_command("ls|wc", " f").ok().expect("pipeline");
    assert_eq!(p.output_file, Some("f".to_string()));
}

#[test]
fn lines_without_a_command_are_not_taken() {
    assert!(!run_accepts("> out"));
    assert!(!run_accepts("   "));
    assert!(!run_accepts(""));
    assert!(!run_accepts("ls > a | b"));
    assert!(run_accepts("ls"));
    assert!(run_accepts("| x"));
    assert!(run_accepts("a | b > c"));
}

#[test]
fn cd_targets() {
    let os = get_user_data("/tmp".to_string(), "/home/u".to_string(), "u".to_string(), "h".to_string());
    for arg in ["", "~", "$HOME"] {
        assert!(matches!(change_dir(arg, &os), DirTarget::Home(ref h) if h == "/home/u"));
    }
    assert!(matches!(change_dir("/etc", &os), DirTarget::Path(ref p) if p == "/etc"));
    assert!(matches!(change_dir("~/x", &os), DirTarget::Path(ref p) if p == "~/x"));
}

#[test]
fn plain_trimmed_lines_are_taken() {
    for line in ["ls", "echo a  b", "x\u{a0}y", "cd"] {
        assert!(run_accepts(line));
        let (action, _) = plan(line);
        assert!(!matches!(action, Action::TooManyRedirects | Action::Pipe { .. }));
    }
}

#[test]
fn pipe_after_blank_redirect_is_an_error_not_a_stop() {
    assert!(run_accepts("> a|b"));
    let (action, config) = plan("> a|b");
    match action {
        Action::Pipe { source, extra_pipes, result } => {
            assert_eq!(source, "");
            assert!(!extra_pipes);
            assert!(matches!(result, Err(PipeError::NoCommand)));
        }
        _ => panic!("expected a pipeline"),
    }
    assert!(!config.exit);
}

#[test]
fn pipeline_without_second_stage_but_blank_first() {
    assert!(matches!(piped_command("", " out"), Err(PipeError::NoCommand)));
    assert!(matches!(piped_command("  \t", ""), Err(PipeError::NoCommand)));
}

#[test]
fn save_failure_messages() {
    let (action, _) = plan("ls -a > /no/such/dir/f");
    match action {
        Action::Run(sc) => assert_eq!(
            sc.save_failure_message(),
            "rsh: failed to save the output of \"ls ..\" on  /no/such/dir/f"
        ),
        _ => panic!("expected a program"),
    }
    let (action, _) = plan("date >x ");
    match action {
        Action::Run(sc) => {
            assert_eq!(sc.save_failure_message(), "rsh: failed to save the output of date on x ")
        }
        _ => panic!("expected a program"),
    }
}

#[test]
fn run_only_sets_exit_on_exit_words() {
    for line in ["ls", "cd /", "a | exit", "exit | a", "exit > f", "a > b > exit"] {
        let mut config = fresh();
        if run_accepts(line) {
            let action = run(&line.to_string(), &mut config);
            assert_eq!(config.exit, matches!(action, Action::Exit));
        }
    }
    let mut config = fresh();
    assert!(matches!(run(&"exit > f".to_string(), &mut config), Action::Exit));
    assert!(config.exit);
}
