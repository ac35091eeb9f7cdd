use rsh::rshio::{cli, get_user_data, prompt, CLIInput};
use termion::color;

fn session() -> rsh::rshio::OS {
    get_user_data(
        "/home/u/src".to_string(),
        "/home/u".to_string(),
        "u".to_string(),
        "box".to_string(),
    )
}

#[test]
fn session_abbreviates_home() {
    let os = session();
    assert_eq!(os.cwd, "/home/u/src");
    assert_eq!(os.hmd, "/home/u");
    assert_eq!(os.cwd_pp, "~/src");
    assert_eq!(os.username(), "u");
    assert_eq!(os.hostname(), "box");
    assert_eq!(os.home_dir(), "/home/u");
}

#[test]
fn session_outside_home() {
    let os = get_user_data("/tmp".to_string(), "/home/u".to_string(), "u".to_string(), "h".to_string());
    assert_eq!(os.cwd_pp, "/tmp");
}

#[test]
fn going_home_shows_tilde() {
    let mut os = get_user_data("/tmp".to_string(), "/home/u".to_string(), "u".to_string(), "h".to_string());
    os.went_home();
    assert_eq!(os.cwd, "/home/u");
    assert_eq!(os.cwd_pp, "~");
    assert_eq!(os.hmd, "/home/u");
}

#[test]
fn moving_recomputes_the_shown_path() {
    let mut os = session();
    os.moved_to("/etc".to_string());
    assert_eq!(os.cwd, "/etc");
    assert_eq!(os.cwd_pp, "/etc");
    os.moved_to("/home/u/a/b".to_string());
    assert_eq!(os.cwd_pp, "~/a/b");
    assert_eq!(os.username(), "u");
}

#[test]
fn prompt_layout() {
    let os = session();
    assert_eq!(
        prompt(&os),
        "\x1b[38;5;2mu@box\x1b[39m:\x1b[38;5;4m~/src\x1b[39m$ "
    );
}

#[test]
fn prompt_matches_termion_colours() {
    let os = session();
    let expected = format!(
        "{}{}@{}{}:{}{}{}$ ",
        color::Fg(color::Green),
        "u",
        "box",
        color::Fg(color::Reset),
        color::Fg(color::Blue),
        "~/src",
        color::Fg(color::Reset)
    );
    assert_eq!(prompt(&os), expected);
}

#[test]
fn cli_flags_and_replies() {
    let mut config = CLIInput { is_verbose: false, exit: false };
    let args = vec!["-v".to_string(), " --help ".to_string(), "foo".to_string()];
    let lines = cli(&mut config, &args);
    assert!(config.is_verbose);
    assert!(config.exit);
    assert_eq!(lines, vec!["Verbose mode on", "Haha help here", "foo is not a valid argument."]);
}

#[test]
fn cli_without_arguments() {
    let mut config = CLIInput { is_verbose: false, exit: false };
    let lines = cli(&mut config, &Vec::new());
    assert!(!config.is_verbose);
    assert!(!config.exit);
    assert!(lines.is_empty());
}

#[test]
fn cli_never_clears_a_flag() {
    let mut config = CLIInput { is_verbose: true, exit: true };
    let lines = cli(&mut config, &vec!["-x".to_string(), "--h".to_string()]);
    assert!(config.is_verbose);
    assert!(config.exit);
    assert_eq!(lines, vec!["-x is not a valid argument.", "--h is not a valid argument."]);
}

#[test]
fn home_abbreviated_only_as_leading_directory() {
    let os = get_user_data("/home/ab".to_string(), "/home/a".to_string(), "a".to_string(), "h".to_string());
    assert_eq!(os.cwd_pp, "/home/ab");
    let os = get_user_data("/x/home/a".to_string(), "/home/a".to_string(), "a".to_string(), "h".to_string());
    assert_eq!(os.cwd_pp, "/x/home/a");
    let os = get_user_data("/home/a/home/a".to_string(), "/home/a".to_string(), "a".to_string(), "h".to_string());
    assert_eq!(os.cwd_pp, "~/home/a");
    let mut os = get_user_data("/home/a".to_string(), "/home/a".to_string(), "a".to_string(), "h".to_string());
    assert_eq!(os.cwd_pp, "~");
    os.moved_to("/home/ab/c".to_string());
    assert_eq!(os.cwd_pp, "/home/ab/c");
}
