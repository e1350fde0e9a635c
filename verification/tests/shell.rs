use simple_shell::posix_wrappers::{chdir, DirectoryChange, ExitStatus, LaunchError, PosixPath};
use simple_shell::shell::{
    diagnostic, parse_command, prompt, resolve, resolve_with, Dispatch, LoopAction, Resolution,
    ResolutionError, ShellLoop,
};

#[test]
fn a_command_is_a_verb_and_its_arguments() {
    let command = parse_command("  ls -l   /tmp\n").unwrap();
    assert_eq!(command.verb, "ls");
    assert_eq!(command.arguments, vec!["-l", "/tmp"]);
    let command = parse_command("exit").unwrap();
    assert_eq!(command.verb, "exit");
    assert!(command.arguments.is_empty());
}

#[test]
fn arguments_are_taken_word_for_word() {
    let command = parse_command("echo \"a b\" $HOME *").unwrap();
    assert_eq!(command.arguments, vec!["\"a", "b\"", "$HOME", "*"]);
}

#[test]
fn a_blank_line_is_no_command() {
    assert!(parse_command("").is_none());
    assert!(parse_command("   \t\n").is_none());
}

#[test]
fn exit_resolves_to_exit_whatever_the_environment() {
    let paths = [None, Some(""), Some("/bin:/usr/bin"), Some(":::")];
    let homes = [None, Some("/home/alice"), Some("")];
    for path in paths {
        for home in homes {
            assert!(matches!(
                resolve("exit", "exit", path, home),
                Resolution::Resolved(Dispatch::Exit)
            ));
            assert!(matches!(
                resolve_with("exit", "exit now", path, home, &vec![true]),
                Ok(Dispatch::Exit)
            ));
        }
    }
}

#[test]
fn cd_takes_the_token_after_the_verb() {
    match resolve("cd", "cd /tmp /ignored", Some("/bin"), Some("/home/alice")) {
        Resolution::Resolved(Dispatch::ChangeDirectory(target)) => assert_eq!(target, "/tmp"),
        _ => panic!("cd did not resolve to a change of directory"),
    }
}

#[test]
fn cd_without_a_target_goes_home() {
    match resolve("cd", "cd", None, Some("/home/alice")) {
        Resolution::Resolved(Dispatch::ChangeDirectory(target)) => {
            assert_eq!(target, "/home/alice")
        }
        _ => panic!("cd did not resolve to a change of directory"),
    }
}

#[test]
fn cd_without_a_target_and_without_a_home_fails() {
    assert!(matches!(
        resolve("cd", " cd ", Some("/bin"), None),
        Resolution::Failed(ResolutionError::MissingHome)
    ));
    assert!(matches!(
        resolve_with("cd", "cd", Some("/bin"), None, &vec![]),
        Err(ResolutionError::MissingHome)
    ));
}

#[test]
fn a_command_that_no_directory_holds_is_not_found() {
    let paths = ["", "/bin", "/bin:/usr/bin", "/a:/b:/c:/d", "::"];
    for path in paths {
        let answers = vec![false; 8];
        assert!(matches!(
            resolve_with("doesnotexist123", "doesnotexist123", Some(path), None, &answers),
            Err(ResolutionError::CommandNotFound)
        ));
    }
    assert!(matches!(
        resolve_with("doesnotexist123", "doesnotexist123", None, None, &vec![true]),
        Err(ResolutionError::CommandNotFound)
    ));
}

#[test]
fn a_verb_with_a_slash_is_the_path_itself() {
    let resolution = resolve("./run", "./run fast", Some("/bin"), None);
    assert_eq!(resolution.candidate().unwrap(), "./run");
    match resolution.advance(true) {
        Resolution::Resolved(Dispatch::External(path)) => assert_eq!(path.as_str(), "./run"),
        _ => panic!("the path did not resolve"),
    }
    assert!(matches!(
        resolve_with("./run", "./run", Some("/bin"), None, &vec![false]),
        Err(ResolutionError::InvalidPath)
    ));
}

#[test]
fn the_resolution_asks_about_one_candidate_at_a_time() {
    let resolution = resolve("ls", "ls", Some("/opt/bin:/bin"), None);
    assert_eq!(resolution.candidate().unwrap(), "/opt/bin/ls");
    let resolution = resolution.advance(false);
    assert_eq!(resolution.candidate().unwrap(), "/bin/ls");
    let resolution = resolution.advance(false);
    assert!(resolution.candidate().is_none());
    assert!(matches!(resolution, Resolution::Failed(ResolutionError::CommandNotFound)));
}

#[test]
fn each_failure_has_its_line() {
    assert_eq!(diagnostic("frob", ResolutionError::CommandNotFound), "frob: command not found");
    assert_eq!(diagnostic("cd", ResolutionError::MissingHome), "cd: HOME not set");
    assert_eq!(
        diagnostic("./frob", ResolutionError::InvalidPath),
        "./frob: No such file or directory"
    );
}

#[test]
fn the_prompt_names_user_and_host() {
    assert_eq!(prompt("alice", "wonderland"), "[alice@wonderland]$ ");
    assert_eq!(prompt("", ""), "[@]$ ");
}

#[test]
fn the_end_of_the_input_ends_the_loop() {
    let mut shell = ShellLoop::new();
    assert!(!shell.is_terminated());
    assert!(matches!(shell.on_input(None, None, None), LoopAction::Terminate(0)));
    assert!(shell.is_terminated());
}

#[test]
fn exit_ends_the_loop() {
    let mut shell = ShellLoop::new();
    assert!(matches!(
        shell.on_input(Some("  exit  \n"), Some("/bin"), None),
        LoopAction::Terminate(0)
    ));
    assert!(shell.is_terminated());
    assert!(matches!(shell.on_input(Some("ls"), Some("/bin"), None), LoopAction::Terminate(0)));
    assert!(matches!(shell.on_launch(Ok(ExitStatus::Exited(0))), LoopAction::Terminate(0)));
}

#[test]
fn a_blank_line_is_read_over() {
    let mut shell = ShellLoop::new();
    assert!(matches!(shell.on_input(Some("\n"), Some("/bin"), None), LoopAction::Read));
    assert!(matches!(shell.on_input(Some("   "), None, None), LoopAction::Read));
    assert!(!shell.is_terminated());
}

#[test]
fn cd_without_an_argument_changes_to_the_home_directory() {
    let mut shell = ShellLoop::new();
    let target = match shell.on_input(Some("cd\n"), Some("/bin"), Some("/home/alice")) {
        LoopAction::ChangeDirectory(target) => target,
        _ => panic!("cd did not ask for a change of directory"),
    };
    assert_eq!(target, "/home/alice");
    let home = PosixPath::try_from(&target, Some(0o040755)).unwrap();
    assert_eq!(chdir(&home, None), DirectoryChange::Requested);
    let change = chdir(&home, Some(0));
    assert!(matches!(shell.on_directory_change(&target, change), LoopAction::Read));
    assert!(!shell.is_terminated());
}

#[test]
fn cd_to_a_missing_directory_is_reported_and_changes_nothing() {
    let mut shell = ShellLoop::new();
    let target = match shell.on_input(Some("cd /nonexistent\n"), None, Some("/home/alice")) {
        LoopAction::ChangeDirectory(target) => target,
        _ => panic!("cd did not ask for a change of directory"),
    };
    assert_eq!(target, "/nonexistent");
    assert!(PosixPath::try_from(&target, None).is_err());
    match shell.on_directory_change(&target, DirectoryChange::Refused) {
        LoopAction::Report(line) => assert_eq!(line, "No such file or directory /nonexistent"),
        _ => panic!("the failure was not reported"),
    }
    assert!(!shell.is_terminated());
}

#[test]
fn a_change_that_the_system_refuses_is_reported() {
    let mut shell = ShellLoop::new();
    match shell.on_directory_change("/root", DirectoryChange::Done(false)) {
        LoopAction::Report(line) => assert_eq!(line, "No such file or directory /root"),
        _ => panic!("the failure was not reported"),
    }
    assert!(!shell.is_terminated());
}

#[test]
fn cd_without_home_is_reported() {
    let mut shell = ShellLoop::new();
    match shell.on_input(Some("cd"), Some("/bin"), None) {
        LoopAction::Report(line) => assert_eq!(line, "cd: HOME not set"),
        _ => panic!("the failure was not reported"),
    }
    assert!(!shell.is_terminated());
}

#[test]
fn a_program_is_looked_for_and_run() {
    let mut shell = ShellLoop::new();
    let (resolution, command) = match shell.on_input(Some("ls -l\n"), Some("/opt:/bin"), None) {
        LoopAction::Probe(resolution, command) => (resolution, command),
        _ => panic!("the file system was not asked"),
    };
    assert_eq!(resolution.candidate().unwrap(), "/opt/ls");
    let (resolution, command) = match shell.on_probe(resolution, command, false) {
        LoopAction::Probe(resolution, command) => (resolution, command),
        _ => panic!("the file system was not asked again"),
    };
    assert_eq!(resolution.candidate().unwrap(), "/bin/ls");
    match shell.on_probe(resolution, command, true) {
        LoopAction::Launch(path, command) => {
            assert_eq!(path.as_str(), "/bin/ls");
            assert_eq!(command.verb, "ls");
            assert_eq!(command.arguments, vec!["-l"]);
        }
        _ => panic!("the program was not run"),
    }
    assert!(!shell.is_terminated());
}

#[test]
fn a_command_that_is_not_found_is_reported() {
    let mut shell = ShellLoop::new();
    let (resolution, command) = match shell.on_input(Some("frob"), Some("/bin"), None) {
        LoopAction::Probe(resolution, command) => (resolution, command),
        _ => panic!("the file system was not asked"),
    };
    match shell.on_probe(resolution, command, false) {
        LoopAction::Report(line) => assert_eq!(line, "frob: command not found"),
        _ => panic!("the failure was not reported"),
    }
    match shell.on_input(Some("frob"), None, None) {
        LoopAction::Report(line) => assert_eq!(line, "frob: command not found"),
        _ => panic!("the failure was not reported"),
    }
    assert!(!shell.is_terminated());
}

#[test]
fn the_exit_status_of_a_child_is_not_the_shells() {
    let mut shell = ShellLoop::new();
    for code in [0, 1, 3, 255] {
        assert!(matches!(shell.on_launch(Ok(ExitStatus::Exited(code))), LoopAction::Read));
        assert!(!shell.is_terminated());
    }
    assert!(matches!(shell.on_launch(Ok(ExitStatus::Abnormal(9))), LoopAction::Read));
    assert!(!shell.is_terminated());
}

#[test]
fn a_launch_that_failed_is_reported_and_the_loop_reads_on() {
    let mut shell = ShellLoop::new();
    match shell.on_launch(Err(LaunchError::SpawnFailed)) {
        LoopAction::Report(line) => assert_eq!(line, "fork failed"),
        _ => panic!("the failure was not reported"),
    }
    match shell.on_launch(Err(LaunchError::WaitFailed)) {
        LoopAction::Report(line) => assert_eq!(line, "waitpid failed"),
        _ => panic!("the failure was not reported"),
    }
    match shell.on_launch(Err(LaunchError::ExecFailed)) {
        LoopAction::Report(line) => assert_eq!(line, "execv failed"),
        _ => panic!("the failure was not reported"),
    }
    assert!(!shell.is_terminated());
}
