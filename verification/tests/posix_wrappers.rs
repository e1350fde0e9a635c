use simple_shell::posix_wrappers::{
    chdir, find_binary_using_path, fork_and_execve, get_hostname, get_username, DirectoryChange,
    ExitStatus, LaunchAction, LaunchError, LaunchEvent, PathSearch, PosixPath, SearchStep,
};
use simple_shell::shell::{resolve_with, Dispatch};

const DIRECTORY: u32 = 0o040755;
const REGULAR_FILE: u32 = 0o100644;

fn executable(path: &str) -> simple_shell::posix_wrappers::ExecutablePath {
    let mut search = PathSearch::new(vec![path.to_string()]);
    match search.advance(true) {
        SearchStep::Found(found) => found,
        _ => panic!("the candidate did not resolve"),
    }
}

#[test]
fn a_path_that_the_system_knows_is_valid() {
    let path = PosixPath::try_from("/tmp", Some(DIRECTORY)).unwrap();
    assert_eq!(path.as_str(), "/tmp");
    assert!(path.is_dir());
}

#[test]
fn a_path_that_the_system_does_not_know_is_invalid() {
    assert!(PosixPath::try_from("/nonexistent", None).is_err());
}

#[test]
fn a_path_with_a_nul_character_is_invalid() {
    assert!(PosixPath::try_from("/tmp\0/x", Some(DIRECTORY)).is_err());
}

#[test]
fn the_mode_tells_a_directory() {
    assert!(PosixPath::try_from("/", Some(0o040000)).unwrap().is_dir());
    assert!(PosixPath::try_from("/", Some(0o041777)).unwrap().is_dir());
    assert!(!PosixPath::try_from("/bin/ls", Some(REGULAR_FILE)).unwrap().is_dir());
    assert!(!PosixPath::try_from("/dev/null", Some(0o020666)).unwrap().is_dir());
    assert!(!PosixPath::try_from("/x", Some(0o140755)).unwrap().is_dir());
    assert!(!PosixPath::try_from("/x", Some(0)).unwrap().is_dir());
}

#[test]
fn the_user_name_is_decoded_leniently() {
    assert_eq!(get_username(Some(b"alice".to_vec())), Some("alice".to_string()));
    assert_eq!(get_username(Some(vec![b'a', 0xff, b'b'])), Some("a\u{fffd}b".to_string()));
    assert_eq!(get_username(None), None);
}

#[test]
fn the_host_name_ends_at_the_first_zero_byte() {
    let mut buffer = vec![0u8; 16];
    buffer[..4].copy_from_slice(b"host");
    buffer[6] = b'x';
    assert_eq!(get_hostname(0, buffer), Some("host".to_string()));
    assert_eq!(get_hostname(0, b"full".to_vec()), Some("full".to_string()));
    assert_eq!(get_hostname(0, vec![0u8; 4]), Some(String::new()));
    assert_eq!(get_hostname(0, Vec::new()), Some(String::new()));
}

#[test]
fn there_is_no_host_name_without_success_or_valid_text() {
    assert_eq!(get_hostname(-1, b"host\0".to_vec()), None);
    assert_eq!(get_hostname(0, vec![0xc3, 0x28, 0]), None);
    assert_eq!(get_hostname(0, "h\u{f6}st\0".as_bytes().to_vec()), Some("h\u{f6}st".to_string()));
}

#[test]
fn the_system_is_asked_to_change_to_a_directory_only() {
    let directory = PosixPath::try_from("/home/alice", Some(DIRECTORY)).unwrap();
    let file = PosixPath::try_from("/etc/passwd", Some(REGULAR_FILE)).unwrap();
    assert_eq!(chdir(&directory, None), DirectoryChange::Requested);
    assert_eq!(chdir(&directory, Some(0)), DirectoryChange::Done(true));
    assert_eq!(chdir(&directory, Some(-1)), DirectoryChange::Done(false));
    assert_eq!(chdir(&file, None), DirectoryChange::Refused);
    assert_eq!(chdir(&file, Some(0)), DirectoryChange::Refused);
}

#[test]
fn a_launch_begins_with_a_fork() {
    let path = executable("/bin/ls");
    assert!(matches!(fork_and_execve(&path, &vec![], LaunchEvent::Start), LaunchAction::Fork));
}

#[test]
fn the_child_becomes_the_program_with_the_path_as_first_argument() {
    let path = executable("/bin/ls");
    let arguments = vec!["-l".to_string(), "/tmp".to_string()];
    match fork_and_execve(&path, &arguments, LaunchEvent::Forked(0)) {
        LaunchAction::Exec(argv) => assert_eq!(argv, vec!["/bin/ls", "-l", "/tmp"]),
        _ => panic!("the child does not become the program"),
    }
}

#[test]
fn the_parent_waits_for_the_child() {
    let path = executable("/bin/ls");
    assert!(matches!(
        fork_and_execve(&path, &vec![], LaunchEvent::Forked(4711)),
        LaunchAction::Wait(4711)
    ));
}

#[test]
fn a_failed_fork_ends_the_launch() {
    let path = executable("/bin/ls");
    assert!(matches!(
        fork_and_execve(&path, &vec![], LaunchEvent::Forked(-1)),
        LaunchAction::Finished(Err(LaunchError::SpawnFailed))
    ));
}

#[test]
fn a_child_that_cannot_become_the_program_ends_with_code_one() {
    let path = executable("/bin/ls");
    assert!(matches!(
        fork_and_execve(&path, &vec![], LaunchEvent::ExecReturned),
        LaunchAction::Abort(LaunchError::ExecFailed, 1)
    ));
}

#[test]
fn the_exit_code_of_the_child_is_observed() {
    let path = executable("/bin/ls");
    for code in [0, 1, 2, 42, 127, 255] {
        match fork_and_execve(&path, &vec![], LaunchEvent::Waited(4711, code << 8)) {
            LaunchAction::Finished(outcome) => assert_eq!(outcome, Ok(ExitStatus::Exited(code))),
            _ => panic!("the launch is not over"),
        }
    }
}

#[test]
fn a_child_that_was_killed_did_not_exit() {
    let path = executable("/bin/ls");
    match fork_and_execve(&path, &vec![], LaunchEvent::Waited(4711, 9)) {
        LaunchAction::Finished(outcome) => assert_eq!(outcome, Ok(ExitStatus::Abnormal(9))),
        _ => panic!("the launch is not over"),
    }
}

#[test]
fn a_failed_wait_ends_the_launch() {
    let path = executable("/bin/ls");
    assert!(matches!(
        fork_and_execve(&path, &vec![], LaunchEvent::Waited(-1, 0)),
        LaunchAction::Finished(Err(LaunchError::WaitFailed))
    ));
}

#[test]
fn every_directory_of_the_search_path_is_a_candidate() {
    let mut search = find_binary_using_path("ls", Some("/bin:/usr/bin::."));
    let mut asked = Vec::new();
    while let Some(candidate) = search.candidate() {
        asked.push(candidate.clone());
        search.advance(false);
    }
    assert_eq!(asked, vec!["/bin/ls", "/usr/bin/ls", "/ls", "./ls"]);
}

#[test]
fn without_a_search_path_there_is_no_candidate() {
    let mut search = find_binary_using_path("ls", None);
    assert!(search.candidate().is_none());
    assert!(matches!(search.advance(true), SearchStep::Exhausted));
}

#[test]
fn the_search_stops_at_the_first_executable() {
    let mut search = find_binary_using_path("ls", Some("/opt/bin:/bin:/usr/bin"));
    assert_eq!(search.candidate().unwrap(), "/opt/bin/ls");
    assert!(matches!(search.advance(false), SearchStep::Probe));
    assert_eq!(search.candidate().unwrap(), "/bin/ls");
    match search.advance(true) {
        SearchStep::Found(path) => assert_eq!(path.as_str(), "/bin/ls"),
        _ => panic!("the candidate did not resolve"),
    }
}

#[test]
fn the_search_ends_after_the_last_candidate() {
    let mut search = find_binary_using_path("ls", Some("/bin:/usr/bin"));
    assert!(matches!(search.advance(false), SearchStep::Probe));
    assert!(matches!(search.advance(false), SearchStep::Exhausted));
    assert!(search.candidate().is_none());
    assert!(matches!(search.advance(true), SearchStep::Exhausted));
}

#[test]
fn a_candidate_with_a_nul_character_never_resolves() {
    let mut search = find_binary_using_path("l\0s", Some("/bin"));
    assert!(matches!(search.advance(true), SearchStep::Exhausted));
}

#[test]
fn answers_gathered_beforehand_settle_the_search() {
    let search = find_binary_using_path("ls", Some("/a:/b:/c"));
    assert_eq!(search.settle(&vec![false, true, true]).unwrap().as_str(), "/b/ls");
    let search = find_binary_using_path("ls", Some("/a:/b:/c"));
    assert!(search.settle(&vec![false, false, false]).is_none());
    let search = find_binary_using_path("ls", Some("/a:/b:/c"));
    assert!(search.settle(&vec![false]).is_none());
    let search = find_binary_using_path("ls", Some("/a:/b:/c"));
    assert_eq!(search.settle(&vec![true]).unwrap().as_str(), "/a/ls");
}

#[test]
fn the_first_match_on_the_search_path_wins() {
    match resolve_with("ls", "ls", Some("/bin:/usr/bin"), None, &vec![true, true]) {
        Ok(Dispatch::External(path)) => assert_eq!(path.as_str(), "/bin/ls"),
        _ => panic!("ls did not resolve to an executable"),
    }
}
