//! The shell proper: what a line of input means, and what the loop that reads
//! the lines does about it.
//!
//! The loop itself, which prints, reads and asks the system, belongs to the
//! program. Here is every decision that it takes.

use crate::posix_wrappers::{
    find_binary_using_path, first_match, no_match, path_candidates, resolves, DirectoryChange,
    ExecutablePath, ExitStatus, LaunchError, PathSearch, SearchStep,
};
use crate::strings::{has_char, same_text, split_whitespace, texts, tokens};
use vstd::prelude::*;

verus! {

/// One line of input, split at white space.
pub struct Command {
    pub verb: String,
    pub arguments: Vec<String>,
}

/// Reads a command from a line: its first token is the verb, the others are
/// the arguments, word for word. A line without a token holds no command.
pub fn parse_command(line: &str) -> (command: Option<Command>)
    ensures
        command is Some <==> tokens(line@).len() > 0,
        command matches Some(c) ==> c.verb@ == tokens(line@)[0] && texts(c.arguments@) == tokens(
            line@,
        ).drop_first(),
{
    let mut found = split_whitespace(line);
    if found.len() == 0 {
        return None;
    }
    let ghost all = found@;
    let verb = found.remove(0);
    assert(texts(found@) =~= texts(all).drop_first());
    Some(Command { verb, arguments: found })
}

/// What a command resolves to.
pub enum Dispatch {
    /// Leave the shell.
    Exit,
    /// Change the working directory to this target.
    ChangeDirectory(String),
    /// Run this executable.
    External(ExecutablePath),
}

/// Why a command resolves to nothing.
#[derive(Debug, PartialEq, Eq, Clone, Copy)]
pub enum ResolutionError {
    /// No search path is set, or no directory on it holds the command.
    CommandNotFound,
    /// `cd` names no target and no home directory is set.
    MissingHome,
    /// The command is a path, and not that of an executable file.
    InvalidPath,
}

/// How far the resolution of a command has come.
pub enum Resolution {
    /// The command resolves to this.
    Resolved(Dispatch),
    /// The command resolves to nothing.
    Failed(ResolutionError),
    /// The file system has to be asked: about the candidate at hand of this
    /// search. When no candidate resolves, the resolution fails with this
    /// error.
    Search(PathSearch, ResolutionError),
}

/// The target of `cd`: the token that follows the verb where there is one,
/// else the home directory.
pub open spec fn cd_target(raw_line: Seq<char>, home: Option<Seq<char>>) -> Option<Seq<char>> {
    if tokens(raw_line).len() >= 2 {
        Some(tokens(raw_line)[1])
    } else {
        home
    }
}

/// The text of an optional string.
pub open spec fn text_of(value: Option<&str>) -> Option<Seq<char>> {
    match value {
        Some(s) => Some(s@),
        None => None,
    }
}

/// Resolves the verb of a command, as far as that can be done without asking
/// the file system. `raw_line` is the line that the verb was read from,
/// `path` and `home` are the values of `PATH` and `HOME`, `None` where the
/// variable is not set.
///
/// `exit` and `cd` are the shell's own. Any other verb names a program: a
/// verb that holds a `/` is the path of the program itself, and any other is
/// looked for in each directory of `path`, in the order in which `path` lists
/// them.
pub fn resolve(verb: &str, raw_line: &str, path: Option<&str>, home: Option<&str>) -> (resolution:
    Resolution)
    ensures
        verb@ == "exit"@ ==> resolution matches Resolution::Resolved(Dispatch::Exit),
        verb@ == "cd"@ ==> match cd_target(raw_line@, text_of(home)) {
            Some(target) => resolution matches Resolution::Resolved(Dispatch::ChangeDirectory(t))
                && t@ == target,
            None => resolution matches Resolution::Failed(ResolutionError::MissingHome),
        },
        verb@ != "exit"@ && verb@ != "cd"@ && verb@.contains('/') ==> {
            &&& resolution matches Resolution::Search(search, ResolutionError::InvalidPath)
            &&& search.position() == 0
            &&& search.candidates() == seq![verb@]
        },
        verb@ != "exit"@ && verb@ != "cd"@ && !verb@.contains('/') ==> match path {
            Some(p) => {
                &&& resolution matches Resolution::Search(search, ResolutionError::CommandNotFound)
                    &&& search.position() == 0
                &&& search.candidates() == path_candidates(p@, verb@)
            },
            None => resolution matches Resolution::Failed(ResolutionError::CommandNotFound),
        },
{
    proof {
        reveal_strlit("exit");
        reveal_strlit("cd");
        assert("exit"@.len() != "cd"@.len());
    }
    if same_text(verb, "exit") {
        return Resolution::Resolved(Dispatch::Exit);
    }
    if same_text(verb, "cd") {
        let mut found = split_whitespace(raw_line);
        if found.len() >= 2 {
            let target = found.swap_remove(1);
            return Resolution::Resolved(Dispatch::ChangeDirectory(target));
        }
        return match home {
            Some(h) => Resolution::Resolved(Dispatch::ChangeDirectory(h.to_owned())),
            None => Resolution::Failed(ResolutionError::MissingHome),
        };
    }
    if has_char(verb, '/') {
        let mut candidates: Vec<String> = Vec::new();
        candidates.push(verb.to_owned());
        assert(texts(candidates@) =~= seq![verb@]);
        return Resolution::Search(PathSearch::new(candidates), ResolutionError::InvalidPath);
    }
    match path {
        Some(_) => Resolution::Search(
            find_binary_using_path(verb, path),
            ResolutionError::CommandNotFound,
        ),
        None => Resolution::Failed(ResolutionError::CommandNotFound),
    }
}

impl Resolution {
    /// The path that the file system has to be asked about, if any.
    pub fn candidate(&self) -> (path: Option<&String>)
        ensures
            path is Some <==> (self matches Resolution::Search(search, _) && search.position()
                < search.candidates().len()),
            path matches Some(p) ==> self matches Resolution::Search(search, _) && p@
                == search.candidates()[search.position()],
    {
        match self {
            Resolution::Search(search, _) => search.candidate(),
            _ => None,
        }
    }

    /// Takes the answer of the file system about the candidate at hand:
    /// whether it is an executable file. The first candidate that resolves is
    /// what the command resolves to; when the last one has not resolved, the
    /// resolution fails. A resolution that asked nothing stays as it is.
    pub fn advance(self, executable: bool) -> (next: Resolution)
        ensures
            self is Resolved ==> next == self,
            self is Failed ==> next == self,
            self matches Resolution::Search(search, _) ==> 0 <= search.position()
                <= search.candidates().len(),
            self matches Resolution::Search(search, error) ==> {
                let at = search.position();
                let all = search.candidates();
                if at == all.len() {
                    next == Resolution::Failed(error)
                } else if resolves(all[at], executable) {
                    next matches Resolution::Resolved(Dispatch::External(p)) && p@ == all[at]
                } else if at + 1 == all.len() {
                    next == Resolution::Failed(error)
                } else {
                    &&& next matches Resolution::Search(rest, e)
                    &&& e == error
                    &&& rest.candidates() == all
                    &&& rest.position() == at + 1
                }
            },
    {
        match self {
            Resolution::Search(search, error) => {
                let mut search = search;
                match search.advance(executable) {
                    SearchStep::Found(path) => Resolution::Resolved(Dispatch::External(path)),
                    SearchStep::Probe => Resolution::Search(search, error),
                    SearchStep::Exhausted => Resolution::Failed(error),
                }
            },
            other => other,
        }
    }
}

/// What a command resolves to once the file system has answered:
/// `answers[k]` says whether it found the `k`-th candidate executable, and a
/// missing answer counts as no.
///
/// `exit` resolves to `Exit` whatever `path` and `home` are. Of the
/// candidates of any other command the first that resolves wins; where none
/// does, a command that is looked for along the search path is not found, and
/// one that is a path itself is invalid.
pub fn resolve_with(
    verb: &str,
    raw_line: &str,
    path: Option<&str>,
    home: Option<&str>,
    answers: &Vec<bool>,
) -> (outcome: Result<Dispatch, ResolutionError>)
    ensures
        verb@ == "exit"@ ==> outcome matches Ok(Dispatch::Exit),
        verb@ == "cd"@ ==> match cd_target(raw_line@, text_of(home)) {
            Some(target) => outcome matches Ok(Dispatch::ChangeDirectory(t)) && t@ == target,
            None => outcome matches Err(ResolutionError::MissingHome),
        },
        verb@ != "exit"@ && verb@ != "cd"@ ==> {
            let candidates = program_candidates(verb@, text_of(path));
            match outcome {
                Ok(dispatch) => dispatch matches Dispatch::External(p) && exists|i: int|
                    first_match(candidates, 0, answers@, i) && p@ == #[trigger] candidates[i],
                Err(error) => no_match(candidates, 0, answers@) && error == (if verb@.contains(
                    '/',
                ) {
                    ResolutionError::InvalidPath
                } else {
                    ResolutionError::CommandNotFound
                }),
            }
        },
{
    match resolve(verb, raw_line, path, home) {
        Resolution::Resolved(dispatch) => Ok(dispatch),
        Resolution::Failed(error) => Err(error),
        Resolution::Search(search, error) => match search.settle(answers) {
            Some(found) => Ok(Dispatch::External(found)),
            None => Err(error),
        },
    }
}

/// The paths that are asked about for a verb that names a program: the verb
/// itself where it holds a `/`, else its place in every directory of the
/// search path, and none where no search path is set.
pub open spec fn program_candidates(verb: Seq<char>, path: Option<Seq<char>>) -> Seq<Seq<char>> {
    if verb.contains('/') {
        seq![verb]
    } else {
        match path {
            Some(p) => path_candidates(p, verb),
            None => Seq::empty(),
        }
    }
}

/// The line that tells the user why a command came to nothing.
pub open spec fn diagnostic_text(verb: Seq<char>, error: ResolutionError) -> Seq<char> {
    match error {
        ResolutionError::CommandNotFound => verb + ": command not found"@,
        ResolutionError::MissingHome => verb + ": HOME not set"@,
        ResolutionError::InvalidPath => verb + ": No such file or directory"@,
    }
}

/// The line that tells the user why `verb` came to nothing.
pub fn diagnostic(verb: &str, error: ResolutionError) -> (line: String)
    ensures
        line@ == diagnostic_text(verb@, error),
{
    let mut line = verb.to_owned();
    match error {
        ResolutionError::CommandNotFound => line.append(": command not found"),
        ResolutionError::MissingHome => line.append(": HOME not set"),
        ResolutionError::InvalidPath => line.append(": No such file or directory"),
    }
    line
}

/// The prompt: user and host in brackets, a dollar sign and a space.
pub fn prompt(user: &str, host: &str) -> (text: String)
    ensures
        text@ == "["@ + user@ + "@"@ + host@ + "]$ "@,
{
    let mut text = "[".to_owned();
    text.append(user);
    text.append("@");
    text.append(host);
    text.append("]$ ");
    text
}

/// The states of the loop.
#[derive(Debug, PartialEq, Eq, Clone, Copy)]
pub enum ShellState {
    /// The loop reads and runs commands.
    Reading,
    /// The loop is over.
    Terminated,
}

/// What the program does next.
pub enum LoopAction {
    /// Prompt and read the next line.
    Read,
    /// Leave the loop and end the process with this exit code.
    Terminate(i32),
    /// Print this line, then prompt and read the next line.
    Report(String),
    /// Change the working directory to this target and say how that went.
    ChangeDirectory(String),
    /// Ask the file system about the candidate at hand of this resolution,
    /// and say what it answered.
    Probe(Resolution, Command),
    /// Run this executable with the arguments of this command, wait for it
    /// and say how that went.
    Launch(ExecutablePath, Command),
}

/// The loop that reads commands and runs them.
pub struct ShellLoop {
    state: ShellState,
}

impl ShellLoop {
    /// The state that the loop is in.
    pub closed spec fn state(&self) -> ShellState {
        self.state
    }

    /// A loop that reads.
    pub fn new() -> (shell: Self)
        ensures
            shell.state() == ShellState::Reading,
    {
        ShellLoop { state: ShellState::Reading }
    }

    /// Whether the loop is over.
    pub fn is_terminated(&self) -> (over: bool)
        ensures
            over == (self.state() == ShellState::Terminated),
    {
        match self.state {
            ShellState::Terminated => true,
            ShellState::Reading => false,
        }
    }

    /// What follows from how far a resolution has come.
    fn follow(&mut self, resolution: Resolution, command: Command) -> (action: LoopAction)
        requires
            resolution matches Resolution::Search(search, _) ==> search.position()
                < search.candidates().len(),
        ensures
            final(self).state() == (if old(self).state() == ShellState::Reading
                && !(resolution matches Resolution::Resolved(Dispatch::Exit)) {
                ShellState::Reading
            } else {
                ShellState::Terminated
            }),
            old(self).state() == ShellState::Terminated ==> action matches LoopAction::Terminate(0),
            old(self).state() == ShellState::Reading ==> match resolution {
                Resolution::Resolved(Dispatch::Exit) => action matches LoopAction::Terminate(0),
                Resolution::Resolved(Dispatch::ChangeDirectory(target)) => action
                    == LoopAction::ChangeDirectory(target),
                Resolution::Resolved(Dispatch::External(path)) => action == LoopAction::Launch(
                    path,
                    command,
                ),
                Resolution::Failed(error) => action matches LoopAction::Report(line) && line@
                    == diagnostic_text(command.verb@, error),
                Resolution::Search(_, _) => action == LoopAction::Probe(resolution, command),
            },
    {
        if self.is_terminated() {
            return LoopAction::Terminate(0);
        }
        match resolution {
            Resolution::Resolved(Dispatch::Exit) => {
                self.state = ShellState::Terminated;
                LoopAction::Terminate(0)
            },
            Resolution::Resolved(Dispatch::ChangeDirectory(target)) => LoopAction::ChangeDirectory(
                target,
            ),
            Resolution::Resolved(Dispatch::External(path)) => LoopAction::Launch(path, command),
            Resolution::Failed(error) => LoopAction::Report(
                diagnostic(command.verb.as_str(), error),
            ),
            Resolution::Search(search, error) => LoopAction::Probe(
                Resolution::Search(search, error),
                command,
            ),
        }
    }

    /// Takes what was read: a line, or `None` at the end of the input. `path`
    /// and `home` are the values of `PATH` and `HOME`, `None` where the
    /// variable is not set.
    ///
    /// The end of the input and the command `exit` end the loop, with exit
    /// code 0. A line without a token does nothing. Any other line is a
    /// command, whose verb is resolved.
    pub fn on_input(
        &mut self,
        input: Option<&str>,
        path: Option<&str>,
        home: Option<&str>,
    ) -> (action: LoopAction)
        ensures
            final(self).state() == (if old(self).state() == ShellState::Reading && (
            input matches Some(line) && !(tokens(line@).len() > 0 && tokens(line@)[0] == "exit"@)) {
                ShellState::Reading
            } else {
                ShellState::Terminated
            }),
            final(self).state() == ShellState::Terminated ==> action matches LoopAction::Terminate(
                0,
            ),
            final(self).state() == ShellState::Reading ==> (input matches Some(line) && {
                let words = tokens(line@);
                if words.len() == 0 {
                    action is Read
                } else if words[0] == "cd"@ {
                    match cd_target(line@, text_of(home)) {
                        Some(target) => action matches LoopAction::ChangeDirectory(t) && t@
                            == target,
                        None => action matches LoopAction::Report(text) && text@
                            == diagnostic_text(words[0], ResolutionError::MissingHome),
                    }
                } else if !words[0].contains('/') && path is None {
                    action matches LoopAction::Report(text) && text@ == diagnostic_text(
                        words[0],
                        ResolutionError::CommandNotFound,
                    )
                } else {
                    &&& action matches LoopAction::Probe(
                        Resolution::Search(search, error),
                        command,
                    )
                    &&& command.verb@ == words[0]
                    &&& texts(command.arguments@) == words.drop_first()
                            &&& search.position() == 0
                    &&& search.candidates() == (if words[0].contains('/') {
                        seq![words[0]]
                    } else {
                        path_candidates(path->0@, words[0])
                    })
                    &&& error == (if words[0].contains('/') {
                        ResolutionError::InvalidPath
                    } else {
                        ResolutionError::CommandNotFound
                    })
                }
            }),
    {
        if self.is_terminated() {
            return LoopAction::Terminate(0);
        }
        let line = match input {
            Some(line) => line,
            None => {
                self.state = ShellState::Terminated;
                return LoopAction::Terminate(0);
            },
        };
        let command = match parse_command(line) {
            Some(command) => command,
            None => {
                return LoopAction::Read;
            },
        };
        let resolution = resolve(command.verb.as_str(), line, path, home);
        proof {
            if let Some(p) = path {
                crate::strings::lemma_pieces(p@, ':');
            }
        }
        self.follow(resolution, command)
    }

    /// Takes the answer of the file system about the candidate at hand of a
    /// resolution: whether it is an executable file. The first candidate that
    /// resolves is run; when none does, the user is told and the loop reads
    /// on.
    pub fn on_probe(&mut self, resolution: Resolution, command: Command, executable: bool) -> (action:
        LoopAction)
        ensures
            final(self).state() == old(self).state(),
            old(self).state() == ShellState::Terminated ==> action matches LoopAction::Terminate(0),
            old(self).state() == ShellState::Reading && !(resolution is Search) ==> action is Read,
            old(self).state() == ShellState::Reading ==> (resolution matches Resolution::Search(
                search,
                error,
            ) ==> {
                let at = search.position();
                let all = search.candidates();
                if at < all.len() && resolves(all[at], executable) {
                    action matches LoopAction::Launch(p, c) && p@ == all[at] && c == command
                } else if at + 1 < all.len() {
                    &&& action matches LoopAction::Probe(Resolution::Search(rest, e), c)
                    &&& c == command
                    &&& e == error
                    &&& rest.candidates() == all
                    &&& rest.position() == at + 1
                } else {
                    action matches LoopAction::Report(text) && text@ == diagnostic_text(
                        command.verb@,
                        error,
                    )
                }
            }),
    {
        if self.is_terminated() {
            return LoopAction::Terminate(0);
        }
        match resolution {
            Resolution::Search(search, error) => {
                let next = Resolution::Search(search, error).advance(executable);
                self.follow(next, command)
            },
            _ => LoopAction::Read,
        }
    }

    /// Takes how a change of the working directory went. Where it was not
    /// made, the user is told. The loop reads on either way.
    pub fn on_directory_change(&mut self, target: &str, change: DirectoryChange) -> (action:
        LoopAction)
        ensures
            final(self).state() == old(self).state(),
            old(self).state() == ShellState::Terminated ==> action matches LoopAction::Terminate(0),
            old(self).state() == ShellState::Reading ==> (if change == DirectoryChange::Done(true) {
                action is Read
            } else {
                action matches LoopAction::Report(text) && text@ == "No such file or directory "@
                    + target@
            }),
    {
        if self.is_terminated() {
            return LoopAction::Terminate(0);
        }
        match change {
            DirectoryChange::Done(true) => LoopAction::Read,
            _ => {
                let mut text = "No such file or directory ".to_owned();
                text.append(target);
                LoopAction::Report(text)
            },
        }
    }

    /// Takes how a launch went. However the child ended, the loop reads on:
    /// its exit status is not the shell's. A launch that failed is told to
    /// the user.
    pub fn on_launch(&mut self, outcome: Result<ExitStatus, LaunchError>) -> (action: LoopAction)
        ensures
            final(self).state() == old(self).state(),
            old(self).state() == ShellState::Terminated ==> action matches LoopAction::Terminate(0),
            old(self).state() == ShellState::Reading ==> match outcome {
                Ok(_) => action is Read,
                Err(LaunchError::SpawnFailed) => action matches LoopAction::Report(text) && text@
                    == "fork failed"@,
                Err(LaunchError::ExecFailed) => action matches LoopAction::Report(text) && text@
                    == "execv failed"@,
                Err(LaunchError::WaitFailed) => action matches LoopAction::Report(text) && text@
                    == "waitpid failed"@,
            },
    {
        if self.is_terminated() {
            return LoopAction::Terminate(0);
        }
        match outcome {
            Ok(_) => LoopAction::Read,
            Err(LaunchError::SpawnFailed) => LoopAction::Report("fork failed".to_owned()),
            Err(LaunchError::ExecFailed) => LoopAction::Report("execv failed".to_owned()),
            Err(LaunchError::WaitFailed) => LoopAction::Report("waitpid failed".to_owned()),
        }
    }
}

} // verus!
