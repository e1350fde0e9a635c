//! What the shell asks of the operating system, as far as it can be decided
//! without asking: which paths are valid, where a command is looked for, and
//! what follows from each answer of the system when a program is started.
//!
//! Nothing here touches the system. Each function takes what the system
//! reported as a plain value and says what is to be done next.

use crate::strings::{has_char, pieces, split_at, texts};
use vstd::prelude::*;
use vstd::utf8::{decode_utf8, valid_utf8};

verus! {

/// `libc::S_IFMT` is the mask that selects the file type in the mode of a
/// file. On the Unix targets of `libc` it is `0o170000`.
#[verifier::external_body]
fn file_type_mask() -> (mask: u32)
    ensures
        mask == 0o170000u32,
{
    libc::S_IFMT
}

/// `libc::S_IFDIR` is the file type of a directory. On the Unix targets of
/// `libc` it is `0o040000`.
#[verifier::external_body]
fn directory_type() -> (kind: u32)
    ensures
        kind == 0o040000u32,
{
    libc::S_IFDIR
}

/// The error of `String::from_utf8`.
#[verifier::external_type_specification]
#[verifier::external_body]
pub struct ExFromUtf8Error(std::string::FromUtf8Error);

/// `String::from_utf8` turns the bytes into a string if they are valid UTF-8,
/// and fails otherwise.
pub assume_specification[ String::from_utf8 ](vec: Vec<u8>) -> (text: Result<
    String,
    std::string::FromUtf8Error,
>)
    ensures
        text is Ok <==> valid_utf8(vec@),
        text matches Ok(s) ==> s@ == decode_utf8(vec@),
;

/// What `String::from_utf8_lossy` makes of `bytes`: their text, with the
/// replacement character in the place of each invalid sequence.
pub uninterp spec fn utf8_lossy(bytes: Seq<u8>) -> Seq<char>;

/// `String::from_utf8_lossy` decodes the bytes and never fails; its result
/// depends on the bytes alone.
#[verifier::external_body]
fn string_from_utf8_lossy(bytes: &Vec<u8>) -> (text: String)
    ensures
        text@ == utf8_lossy(bytes@),
{
    String::from_utf8_lossy(bytes).into_owned()
}

/// Whether a mode, as `stat` reports it, is that of a directory.
pub open spec fn mode_is_dir(mode: u32) -> bool {
    mode & 0o170000u32 == 0o040000u32
}

/// A text cannot be handed to the system as a path.
#[derive(Debug)]
pub struct InvalidPathError;

/// A path that the file system knew when it was asked: it holds no NUL
/// character, and `stat` succeeded on it and reported the mode kept here.
pub struct PosixPath {
    buffer: String,
    mode: u32,
}

impl PosixPath {
    /// The text of the path.
    pub closed spec fn view(&self) -> Seq<char> {
        self.buffer@
    }

    /// The mode that `stat` reported.
    pub closed spec fn mode(&self) -> u32 {
        self.mode
    }

    /// Validates `s` against what `stat` said of it: `status` is the mode of
    /// the file, or `None` where `stat` failed.
    pub fn try_from(s: &str, status: Option<u32>) -> (path: Result<PosixPath, InvalidPathError>)
        ensures
            path is Ok <==> !s@.contains('\0') && status is Some,
            path matches Ok(p) ==> p@ == s@ && status == Some(p.mode()),
    {
        if has_char(s, '\0') {
            return Err(InvalidPathError);
        }
        match status {
            Some(mode) => Ok(PosixPath { buffer: s.to_owned(), mode }),
            None => Err(InvalidPathError),
        }
    }

    /// Whether the path was a directory when it was validated.
    pub fn is_dir(&self) -> (dir: bool)
        ensures
            dir == mode_is_dir(self.mode()),
    {
        (self.mode & file_type_mask()) == directory_type()
    }

    /// The path as text. It holds no NUL character.
    pub fn as_str(&self) -> (text: &str)
        ensures
            text@ == self@,
            !text@.contains('\0'),
    {
        proof {
            use_type_invariant(self);
        }
        self.buffer.as_str()
    }

    #[verifier::type_invariant]
    spec fn holds_no_nul(&self) -> bool {
        !self.buffer@.contains('\0')
    }
}

/// The bytes of `buffer` before its first zero byte, all of them where it
/// holds none.
pub open spec fn until_nul(buffer: Seq<u8>) -> Seq<u8>
    decreases buffer.len(),
{
    if buffer.len() == 0 || buffer[0] == 0 {
        Seq::empty()
    } else {
        seq![buffer[0]] + until_nul(buffer.drop_first())
    }
}

/// `until_nul` is the one prefix of the buffer that holds no zero byte and
/// ends at a zero byte or at the end of the buffer.
pub proof fn lemma_until_nul(buffer: Seq<u8>, len: int)
    requires
        0 <= len <= buffer.len(),
        forall|k: int| 0 <= k < len ==> buffer[k] != 0,
        len == buffer.len() || buffer[len] == 0,
    ensures
        until_nul(buffer) == buffer.take(len),
    decreases buffer.len(),
{
    if buffer.len() == 0 || buffer[0] == 0 {
        assert(buffer.take(len) =~= Seq::<u8>::empty());
    } else {
        let rest = buffer.drop_first();
        assert forall|k: int| 0 <= k < len - 1 implies rest[k] != 0 by {
            assert(rest[k] == buffer[k + 1]);
        }
        lemma_until_nul(rest, len - 1);
        assert(buffer.take(len) =~= seq![buffer[0]] + rest.take(len - 1));
    }
}

/// The login name, from what `getlogin` handed back: the bytes of the name,
/// or `None` where it knew none.
pub fn get_username(login: Option<Vec<u8>>) -> (name: Option<String>)
    ensures
        login is None ==> name is None,
        login matches Some(bytes) ==> name matches Some(s) && s@ == utf8_lossy(bytes@),
{
    match login {
        Some(bytes) => Some(string_from_utf8_lossy(&bytes)),
        None => None,
    }
}

/// The host name, from what `gethostname` handed back: its return value and
/// the buffer that it filled. The name ends before the first zero byte, and
/// there is none unless the call succeeded and the name is valid UTF-8.
pub fn get_hostname(status: i32, buffer: Vec<u8>) -> (name: Option<String>)
    ensures
        name is Some <==> status == 0 && valid_utf8(until_nul(buffer@)),
        name matches Some(s) ==> s@ == decode_utf8(until_nul(buffer@)),
{
    if status != 0 {
        return None;
    }
    let mut bytes = buffer;
    let mut len: usize = 0;
    while len < bytes.len() && bytes[len] != 0
        invariant
            bytes@ == buffer@,
            len <= bytes.len(),
            forall|k: int| 0 <= k < len ==> bytes@[k] != 0,
        decreases bytes.len() - len,
    {
        len = len + 1;
    }
    proof {
        lemma_until_nul(buffer@, len as int);
    }
    bytes.truncate(len);
    assert(bytes@ =~= buffer@.take(len as int));
    match String::from_utf8(bytes) {
        Ok(name) => Some(name),
        Err(_) => None,
    }
}

/// What is to be done about a change of the working directory.
#[derive(Debug, PartialEq, Eq)]
pub enum DirectoryChange {
    /// The path is no directory: the system is not asked.
    Refused,
    /// The system is to be asked to change to the path.
    Requested,
    /// The system was asked, and this is whether it made the change.
    Done(bool),
}

/// One step of changing the working directory to `path`. `reply` is what
/// `chdir` returned, or `None` while the system has not been asked. The
/// system is asked only for a directory, and its answer is final: the change
/// was made exactly if it returned zero.
pub fn chdir(path: &PosixPath, reply: Option<i32>) -> (step: DirectoryChange)
    ensures
        step == (if !mode_is_dir(path.mode()) {
            DirectoryChange::Refused
        } else {
            match reply {
                None => DirectoryChange::Requested,
                Some(code) => DirectoryChange::Done(code == 0),
            }
        }),
{
    if !path.is_dir() {
        return DirectoryChange::Refused;
    }
    match reply {
        None => DirectoryChange::Requested,
        Some(code) => DirectoryChange::Done(code == 0),
    }
}

/// `libc::WIFEXITED` tells from a wait status whether the child ended by
/// returning or by calling `exit`: the low seven bits of the status are zero.
pub assume_specification[ libc::WIFEXITED ](status: libc::c_int) -> (exited: bool)
    ensures
        exited == (status & 0x7f == 0),
;

/// `libc::WEXITSTATUS` takes the exit code out of a wait status: the second
/// lowest byte.
pub assume_specification[ libc::WEXITSTATUS ](status: libc::c_int) -> (code: libc::c_int)
    ensures
        code == (status >> 8) & 0xff,
;

/// A path that was found to name an executable file. It holds no NUL
/// character.
pub struct ExecutablePath {
    path: String,
}

impl ExecutablePath {
    /// The text of the path.
    pub closed spec fn view(&self) -> Seq<char> {
        self.path@
    }

    /// The path as text. It holds no NUL character.
    pub fn as_str(&self) -> (text: &str)
        ensures
            text@ == self@,
            !text@.contains('\0'),
    {
        proof {
            use_type_invariant(self);
        }
        self.path.as_str()
    }

    #[verifier::type_invariant]
    spec fn holds_no_nul(&self) -> bool {
        !self.path@.contains('\0')
    }
}

/// Why a program could not be run.
#[derive(Debug, PartialEq, Eq)]
pub enum LaunchError {
    /// No new process could be created.
    SpawnFailed,
    /// The new process could not be turned into the program.
    ExecFailed,
    /// The end of the child could not be waited for.
    WaitFailed,
}

/// How a child ended.
#[derive(Debug, PartialEq, Eq)]
pub enum ExitStatus {
    /// It returned or called `exit`, with this code.
    Exited(i32),
    /// It ended otherwise; this is the wait status as the system gave it.
    Abnormal(i32),
}

/// What the system reported while a program was being started.
pub enum LaunchEvent {
    /// Nothing yet: the launch begins.
    Start,
    /// `fork` returned this value.
    Forked(i32),
    /// `execv` returned, which it does only when it failed.
    ExecReturned,
    /// `waitpid` returned the first value and stored the second as the status.
    Waited(i32, i32),
}

/// What is to be done next about a launch.
pub enum LaunchAction {
    /// Create a new process.
    Fork,
    /// In the new process: become the program named by the first of these, with
    /// all of them as its arguments.
    Exec(Vec<String>),
    /// In the parent: wait for the child with this process id to end.
    Wait(i32),
    /// In the new process: report the error and end at once with this code.
    Abort(LaunchError, i32),
    /// The launch is over.
    Finished(Result<ExitStatus, LaunchError>),
}

/// What a wait status says of the end of a child.
pub open spec fn exit_status(status: i32) -> ExitStatus {
    if status & 0x7f == 0 {
        ExitStatus::Exited((status >> 8) & 0xff)
    } else {
        ExitStatus::Abnormal(status)
    }
}

/// A child that leaves with an exit code is seen to have left with that code.
pub proof fn lemma_exit_code_observed(code: i32)
    requires
        0 <= code <= 255,
    ensures
        exit_status(code << 8) == ExitStatus::Exited(code),
{
    assert((code << 8) & 0x7f == 0 && ((code << 8) >> 8) & 0xff == code) by (bit_vector)
        requires
            0 <= code <= 255,
    ;
}

/// One step of running the program at `binary_path` in a process of its own
/// and waiting for it: what is to be done after `event`.
///
/// The parent creates the child and waits for it. The child becomes the
/// program, its arguments being the path followed by `arguments`; if that
/// fails it ends with code 1 and never goes on as a copy of the parent.
pub fn fork_and_execve(
    binary_path: &ExecutablePath,
    arguments: &Vec<String>,
    event: LaunchEvent,
) -> (action: LaunchAction)
    ensures
        match event {
            LaunchEvent::Start => action is Fork,
            LaunchEvent::Forked(pid) => if pid < 0 {
                action == LaunchAction::Finished(Err(LaunchError::SpawnFailed))
            } else if pid == 0 {
                action matches LaunchAction::Exec(argv) && texts(argv@) == seq![binary_path@]
                    + texts(arguments@)
            } else {
                action == LaunchAction::Wait(pid)
            },
            LaunchEvent::ExecReturned => action == LaunchAction::Abort(LaunchError::ExecFailed, 1),
            LaunchEvent::Waited(reply, status) => if reply == -1 {
                action == LaunchAction::Finished(Err(LaunchError::WaitFailed))
            } else {
                action == LaunchAction::Finished(Ok(exit_status(status)))
            },
        },
{
    match event {
        LaunchEvent::Start => LaunchAction::Fork,
        LaunchEvent::Forked(pid) => {
            if pid < 0 {
                LaunchAction::Finished(Err(LaunchError::SpawnFailed))
            } else if pid == 0 {
                let mut argv: Vec<String> = Vec::new();
                argv.push(binary_path.as_str().to_owned());
                for i in 0..arguments.len()
                    invariant
                        texts(argv@) == seq![binary_path@] + texts(arguments@).take(i as int),
                {
                    let ghost before = texts(argv@);
                    argv.push(arguments[i].clone());
                    assert(texts(argv@) =~= before.push(arguments@[i as int]@));
                    assert(texts(arguments@).take(i + 1) =~= texts(arguments@).take(i as int).push(
                        arguments@[i as int]@,
                    ));
                }
                assert(texts(arguments@).take(arguments@.len() as int) =~= texts(arguments@));
                LaunchAction::Exec(argv)
            } else {
                LaunchAction::Wait(pid)
            }
        },
        LaunchEvent::ExecReturned => LaunchAction::Abort(LaunchError::ExecFailed, 1),
        LaunchEvent::Waited(reply, status) => {
            if reply == -1 {
                LaunchAction::Finished(Err(LaunchError::WaitFailed))
            } else if libc::WIFEXITED(status) {
                LaunchAction::Finished(Ok(ExitStatus::Exited(libc::WEXITSTATUS(status))))
            } else {
                LaunchAction::Finished(Ok(ExitStatus::Abnormal(status)))
            }
        },
    }
}

/// The path at which `command` is looked for in the directory `dir`.
pub open spec fn candidate_in(dir: Seq<char>, command: Seq<char>) -> Seq<char> {
    dir + seq!['/'] + command
}

/// The paths at which `command` is looked for, in the order of the
/// directories of the search path `path_var`, which a colon separates.
pub open spec fn path_candidates(path_var: Seq<char>, command: Seq<char>) -> Seq<Seq<char>> {
    pieces(path_var, ':').map_values(|dir: Seq<char>| candidate_in(dir, command))
}

/// Whether a candidate resolves: the system found it executable, and it can
/// be named to the system at all, which a path with a NUL character cannot.
pub open spec fn resolves(candidate: Seq<char>, executable: bool) -> bool {
    executable && !candidate.contains('\0')
}

/// Whether `i` is the first candidate from `from` on that resolves, where
/// `answers[k]` says whether the system found the candidate `from + k`
/// executable and a missing answer counts as no.
pub open spec fn first_match(
    candidates: Seq<Seq<char>>,
    from: int,
    answers: Seq<bool>,
    i: int,
) -> bool {
    &&& from <= i < candidates.len()
    &&& i - from < answers.len()
    &&& resolves(candidates[i], answers[i - from])
    &&& forall|k: int| from <= k < i ==> !resolves(candidates[k], #[trigger] answers[k - from])
}

/// Whether no candidate from `from` on resolves.
pub open spec fn no_match(candidates: Seq<Seq<char>>, from: int, answers: Seq<bool>) -> bool {
    forall|k: int|
        from <= k < candidates.len() && k - from < answers.len() ==> !resolves(
            candidates[k],
            #[trigger] answers[k - from],
        )
}

/// What a search is at after an answer.
pub enum SearchStep {
    /// The candidate resolved: this is the executable.
    Found(ExecutablePath),
    /// The candidate did not resolve, and there is another to ask about.
    Probe,
    /// The candidate did not resolve, and it was the last.
    Exhausted,
}

/// A search for an executable among candidate paths, in their order. The
/// caller asks the system about the candidate at hand and reports the answer.
pub struct PathSearch {
    candidates: Vec<String>,
    position: usize,
}

impl PathSearch {
    /// All candidates, those already asked about included.
    pub closed spec fn candidates(&self) -> Seq<Seq<char>> {
        texts(self.candidates@)
    }

    /// The index of the candidate at hand, or the number of candidates when
    /// none is left.
    pub closed spec fn position(&self) -> int {
        self.position as int
    }

    #[verifier::type_invariant]
    spec fn in_range(&self) -> bool {
        self.position <= self.candidates.len()
    }

    /// A search over `candidates`, at the first of them.
    pub fn new(candidates: Vec<String>) -> (search: Self)
        ensures
            search.candidates() == texts(candidates@),
            search.position() == 0,
    {
        PathSearch { candidates, position: 0 }
    }

    /// The candidate to ask the system about, or `None` when none is left.
    pub fn candidate(&self) -> (path: Option<&String>)
        ensures
            0 <= self.position() <= self.candidates().len(),
            path is Some <==> self.position() < self.candidates().len(),
            path matches Some(p) ==> p@ == self.candidates()[self.position()],
    {
        proof {
            use_type_invariant(self);
        }
        if self.position < self.candidates.len() {
            Some(&self.candidates[self.position])
        } else {
            None
        }
    }

    /// Takes the system's answer about the candidate at hand: whether it is an
    /// executable file. A candidate that resolves ends the search; otherwise
    /// the search moves to the next.
    pub fn advance(&mut self, executable: bool) -> (step: SearchStep)
        ensures
            final(self).candidates() == old(self).candidates(),
            0 <= old(self).position() <= old(self).candidates().len(),
            old(self).position() == old(self).candidates().len() ==> {
                &&& step is Exhausted
                &&& final(self).position() == old(self).position()
            },
            old(self).position() < old(self).candidates().len() ==> {
                let at = old(self).position();
                let path = old(self).candidates()[at];
                if resolves(path, executable) {
                    &&& step matches SearchStep::Found(p)
                    &&& p@ == path
                    &&& final(self).position() == at
                } else {
                    &&& final(self).position() == at + 1
                    &&& at + 1 < old(self).candidates().len() ==> step is Probe
                    &&& at + 1 == old(self).candidates().len() ==> step is Exhausted
                }
            },
    {
        proof {
            use_type_invariant(&*self);
        }
        if self.position >= self.candidates.len() {
            return SearchStep::Exhausted;
        }
        let path = &self.candidates[self.position];
        if executable && !has_char(path.as_str(), '\0') {
            return SearchStep::Found(ExecutablePath { path: path.clone() });
        }
        self.position = self.position + 1;
        if self.position < self.candidates.len() {
            SearchStep::Probe
        } else {
            SearchStep::Exhausted
        }
    }

    /// Carries the search to its end with answers gathered beforehand:
    /// `answers[k]` is the system's answer about the `k`-th candidate from the
    /// one at hand. The first candidate that resolves wins.
    pub fn settle(self, answers: &Vec<bool>) -> (found: Option<ExecutablePath>)
        ensures
            match found {
                Some(p) => exists|i: int|
                    first_match(self.candidates(), self.position(), answers@, i) && p@
                        == #[trigger] self.candidates()[i],
                None => no_match(self.candidates(), self.position(), answers@),
            },
    {
        let mut search = self;
        let mut asked: usize = 0;
        while asked < answers.len()
            invariant
                search.candidates() == self.candidates(),
                search.position() == self.position() + asked,
                asked <= answers.len(),
                forall|k: int|
                    self.position() <= k < search.position() ==> !resolves(
                        self.candidates()[k],
                        #[trigger] answers@[k - self.position()],
                    ),
            decreases answers.len() - asked,
        {
            let ghost at = search.position();
            match search.advance(answers[asked]) {
                SearchStep::Found(path) => {
                    assert(first_match(self.candidates(), self.position(), answers@, at));
                    return Some(path);
                },
                SearchStep::Probe => {
                    asked = asked + 1;
                },
                SearchStep::Exhausted => {
                    return None;
                },
            }
        }
        None
    }
}

/// A search for `command` along the search path `path_var`, `None` standing
/// for a search path that is not set: every directory of the path is a
/// candidate, in the order in which the path lists them.
pub fn find_binary_using_path(command: &str, path_var: Option<&str>) -> (search: PathSearch)
    ensures
        search.position() == 0,
        search.candidates() == match path_var {
            Some(path) => path_candidates(path@, command@),
            None => Seq::empty(),
        },
{
    let mut candidates: Vec<String> = Vec::new();
    match path_var {
        None => {
            assert(texts(candidates@) =~= Seq::<Seq<char>>::empty());
        },
        Some(path) => {
            let dirs = split_at(path, ':');
            for i in 0..dirs.len()
                invariant
                    texts(dirs@) == pieces(path@, ':'),
                    candidates.len() == i,
                    forall|k: int|
                        0 <= k < i ==> (#[trigger] candidates@[k])@ == candidate_in(
                            dirs@[k]@,
                            command@,
                        ),
            {
                let mut full = dirs[i].clone();
                full.push('/');
                full.append(command);
                candidates.push(full);
            }
            assert(texts(candidates@) =~= path_candidates(path@, command@));
        },
    }
    PathSearch::new(candidates)
}

} // verus!
