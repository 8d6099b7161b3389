//! Commands that run on the local machine instead of a remote instance.

use vstd::prelude::*;
use crate::error::{is_local_address, local_address, ConnectionFailure, SshError};
use crate::ssh::CommandStatus;

verus! {

/// The seconds to wait before a command is tried again.
pub const RETRY_DELAY_SECONDS: u64 = 1;

/// `path` with every `~` replaced by `home`.
pub open spec fn expand_home(path: Seq<char>, home: Seq<char>) -> Seq<char>
    decreases path.len(),
{
    if path.len() == 0 {
        Seq::empty()
    } else if path.last() == '~' {
        expand_home(path.drop_last(), home) + home
    } else {
        expand_home(path.drop_last(), home).push(path.last())
    }
}

/// Whether `path` names a place from the root of the file system.
pub open spec fn is_absolute(path: Seq<char>) -> bool {
    path.len() > 0 && path[0] == '/'
}

/// The place that `path` names when read in the directory `base`: `path`
/// itself if it is absolute, else `path` below `base`.
pub open spec fn joined(base: Seq<char>, path: Seq<char>) -> Seq<char> {
    if is_absolute(path) {
        path
    } else if base.len() > 0 && base.last() != '/' {
        base + seq!['/'] + path
    } else {
        base + path
    }
}

/// The file that a download of `path` reads, for a connection working in
/// `working_dir` and a user at home in `home`: `~` stands for the home
/// directory, and a relative path is read in the working directory. There
/// is no such file if the path begins with `~` and no home is known.
pub open spec fn located(working_dir: Seq<char>, path: Seq<char>, home: Option<Seq<char>>) -> Option<
    Seq<char>,
> {
    if path.len() > 0 && path[0] == '~' {
        match home {
            None => None,
            Some(home) => Some(joined(working_dir, expand_home(path, home))),
        }
    } else {
        Some(joined(working_dir, path))
    }
}

/// The command that ends the background session `command_id`.
pub open spec fn spec_kill_command(command_id: Seq<char>) -> Seq<char> {
    "(tmux kill-session -t "@ + command_id + " || true)"@
}

/// `path` with every `~` replaced by `home`.
pub fn expand(path: &str, home: &str) -> (expanded: String)
    ensures
        expanded@ == expand_home(path@, home@),
{
    let length = path.unicode_len();
    let mut expanded = String::new();
    let mut start: usize = 0;
    let mut i: usize = 0;
    while i < length
        invariant
            start <= i <= length,
            length == path@.len(),
            expanded@ + path@.subrange(start as int, i as int) == expand_home(
                path@.take(i as int),
                home@,
            ),
        decreases length - i,
    {
        assert(path@.take(i + 1).drop_last() =~= path@.take(i as int));
        if path.get_char(i) == '~' {
            expanded.append(path.substring_char(start, i));
            expanded.append(home);
            start = i + 1;
            assert(path@.subrange(start as int, start as int) =~= Seq::empty());
            assert(expanded@ + path@.subrange(start as int, start as int) =~= expanded@);
        } else {
            assert(path@.subrange(start as int, i + 1) =~= path@.subrange(
                start as int,
                i as int,
            ).push(path@[i as int]));
            assert(expanded@ + path@.subrange(start as int, i + 1) =~= (expanded@
                + path@.subrange(start as int, i as int)).push(path@[i as int]));
        }
        i += 1;
    }
    assert(path@.take(length as int) =~= path@);
    expanded.append(path.substring_char(start, length));
    expanded
}

/// Whether `path` names a place from the root of the file system.
pub fn path_is_absolute(path: &str) -> (absolute: bool)
    ensures
        absolute == is_absolute(path@),
{
    path.unicode_len() > 0 && path.get_char(0) == '/'
}

/// The place that `path` names when read in the directory `base`.
pub fn join(base: &str, path: &str) -> (place: String)
    ensures
        place@ == joined(base@, path@),
{
    if path_is_absolute(path) {
        return String::from_str(path);
    }
    let mut place = String::from_str(base);
    let length = base.unicode_len();
    if length > 0 && base.get_char(length - 1) != '/' {
        place.append("/");
        proof {
            reveal_strlit("/");
            assert("/"@ =~= seq!['/']);
        }
    }
    place.append(path);
    place
}

/// What running a command yields once the process has ended: its output
/// and error streams if it succeeded, else the exit code, 1 if there is
/// none, with the error stream as the message.
pub fn command_outcome(success: bool, code: Option<i32>, stdout: String, stderr: String) -> (outcome:
    Result<(String, String), SshError>)
    ensures
        success ==> outcome == Ok::<(String, String), SshError>((stdout, stderr)),
        !success ==> ({
            &&& outcome matches Err(SshError::NonZeroExitCode { address, code: reported, message })
            &&& is_local_address(address)
            &&& message == stderr
            &&& reported == match code {
                Some(code) => code,
                None => 1,
            }
        }),
{
    if !success {
        let code = match code {
            Some(code) => code,
            None => 1,
        };
        return Err(SshError::NonZeroExitCode { address: local_address(), code, message: stderr });
    }
    Ok((stdout, stderr))
}

/// Whether every listing of `outputs` tells that the command `command_id`
/// is in the state `status`.
pub open spec fn all_in_status(
    outputs: Seq<(String, String)>,
    command_id: Seq<char>,
    status: CommandStatus,
) -> bool {
    forall|i: int|
        0 <= i < outputs.len() ==> CommandStatus::spec_status(command_id, (#[trigger] outputs[i]).0@)
            == status
}

/// Whether the wait for the command `command_id` to reach `status` is over:
/// whether the listing of the background sessions of every instance, the
/// first of each pair in `outputs`, tells so.
pub fn command_reached(outputs: &Vec<(String, String)>, command_id: &str, status: CommandStatus) -> (reached:
    bool)
    ensures
        reached == all_in_status(outputs@, command_id@, status),
{
    let mut i: usize = 0;
    while i < outputs.len()
        invariant
            i <= outputs.len(),
            forall|j: int|
                0 <= j < i ==> CommandStatus::spec_status(command_id@, (#[trigger] outputs@[j]).0@)
                    == status,
        decreases outputs.len() - i,
    {
        if CommandStatus::status(command_id, outputs[i].0.as_str()) != status {
            return false;
        }
        i += 1;
    }
    true
}

/// A local command executor that runs commands directly on the local machine
/// without using SSH. This is used when running benchmarks locally.
#[derive(Debug)]
pub struct LocalCommandExecutor {
    /// Working directory for local execution
    working_dir: String,
}

impl LocalCommandExecutor {
    /// The directory in which commands run.
    pub closed spec fn spec_working_dir(&self) -> Seq<char> {
        self.working_dir@
    }

    /// Create a new local command executor.
    pub fn new(working_dir: String) -> (executor: Self)
        ensures
            executor.spec_working_dir() == working_dir@,
    {
        Self { working_dir }
    }

    /// The directory in which commands run.
    pub fn working_dir(&self) -> (dir: &String)
        ensures
            dir@ == self.spec_working_dir(),
    {
        &self.working_dir
    }

    /// The command that lists the background sessions.
    pub fn list_command() -> (command: &'static str)
        ensures
            command@ == "(tmux ls || true)"@,
    {
        "(tmux ls || true)"
    }

    /// The command that ends the background session `command_id`.
    pub fn kill_command(command_id: &str) -> (command: String)
        ensures
            command@ == spec_kill_command(command_id@),
    {
        let mut command = String::from_str("(tmux kill-session -t ");
        command.append(command_id);
        command.append(" || true)");
        command
    }

    /// Connect to an instance: for local execution, a connection that works
    /// in the executor's directory.
    pub fn connect(&self) -> (connection: LocalConnection)
        ensures
            connection.spec_working_dir() == self.spec_working_dir(),
    {
        LocalConnection { working_dir: self.working_dir.clone() }
    }
}

impl Clone for LocalCommandExecutor {
    fn clone(&self) -> (copy: Self)
        ensures
            copy.spec_working_dir() == self.spec_working_dir(),
    {
        Self { working_dir: self.working_dir.clone() }
    }
}

/// A local connection for downloading files.
#[derive(Debug)]
pub struct LocalConnection {
    working_dir: String,
}

impl LocalConnection {
    /// The directory in which relative paths are read.
    pub closed spec fn spec_working_dir(&self) -> Seq<char> {
        self.working_dir@
    }

    /// The file that a download of `path` reads: `~` stands for `home`, and
    /// a relative path is read in the working directory. A path that begins
    /// with `~` cannot be read while no home is known.
    pub fn locate(&self, path: &str, home: Option<&str>) -> (place: Result<String, SshError>)
        ensures
            match located(self.spec_working_dir(), path@, spec_home(home)) {
                Some(file) => {
                    &&& place matches Ok(found)
                    &&& found@ == file
                },
                None => {
                    &&& place matches Err(SshError::ConnectionError { address, error })
                    &&& is_local_address(address)
                    &&& error == ConnectionFailure::HomeNotSet
                },
            },
    {
        if path.unicode_len() > 0 && path.get_char(0) == '~' {
            match home {
                None => Err(
                    SshError::ConnectionError {
                        address: local_address(),
                        error: ConnectionFailure::HomeNotSet,
                    },
                ),
                Some(home) => {
                    let expanded = expand(path, home);
                    Ok(join(self.working_dir.as_str(), expanded.as_str()))
                },
            }
        } else {
            Ok(join(self.working_dir.as_str(), path))
        }
    }
}

/// The home directory as mathematics.
pub open spec fn spec_home(home: Option<&str>) -> Option<Seq<char>> {
    match home {
        Some(home) => Some(home@),
        None => None,
    }
}

} // verus!
