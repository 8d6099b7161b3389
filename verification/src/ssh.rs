//! How instances are reached through a secure shell.

use vstd::prelude::*;
use vstd::utf8::encode_utf8;
use crate::error::SocketAddress;

verus! {

/// The credentials and the patience with which connections are opened.
#[derive(Debug)]
pub struct SshConnectionManager {
    username: String,
    private_key_file: String,
    timeout_seconds: Option<u64>,
    retries: usize,
}

impl SshConnectionManager {
    /// The user name to log in with.
    pub closed spec fn spec_username(&self) -> Seq<char> {
        self.username@
    }

    /// The path of the private key to log in with.
    pub closed spec fn spec_private_key_file(&self) -> Seq<char> {
        self.private_key_file@
    }

    /// The seconds after which an attempt to connect is given up, if it ever is.
    pub closed spec fn spec_timeout(&self) -> Option<u64> {
        self.timeout_seconds
    }

    /// How often a failed attempt to connect is repeated.
    pub closed spec fn spec_retries(&self) -> usize {
        self.retries
    }

    /// A manager that logs in as `username` with the key in
    /// `private_key_file`, waits as long as it takes and does not retry.
    pub fn new(username: String, private_key_file: String) -> (manager: Self)
        ensures
            manager.spec_username() == username@,
            manager.spec_private_key_file() == private_key_file@,
            manager.spec_timeout() is None,
            manager.spec_retries() == 0,
    {
        Self { username, private_key_file, timeout_seconds: None, retries: 0 }
    }

    /// The same manager, giving up an attempt after `seconds`.
    pub fn with_timeout(self, seconds: u64) -> (manager: Self)
        ensures
            manager.spec_username() == self.spec_username(),
            manager.spec_private_key_file() == self.spec_private_key_file(),
            manager.spec_timeout() == Some(seconds),
            manager.spec_retries() == self.spec_retries(),
    {
        let mut manager = self;
        manager.timeout_seconds = Some(seconds);
        manager
    }

    /// The same manager, repeating a failed attempt `retries` times.
    pub fn with_retries(self, retries: usize) -> (manager: Self)
        ensures
            manager.spec_username() == self.spec_username(),
            manager.spec_private_key_file() == self.spec_private_key_file(),
            manager.spec_timeout() == self.spec_timeout(),
            manager.spec_retries() == retries,
    {
        let mut manager = self;
        manager.retries = retries;
        manager
    }

    /// The user name to log in with.
    pub fn username(&self) -> (username: &String)
        ensures
            username@ == self.spec_username(),
    {
        &self.username
    }

    /// The path of the private key to log in with.
    pub fn private_key_file(&self) -> (file: &String)
        ensures
            file@ == self.spec_private_key_file(),
    {
        &self.private_key_file
    }

    /// The seconds after which an attempt to connect is given up, if it ever is.
    pub fn timeout(&self) -> (seconds: Option<u64>)
        ensures
            seconds == self.spec_timeout(),
    {
        self.timeout_seconds
    }

    /// How often a failed attempt to connect is repeated.
    pub fn retries(&self) -> (retries: usize)
        ensures
            retries == self.spec_retries(),
    {
        self.retries
    }
}

impl Clone for SshConnectionManager {
    fn clone(&self) -> (copy: Self)
        ensures
            copy.spec_username() == self.spec_username(),
            copy.spec_private_key_file() == self.spec_private_key_file(),
            copy.spec_timeout() == self.spec_timeout(),
            copy.spec_retries() == self.spec_retries(),
    {
        Self {
            username: self.username.clone(),
            private_key_file: self.private_key_file.clone(),
            timeout_seconds: self.timeout_seconds,
            retries: self.retries,
        }
    }
}

/// An open connection to the instance at an address.
#[derive(Clone, Copy, Debug)]
pub struct SshConnection {
    pub address: SocketAddress,
}

/// Whether `pattern` stands in `text` at the place `at`.
pub open spec fn occurs_at(text: Seq<u8>, pattern: Seq<u8>, at: int) -> bool {
    &&& 0 <= at <= text.len() - pattern.len()
    &&& text.subrange(at, at + pattern.len()) == pattern
}

/// Whether `pattern` stands somewhere in `text`.
pub open spec fn occurs(text: Seq<u8>, pattern: Seq<u8>) -> bool {
    exists|at: int| occurs_at(text, pattern, at)
}

/// Whether `pattern` stands in `text` at the place `at`.
fn matches_at(text: &[u8], pattern: &[u8], at: usize) -> (found: bool)
    requires
        at + pattern@.len() <= text@.len(),
    ensures
        found == occurs_at(text@, pattern@, at as int),
{
    let length = text.len();
    let mut j: usize = 0;
    while j < pattern.len()
        invariant
            j <= pattern@.len(),
            at + pattern@.len() <= text@.len() == length,
            forall|k: int| 0 <= k < j ==> text@[at + k] == pattern@[k],
        decreases pattern.len() - j,
    {
        if text[at + j] != pattern[j] {
            assert(text@.subrange(at as int, at + pattern@.len())[j as int] != pattern@[j as int]);
            return false;
        }
        j += 1;
    }
    assert(text@.subrange(at as int, at + pattern@.len()) =~= pattern@);
    true
}

/// Whether the text `pattern` stands somewhere in `text`: whether the bytes
/// that encode the one stand among the bytes that encode the other.
pub open spec fn names(text: Seq<char>, pattern: Seq<char>) -> bool {
    occurs(encode_utf8(text), encode_utf8(pattern))
}

/// Whether `pattern` stands somewhere in `text`.
pub fn contains(text: &str, pattern: &str) -> (found: bool)
    ensures
        found == names(text@, pattern@),
{
    let haystack = text.as_bytes();
    let needle = pattern.as_bytes();
    if needle.len() > haystack.len() {
        return false;
    }
    let last = haystack.len() - needle.len();
    let mut at: usize = 0;
    while at < last
        invariant
            at <= last,
            haystack@ == encode_utf8(text@),
            needle@ == encode_utf8(pattern@),
            last == haystack@.len() - needle@.len(),
            forall|before: int| 0 <= before < at ==> !occurs_at(haystack@, needle@, before),
        decreases last - at,
    {
        if matches_at(haystack, needle, at) {
            return true;
        }
        at += 1;
    }
    matches_at(haystack, needle, last)
}

/// Whether a command that was sent to the background still runs.
#[derive(Clone, Copy, Debug, PartialEq, Eq, Structural, Hash)]
pub enum CommandStatus {
    Running,
    Terminated,
}

impl CommandStatus {
    /// What the listing `text` of the background sessions tells of the
    /// command `command_id`: it runs if the listing names it.
    pub open spec fn spec_status(command_id: Seq<char>, text: Seq<char>) -> CommandStatus {
        if names(text, command_id) {
            CommandStatus::Running
        } else {
            CommandStatus::Terminated
        }
    }

    /// Return whether a background command is still running. Returns
    /// `Terminated` if the listing `text` does not name the command.
    pub fn status(command_id: &str, text: &str) -> (status: CommandStatus)
        ensures
            status == Self::spec_status(command_id@, text@),
    {
        if contains(text, command_id) {
            CommandStatus::Running
        } else {
            CommandStatus::Terminated
        }
    }
}

/// What a command context is, as mathematics.
pub struct CommandContextView {
    pub background: Option<Seq<char>>,
    pub path: Option<Seq<char>>,
    pub log_file: Option<Seq<char>>,
}

impl CommandContextView {
    /// `command` with its output copied to the log file, if there is one.
    pub open spec fn logged(self, command: Seq<char>) -> Seq<char> {
        match self.log_file {
            Some(log_file) => command + " |& tee "@ + log_file,
            None => command,
        }
    }

    /// `command` sent to a background session, if one is named.
    pub open spec fn detached(self, command: Seq<char>) -> Seq<char> {
        match self.background {
            Some(id) => "tmux new -d -s \""@ + id + "\" \""@ + command + "\""@,
            None => command,
        }
    }

    /// `command` run from the directory, if one is named.
    pub open spec fn placed(self, command: Seq<char>) -> Seq<char> {
        match self.path {
            Some(path) => "(cd "@ + path + " && "@ + command + ")"@,
            None => command,
        }
    }

    /// The command line that runs `command` in this context: logged, then
    /// sent to the background, then placed in the directory.
    pub open spec fn applied(self, command: Seq<char>) -> Seq<char> {
        self.placed(self.detached(self.logged(command)))
    }
}

/// The circumstances under which a command runs.
#[derive(Debug)]
pub struct CommandContext {
    /// The background session to run the command in, if it is to return at once.
    pub background: Option<String>,
    /// The directory to run the command from.
    pub path: Option<String>,
    /// The file to copy the output of the command to.
    pub log_file: Option<String>,
}

impl View for CommandContext {
    type V = CommandContextView;

    open spec fn view(&self) -> CommandContextView {
        CommandContextView {
            background: match self.background {
                Some(id) => Some(id@),
                None => None,
            },
            path: match self.path {
                Some(path) => Some(path@),
                None => None,
            },
            log_file: match self.log_file {
                Some(log_file) => Some(log_file@),
                None => None,
            },
        }
    }
}

impl CommandContext {
    /// A context that changes nothing: the command runs in the foreground,
    /// where the shell stands, without a log.
    pub fn new() -> (context: Self)
        ensures
            context@.background is None,
            context@.path is None,
            context@.log_file is None,
    {
        Self { background: None, path: None, log_file: None }
    }

    /// The same context, sending the command to the background session `id`.
    pub fn run_background(self, id: String) -> (context: Self)
        ensures
            context@.background == Some(id@),
            context@.path == self@.path,
            context@.log_file == self@.log_file,
    {
        let mut context = self;
        context.background = Some(id);
        context
    }

    /// The same context, running the command from the directory `path`.
    pub fn with_execute_from_path(self, path: String) -> (context: Self)
        ensures
            context@.background == self@.background,
            context@.path == Some(path@),
            context@.log_file == self@.log_file,
    {
        let mut context = self;
        context.path = Some(path);
        context
    }

    /// The same context, copying the output of the command to `log_file`.
    pub fn with_log_file(self, log_file: String) -> (context: Self)
        ensures
            context@.background == self@.background,
            context@.path == self@.path,
            context@.log_file == Some(log_file@),
    {
        let mut context = self;
        context.log_file = Some(log_file);
        context
    }

    /// The command line that runs `base_command` in this context.
    pub fn apply(&self, base_command: &str) -> (command: String)
        ensures
            command@ == self@.applied(base_command@),
    {
        let mut command = String::from_str(base_command);
        if let Some(log_file) = &self.log_file {
            command.append(" |& tee ");
            command.append(log_file.as_str());
        }
        assert(command@ =~= self@.logged(base_command@));
        if let Some(id) = &self.background {
            let mut detached = String::from_str("tmux new -d -s \"");
            detached.append(id.as_str());
            detached.append("\" \"");
            detached.append(command.as_str());
            detached.append("\"");
            command = detached;
        }
        assert(command@ =~= self@.detached(self@.logged(base_command@)));
        if let Some(path) = &self.path {
            let mut placed = String::from_str("(cd ");
            placed.append(path.as_str());
            placed.append(" && ");
            placed.append(command.as_str());
            placed.append(")");
            command = placed;
        }
        assert(command@ =~= self@.applied(base_command@));
        command
    }
}

impl Default for CommandContext {
    fn default() -> (context: Self)
        ensures
            context@.background is None,
            context@.path is None,
            context@.log_file is None,
    {
        Self::new()
    }
}

impl Clone for CommandContext {
    fn clone(&self) -> (copy: Self)
        ensures
            copy@ == self@,
    {
        Self {
            background: match &self.background {
                Some(id) => Some(id.clone()),
                None => None,
            },
            path: match &self.path {
                Some(path) => Some(path.clone()),
                None => None,
            },
            log_file: match &self.log_file {
                Some(log_file) => Some(log_file.clone()),
                None => None,
            },
        }
    }
}

} // verus!
