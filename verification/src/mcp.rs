//! Plain descriptions of tool endpoints and the commands that launch them.
//! Connecting and speaking the protocol is transport work outside this
//! crate; what is verified is the data the transport is configured from.

use vstd::prelude::*;
use crate::auth::AuthMode;

verus! {

/// The first position in `env` whose key equals `key`, or `-1`.
pub open spec fn env_index(env: Seq<(String, String)>, key: Seq<char>) -> int
    decreases env.len(),
{
    if env.len() == 0 {
        -1
    } else if env[0].0@ == key {
        0
    } else {
        let r = env_index(env.drop_first(), key);
        if r < 0 {
            -1
        } else {
            1 + r
        }
    }
}

proof fn lemma_env_index(env: Seq<(String, String)>, key: Seq<char>)
    ensures
        -1 <= env_index(env, key) < env.len(),
        env_index(env, key) >= 0 ==> env[env_index(env, key)].0@ == key,
        forall|j: int| 0 <= j < env_index(env, key) ==> (#[trigger] env[j]).0@ != key,
        env_index(env, key) < 0 ==> forall|j: int|
            0 <= j < env.len() ==> (#[trigger] env[j]).0@ != key,
    decreases env.len(),
{
    if env.len() > 0 && env[0].0@ != key {
        lemma_env_index(env.drop_first(), key);
        assert forall|j: int| 0 <= j < env_index(env, key) implies (#[trigger] env[j]).0@
            != key by {
            if j > 0 {
                assert(env.drop_first()[j - 1] == env[j]);
            }
        }
        if env_index(env, key) < 0 {
            assert forall|j: int| 0 <= j < env.len() implies (#[trigger] env[j]).0@ != key by {
                if j > 0 {
                    assert(env.drop_first()[j - 1] == env[j]);
                }
            }
        }
    }
}

/// How to launch a tool endpoint: program, arguments, environment additions
/// and an optional working directory. Environment keys are kept unique; a
/// repeated `with_env` replaces the earlier value.
pub struct CommandSpec {
    pub program: String,
    pub args: Vec<String>,
    pub env: Vec<(String, String)>,
    pub current_dir: Option<String>,
}

impl CommandSpec {
    /// A command with no arguments, environment or working directory.
    pub fn new(program: &str) -> (r: CommandSpec)
        ensures
            r.program@ == program@,
            r.args@.len() == 0,
            r.env@.len() == 0,
            r.current_dir is None,
    {
        CommandSpec {
            program: program.to_owned(),
            args: Vec::new(),
            env: Vec::new(),
            current_dir: None,
        }
    }

    /// Replaces the argument list.
    pub fn with_args(self, args: Vec<String>) -> (r: CommandSpec)
        ensures
            r.program == self.program,
            r.args == args,
            r.env == self.env,
            r.current_dir == self.current_dir,
    {
        CommandSpec { args, ..self }
    }

    /// Appends one argument.
    pub fn push_arg(self, arg: &str) -> (r: CommandSpec)
        ensures
            r.program == self.program,
            r.args@.len() == self.args@.len() + 1,
            r.args@.take(self.args@.len() as int) == self.args@,
            r.args@.last()@ == arg@,
            r.env == self.env,
            r.current_dir == self.current_dir,
    {
        let mut args = self.args;
        let ghost pre = args@;
        args.push(arg.to_owned());
        proof {
            assert(args@.take(pre.len() as int) =~= pre);
        }
        CommandSpec { args, ..self }
    }

    /// Sets one environment addition, replacing any earlier value under the
    /// same key.
    pub fn with_env(self, key: &str, value: &str) -> (r: CommandSpec)
        ensures
            r.program == self.program,
            r.args == self.args,
            r.current_dir == self.current_dir,
            ({
                let i = env_index(self.env@, key@);
                if i >= 0 {
                    &&& r.env@.len() == self.env@.len()
                    &&& r.env@[i].0@ == key@
                    &&& r.env@[i].1@ == value@
                    &&& (forall|j: int|
                        0 <= j < self.env@.len() && j != i ==> r.env@[j] == self.env@[j])
                } else {
                    &&& r.env@.len() == self.env@.len() + 1
                    &&& r.env@.take(self.env@.len() as int) == self.env@
                    &&& r.env@.last().0@ == key@
                    &&& r.env@.last().1@ == value@
                }
            }),
    {
        let mut env = self.env;
        let n = env.len();
        let mut i: usize = 0;
        while i < n
            invariant
                i <= n,
                n == env@.len(),
                env@ == self.env@,
                forall|j: int| 0 <= j < i ==> (#[trigger] env@[j]).0@ != key@,
            decreases n - i,
    {
            if crate::strutil::str_eq(env[i].0.as_str(), key) {
                proof {
                    lemma_env_index(env@, key@);
                    if env_index(env@, key@) < i as int {
                        assert(env@[env_index(env@, key@)].0@ != key@);
                    }
                    if env_index(env@, key@) > i as int {
                        assert(env@[i as int].0@ != key@);
                    }
                }
                let k = env[i].0.clone();
                env.set(i, (k, value.to_owned()));
                proof {
                    assert(env@[i as int].0@ == key@);
                }
                return CommandSpec { env, ..self };
            }
            i += 1;
        }
        proof {
            lemma_env_index(env@, key@);
            if env_index(env@, key@) >= 0 {
                assert(env@[env_index(env@, key@)].0@ != key@);
            }
        }
        let ghost pre = env@;
        env.push((key.to_owned(), value.to_owned()));
        proof {
            assert(env@.take(pre.len() as int) =~= pre);
        }
        CommandSpec { env, ..self }
    }

    /// Sets the working directory.
    pub fn with_current_dir(self, dir: &str) -> (r: CommandSpec)
        ensures
            r.program == self.program,
            r.args == self.args,
            r.env == self.env,
            r.current_dir matches Some(d) && d@ == dir@,
    {
        CommandSpec { current_dir: Some(dir.to_owned()), ..self }
    }
}

/// One tool endpoint: its name, its advertised authentication mode, and the
/// command that starts it as a child process.
pub struct McpEndpoint {
    pub id: String,
    pub mode: AuthMode,
    pub command: CommandSpec,
}

impl McpEndpoint {
    /// An endpoint reached through a child process.
    pub fn child_process(id: &str, mode: AuthMode, command: CommandSpec) -> (r: McpEndpoint)
        ensures
            r.id@ == id@,
            r.mode == mode,
            r.command == command,
    {
        McpEndpoint { id: id.to_owned(), mode, command }
    }

    /// The endpoint's name.
    pub fn id(&self) -> (r: &str)
        ensures
            r@ == self.id@,
    {
        self.id.as_str()
    }

    /// The endpoint's authentication mode.
    pub fn mode(&self) -> (r: &AuthMode)
        ensures
            r == self.mode,
    {
        &self.mode
    }
}

} // verus!
