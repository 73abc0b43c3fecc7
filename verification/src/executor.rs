//! The executor: how a resolved workflow becomes a command line.
//!
//! An [`Executor`] owns the move that stages the workflow file, the optional
//! container definition, and the execution strategy inferred from the
//! workflow file's extension.  It assembles, as plain data, the container
//! build command, the container run command or the local command, and the
//! cleanup list; the unverified shell spawns the processes.  The polling
//! decisions of the protected command runner are here too.

use crate::errors::StopError;
use crate::options::KerblamTomlOptions;
use crate::paths::extension_of;
use crate::paths::file_name;
use crate::paths::first_dot;
use crate::paths::is_path_prefix;
use crate::paths::join_path;
use crate::paths::name_before_first_dot;
use crate::paths::push_fragment;
use crate::paths::spec_extension;
use crate::paths::spec_file_name;
use crate::paths::spec_join;
use crate::paths::spec_strip_prefix;
use crate::paths::str_eq;
use crate::paths::strings_of;
use crate::paths::strip_prefix_path;
use crate::swap::FileMover;
use crate::swap::SwapView;
use vstd::prelude::*;
use vstd::string::*;

verus! {

/// How a workflow file is run, inferred from its extension.
#[derive(Debug, Clone, Copy, PartialEq, Eq, Structural)]
pub enum ExecutionStrategy {
    Make,
    Shell,
}

/// The strategy an extension selects: `makefile` runs under make, `sh`
/// under a shell, anything else is a configuration error.
pub open spec fn strategy_of_ext(e: Option<Seq<char>>) -> Option<ExecutionStrategy> {
    match e {
        Some(x) => if x == "makefile"@ {
            Some(ExecutionStrategy::Make)
        } else if x == "sh"@ {
            Some(ExecutionStrategy::Shell)
        } else {
            None
        },
        None => None,
    }
}

/// A planned file copy, carried out by the shell.
pub struct CopyOp {
    pub from: String,
    pub to: String,
}

/// The tag a container environment is built under: the environment file's
/// name up to its first dot, suffixed.
pub open spec fn spec_env_tag(env: Seq<char>) -> Seq<char> {
    spec_file_name(env).take(first_dot(spec_file_name(env))) + "_kerblam_runtime"@
}

/// The arguments of a container build command.
pub open spec fn spec_build_args(env: Seq<char>, tag: Seq<char>, no_cache: bool) -> Seq<Seq<char>> {
    if no_cache {
        seq!["build"@, "-f"@, env, "--tag"@, tag, "--no-cache"@, "."@]
    } else {
        seq!["build"@, "-f"@, env, "--tag"@, tag, "."@]
    }
}

/// A planned container build: stage the workflow file, run the backend with
/// these arguments, and remove the staged files however it went.
pub struct BuildPlan {
    /// The backend binary to invoke.
    pub program: String,
    pub args: Vec<String>,
    /// The tag the built image carries.
    pub tag: String,
    /// The copy that stages the workflow file before the build.
    pub stage: CopyOp,
    /// Files removed after the build, on success, failure and cancellation
    /// alike.
    pub cleanup: Vec<String>,
}

/// A planned workflow run: an optional container build first, an optional
/// staging copy, then one command with its environment, and the files to
/// remove once the run is over however it went.
pub struct ExecutePlan {
    pub build: Option<BuildPlan>,
    pub stage: Option<CopyOp>,
    pub program: String,
    pub args: Vec<String>,
    pub env_vars: Vec<(String, String)>,
    pub cleanup: Vec<String>,
}

/// One `-v` binding per data directory: the host path, then the same
/// directory under the container workdir.
pub open spec fn spec_mount_of(root: Seq<char>, dir: Seq<char>, workdir: Seq<char>) -> Seq<char> {
    dir + ":"@ + workdir + "/"@ + (if is_path_prefix(root, dir) {
        spec_strip_prefix(root, dir)
    } else {
        dir
    })
}

/// The `-v` argument pairs for a list of bindings.
pub open spec fn spec_mount_args(mounts: Seq<Seq<char>>) -> Seq<Seq<char>>
    decreases mounts.len(),
{
    if mounts.len() == 0 {
        Seq::empty()
    } else {
        seq!["-v"@, mounts[0]] + spec_mount_args(mounts.drop_first())
    }
}

/// Extending the bindings extends their argument pairs at the end.
pub proof fn lemma_mount_args_push(s: Seq<Seq<char>>, x: Seq<char>)
    ensures
        spec_mount_args(s.push(x)) == spec_mount_args(s) + seq!["-v"@, x],
    decreases s.len(),
{
    if s.len() == 0 {
        assert(s.push(x).drop_first() =~= Seq::<Seq<char>>::empty());
        assert(s.push(x)[0] == x);
        assert(spec_mount_args(s.push(x).drop_first()) == Seq::<Seq<char>>::empty());
        assert(spec_mount_args(s.push(x)) == seq!["-v"@, x] + Seq::<Seq<char>>::empty());
        assert(spec_mount_args(s) == Seq::<Seq<char>>::empty());
        assert(spec_mount_args(s.push(x)) =~= spec_mount_args(s) + seq!["-v"@, x]);
    } else {
        assert(s.push(x).drop_first() =~= s.drop_first().push(x));
        lemma_mount_args_push(s.drop_first(), x);
        assert(spec_mount_args(s.push(x)) =~= spec_mount_args(s) + seq!["-v"@, x]);
    }
}

/// The entrypoint override of a container run: make reads the staged file
/// inside the workdir, a shell runs it by path.
pub open spec fn spec_entry_args(
    strategy: ExecutionStrategy,
    tag: Seq<char>,
    workdir: Seq<char>,
) -> Seq<Seq<char>> {
    match strategy {
        ExecutionStrategy::Make => seq![
            "--entrypoint"@,
            "make"@,
            tag,
            "-f"@,
            "executor"@,
            "-C"@,
            workdir,
        ],
        ExecutionStrategy::Shell => seq!["--entrypoint"@, "bash"@, tag, workdir + "/executor"@],
    }
}

/// The full argument list of a container run.
pub open spec fn spec_container_args(
    is_terminal: bool,
    mounts: Seq<Seq<char>>,
    strategy: ExecutionStrategy,
    tag: Seq<char>,
    workdir: Seq<char>,
    extra: Seq<Seq<char>>,
) -> Seq<Seq<char>> {
    (if is_terminal {
        seq!["run"@, "--rm"@, "-it"@]
    } else {
        seq!["run"@, "--rm"@]
    }) + spec_mount_args(mounts) + spec_entry_args(strategy, tag, workdir) + extra
}

/// The argument list of a local run of the staged workflow file.
pub open spec fn spec_local_args(
    strategy: ExecutionStrategy,
    staged: Seq<char>,
    extra: Seq<Seq<char>>,
) -> Seq<Seq<char>> {
    (match strategy {
        ExecutionStrategy::Make => seq!["-f"@, staged],
        ExecutionStrategy::Shell => seq![staged],
    }) + extra
}

/// Encapsulates what file to execute and how to execute it.
pub struct Executor {
    target: FileMover,
    env: Option<String>,
    strategy: ExecutionStrategy,
}

impl Executor {
    /// The staging move: workflow file to canonical location.
    pub closed spec fn target_view(&self) -> SwapView {
        self.target@
    }

    /// The container definition, when one is configured.
    pub closed spec fn env_spec(&self) -> Option<Seq<char>> {
        match self.env {
            Some(ref e) => Some(e@),
            None => None,
        }
    }

    /// The inferred execution strategy.
    pub closed spec fn strategy_spec(&self) -> ExecutionStrategy {
        self.strategy
    }

    /// Everything [`Executor::create`] promises of its result.
    pub open spec fn spec_create_post(
        root: Seq<char>,
        exec_path: Seq<char>,
        environment: Option<String>,
        r: Result<Executor, StopError>,
    ) -> bool {
        match r {
            Ok(e) => {
                &&& strategy_of_ext(spec_extension(exec_path)) == Some(e.strategy_spec())
                &&& e.target_view().from == exec_path
                &&& e.target_view().to == spec_join(root, "executor"@)
                &&& e.env_spec() == (match environment {
                    Some(s) => Some(s@),
                    None => None::<Seq<char>>,
                })
            },
            Err(_) => strategy_of_ext(spec_extension(exec_path)) is None,
        }
    }

    /// Create a new executor.
    ///
    /// The execution strategy is inferred from the extension of the
    /// workflow file: `makefile` runs under make and `sh` under a shell;
    /// any other extension, or none, is a configuration error.  The staged
    /// copy of the workflow file will live at `executor` under
    /// `root_path`.
    pub fn create(root_path: &str, executor_path: &str, environment: Option<String>) -> (r: Result<
        Executor,
        StopError,
    >)
        ensures
            Self::spec_create_post(root_path@, executor_path@, environment, r),
    {
        let target = FileMover::new(executor_path.to_owned(), join_path(root_path, "executor"));
        let ext = extension_of(executor_path);
        let strategy = match ext {
            None => {
                return Err(
                    StopError::new(
                        "Cannot determine execution strategy: the workflow file has no extension".to_owned(),
                    ),
                );
            },
            Some(e) => {
                if str_eq(e.as_str(), "makefile") {
                    ExecutionStrategy::Make
                } else if str_eq(e.as_str(), "sh") {
                    ExecutionStrategy::Shell
                } else {
                    return Err(
                        StopError::new(
                            "Cannot determine execution strategy: unrecognized extension".to_owned(),
                        ),
                    );
                }
            },
        };
        Ok(Executor { target, env: environment, strategy })
    }

    /// The inferred execution strategy.
    pub fn strategy(&self) -> (r: ExecutionStrategy)
        ensures
            r == self.strategy_spec(),
    {
        self.strategy
    }

    /// Will this executor run in a container environment?
    pub fn has_env(&self) -> (r: bool)
        ensures
            r == (self.env_spec() is Some),
    {
        self.env.is_some()
    }

    /// Plan the container build for this executor: stage the workflow
    /// file, invoke the backend on the environment file under a derived
    /// tag, and tear the staged file down afterwards in every case.
    ///
    /// Fails exactly when the executor has no environment file.
    pub fn build_env(&self, backend: &str, no_cache: bool) -> (r: Result<BuildPlan, StopError>)
        ensures
            match r {
                Ok(p) => {
                    &&& self.env_spec() is Some
                    &&& p.program@ == backend@
                    &&& p.tag@ == spec_env_tag(self.env_spec()->Some_0)
                    &&& strings_of(p.args@) == spec_build_args(
                        self.env_spec()->Some_0,
                        p.tag@,
                        no_cache,
                    )
                    &&& p.stage.from@ == self.target_view().from
                    &&& p.stage.to@ == self.target_view().to
                    &&& strings_of(p.cleanup@) == seq![self.target_view().to]
                },
                Err(_) => self.env_spec() is None,
            },
    {
        let env = match &self.env {
            None => {
                return Err(
                    StopError::new("Cannot build environment with no environment file.".to_owned()),
                );
            },
            Some(e) => e.clone(),
        };
        let cname = file_name(env.as_str());
        let tag = push_fragment(name_before_first_dot(cname.as_str()).as_str(), "_kerblam_runtime");
        let mut args: Vec<String> = Vec::new();
        args.push("build".to_owned());
        args.push("-f".to_owned());
        args.push(env.clone());
        args.push("--tag".to_owned());
        args.push(tag.clone());
        if no_cache {
            args.push("--no-cache".to_owned());
        }
        args.push(".".to_owned());
        proof {
            assert(strings_of(args@) =~= spec_build_args(env@, tag@, no_cache));
        }
        let cleanup: Vec<String> = vec![self.target.get_to()];
        proof {
            assert(strings_of(cleanup@) =~= seq![self.target_view().to]);
        }
        Ok(
            BuildPlan {
                program: backend.to_owned(),
                args,
                tag,
                stage: CopyOp { from: self.target.get_from(), to: self.target.get_to() },
                cleanup,
            },
        )
    }

    /// Plan the run of this executor.
    ///
    /// With an environment, the plan builds the container first and then
    /// runs the backend: interactive flags when attached to a terminal,
    /// one bind-mount per managed data directory, the entrypoint override
    /// for the strategy, and `extra_args` appended verbatim.  Without one,
    /// the plan stages the workflow file by copy (registered for cleanup)
    /// and runs it directly.  The child receives `env_vars` on top of its
    /// environment.  Consumes the executor: a plan is made once.
    pub fn execute(
        self,
        config: &KerblamTomlOptions,
        root: &str,
        is_terminal: bool,
        env_vars: Vec<(String, String)>,
        skip_build_cache: bool,
        extra_args: Option<Vec<String>>,
    ) -> (r: ExecutePlan)
        ensures
            r.env_vars@ == env_vars@,
            ({
                let extra = match extra_args {
                    Some(v) => strings_of(v@),
                    None => Seq::<Seq<char>>::empty(),
                };
                if self.env_spec() is Some {
                    &&& r.build is Some
                    &&& ({
                        let b = r.build->Some_0;
                        &&& b.program@ == (if config.execution.backend is Docker {
                            "docker"@
                        } else {
                            "podman"@
                        })
                        &&& b.tag@ == spec_env_tag(self.env_spec()->Some_0)
                        &&& strings_of(b.args@) == spec_build_args(
                            self.env_spec()->Some_0,
                            b.tag@,
                            skip_build_cache,
                        )
                        &&& b.stage.from@ == self.target_view().from
                        &&& b.stage.to@ == self.target_view().to
                        &&& strings_of(r.args@) == spec_container_args(
                            is_terminal,
                            spec_config_mounts(*config, root@),
                            self.strategy_spec(),
                            b.tag@,
                            config.spec_workdir(),
                            extra,
                        )
                    })
                    &&& r.stage is None
                    &&& r.program@ == (if config.execution.backend is Docker {
                        "docker"@
                    } else {
                        "podman"@
                    })
                    &&& r.cleanup@.len() == 0
                } else {
                    &&& r.build is None
                    &&& r.stage is Some
                    &&& r.stage->Some_0.from@ == self.target_view().from
                    &&& r.stage->Some_0.to@ == self.target_view().to
                    &&& r.program@ == (match self.strategy_spec() {
                        ExecutionStrategy::Make => "make"@,
                        ExecutionStrategy::Shell => "bash"@,
                    })
                    &&& strings_of(r.args@) == spec_local_args(
                        self.strategy_spec(),
                        self.target_view().to,
                        extra,
                    )
                    &&& strings_of(r.cleanup@) == seq![self.target_view().to]
                }
            }),
    {
        let ghost extra_model = match extra_args {
            Some(ref v) => strings_of(v@),
            None => Seq::<Seq<char>>::empty(),
        };
        if self.env.is_some() {
            let backend = config.execution.backend.as_arg();
            let build = match self.build_env(backend.as_str(), skip_build_cache) {
                Ok(b) => b,
                Err(_) => {
                    // An environment is present, so the build plan cannot
                    // be refused.
                    proof {
                        assert(false);
                    }
                    BuildPlan {
                        program: backend.clone(),
                        args: Vec::new(),
                        tag: String::new(),
                        stage: CopyOp { from: self.target.get_from(), to: self.target.get_to() },
                        cleanup: Vec::new(),
                    }
                },
            };
            let mut args: Vec<String> = Vec::new();
            args.push("run".to_owned());
            args.push("--rm".to_owned());
            if is_terminal {
                args.push("-it".to_owned());
            }
            let ghost base = strings_of(args@);
            proof {
                if is_terminal {
                    assert(base =~= seq!["run"@, "--rm"@, "-it"@]);
                } else {
                    assert(base =~= seq!["run"@, "--rm"@]);
                }
            }
            let mounts = generate_bind_mount_strings(config, root);
            let ghost mounts_model = strings_of(mounts@);
            proof {
                assert(mounts_model =~= spec_config_mounts(*config, root@));
                assert(mounts_model.take(0) =~= Seq::<Seq<char>>::empty());
                assert(strings_of(args@) =~= base + spec_mount_args(mounts_model.take(0)));
            }
            let mut mi: usize = 0;
            while mi < mounts.len()
                invariant
                    mi <= mounts@.len(),
                    mounts_model == strings_of(mounts@),
                    strings_of(args@) == base + spec_mount_args(mounts_model.take(mi as int)),
                decreases mounts@.len() - mi,
            {
                let ghost before = strings_of(args@);
                args.push("-v".to_owned());
                args.push(mounts[mi].clone());
                proof {
                    assert(strings_of(args@) =~= before + seq!["-v"@, mounts_model[mi as int]]);
                    assert(mounts_model.take(mi + 1) =~= mounts_model.take(mi as int).push(
                        mounts_model[mi as int],
                    ));
                    lemma_mount_args_push(mounts_model.take(mi as int), mounts_model[mi as int]);
                    assert(strings_of(args@) =~= base + spec_mount_args(mounts_model.take(mi + 1)));
                }
                mi = mi + 1;
            }
            proof {
                assert(mounts_model.take(mounts_model.len() as int) =~= mounts_model);
            }
            let workdir = match &config.execution.workdir {
                Some(w) => w.clone(),
                None => "/".to_owned(),
            };
            let ghost with_mounts = strings_of(args@);
            match self.strategy {
                ExecutionStrategy::Make => {
                    args.push("--entrypoint".to_owned());
                    args.push("make".to_owned());
                    args.push(build.tag.clone());
                    args.push("-f".to_owned());
                    args.push("executor".to_owned());
                    args.push("-C".to_owned());
                    args.push(workdir);
                },
                ExecutionStrategy::Shell => {
                    args.push("--entrypoint".to_owned());
                    args.push("bash".to_owned());
                    args.push(build.tag.clone());
                    args.push(push_fragment(workdir.as_str(), "/executor"));
                },
            }
            proof {
                assert(strings_of(args@) =~= with_mounts + spec_entry_args(
                    self.strategy_spec(),
                    build.tag@,
                    config.spec_workdir(),
                ));
            }
            let ghost with_entry = strings_of(args@);
            let args = append_extra(args, extra_args);
            proof {
                assert(strings_of(args@) =~= with_entry + extra_model);
                assert(strings_of(args@) =~= spec_container_args(
                    is_terminal,
                    spec_config_mounts(*config, root@),
                    self.strategy_spec(),
                    build.tag@,
                    config.spec_workdir(),
                    extra_model,
                ));
            }
            ExecutePlan {
                build: Some(build),
                stage: None,
                program: backend,
                args,
                env_vars,
                cleanup: Vec::new(),
            }
        } else {
            let staged = self.target.get_to();
            let mut args: Vec<String> = Vec::new();
            let program: String;
            match self.strategy {
                ExecutionStrategy::Make => {
                    program = "make".to_owned();
                    args.push("-f".to_owned());
                    args.push(staged.clone());
                },
                ExecutionStrategy::Shell => {
                    program = "bash".to_owned();
                    args.push(staged.clone());
                },
            }
            let ghost local_base = strings_of(args@);
            let args = append_extra(args, extra_args);
            proof {
                assert(strings_of(args@) =~= local_base + extra_model);
                assert(strings_of(args@) =~= spec_local_args(
                    self.strategy_spec(),
                    self.target_view().to,
                    extra_model,
                ));
            }
            let cleanup: Vec<String> = vec![self.target.get_to()];
            proof {
                assert(strings_of(cleanup@) =~= seq![self.target_view().to]);
            }
            ExecutePlan {
                build: None,
                stage: Some(CopyOp { from: self.target.get_from(), to: staged }),
                program,
                args,
                env_vars,
                cleanup,
            }
        }
    }
}

/// Append the caller's extra arguments, verbatim, to an argument list.
fn append_extra(args: Vec<String>, extra_args: Option<Vec<String>>) -> (r: Vec<String>)
    ensures
        strings_of(r@) == strings_of(args@) + (match extra_args {
            Some(v) => strings_of(v@),
            None => Seq::<Seq<char>>::empty(),
        }),
{
    let ghost base = strings_of(args@);
    match extra_args {
        None => {
            proof {
                assert(strings_of(args@) =~= base + Seq::<Seq<char>>::empty());
            }
            args
        },
        Some(v) => {
            let mut args = args;
            let mut j: usize = 0;
            while j < v.len()
                invariant
                    j <= v@.len(),
                    strings_of(args@) == base + strings_of(v@).take(j as int),
                decreases v@.len() - j,
            {
                let ghost before = strings_of(args@);
                args.push(v[j].clone());
                proof {
                    assert(strings_of(args@) =~= before.push(strings_of(v@)[j as int]));
                    assert(base + strings_of(v@).take(j + 1) =~= (base + strings_of(v@).take(
                        j as int,
                    )).push(strings_of(v@)[j as int]));
                }
                j = j + 1;
            }
            proof {
                assert(strings_of(v@).take(v@.len() as int) =~= strings_of(v@));
            }
            args
        },
    }
}

/// The three bind mounts of a configuration under `root`.
pub open spec fn spec_config_mounts(config: KerblamTomlOptions, root: Seq<char>) -> Seq<Seq<char>> {
    seq![
        spec_mount_of(root, spec_join(root, config.spec_input_rel()), config.spec_workdir()),
        spec_mount_of(root, spec_join(root, config.spec_output_rel()), config.spec_workdir()),
        spec_mount_of(root, spec_join(root, config.spec_intermediate_rel()), config.spec_workdir()),
    ]
}

/// One `host:container` binding.
fn mount_for(dir: &str, root: &str, workdir: &str) -> (r: String)
    ensures
        r@ == spec_mount_of(root@, dir@, workdir@),
{
    let rel = match strip_prefix_path(dir, root) {
        Some(rest) => rest,
        None => dir.to_owned(),
    };
    let mut s = dir.to_owned();
    s = s.concat(":");
    s = s.concat(workdir);
    s = s.concat("/");
    s = s.concat(rel.as_str());
    proof {
        reveal_strlit(":");
        reveal_strlit("/");
        assert(s@ =~= spec_mount_of(root@, dir@, workdir@));
    }
    s
}

/// Generate the strings suitable for `-v` options that bind the data
/// directories of the configuration into the container, mirroring the
/// local layout under the container workdir.
pub fn generate_bind_mount_strings(config: &KerblamTomlOptions, root: &str) -> (r: Vec<String>)
    ensures
        strings_of(r@) == spec_config_mounts(*config, root@),
{
    let workdir = match &config.execution.workdir {
        Some(w) => w.clone(),
        None => "/".to_owned(),
    };
    let a = mount_for(config.input_data_dir(root).as_str(), root, workdir.as_str());
    let b = mount_for(config.output_data_dir(root).as_str(), root, workdir.as_str());
    let c = mount_for(config.intermediate_data_dir(root).as_str(), root, workdir.as_str());
    let r: Vec<String> = vec![a, b, c];
    proof {
        assert(strings_of(r@) =~= spec_config_mounts(*config, root@));
    }
    r
}

/// What a finished child reported: an exit code, or none when a signal
/// ended it.
#[derive(Debug, Clone, Copy)]
pub struct ExitInfo {
    pub code: Option<i32>,
}

impl ExitInfo {
    /// Whether the child exited successfully.
    pub open spec fn spec_success(&self) -> bool {
        self.code == Some(0i32)
    }

    /// Whether the child exited successfully.
    pub fn success(&self) -> (r: bool)
        ensures
            r == self.spec_success(),
    {
        match self.code {
            Some(c) => c == 0,
            None => false,
        }
    }
}

/// How a protected run ended: the child exited by itself, or was killed
/// after a cancellation signal.
pub enum CommandResult {
    Exited { res: ExitInfo },
    Killed,
}

/// What the protected runner does next after one poll of the cancellation
/// channel and of the child.
pub enum RunnerStep {
    KillChild,
    Finish(CommandResult),
    KeepWaiting,
}

/// Decide whether a child may be spawned: a cancellation signal already
/// pending refuses the start.
pub fn may_spawn(signal_pending: bool) -> (r: Result<(), StopError>)
    ensures
        r is Ok <==> !signal_pending,
{
    if signal_pending {
        Err(StopError::new("A cancellation is already pending; refusing to start.".to_owned()))
    } else {
        Ok(())
    }
}

/// One poll of the protected runner, taken every 50 ms while a child is
/// outstanding: a received signal kills the child before anything else; a
/// child seen finished ends the run with its real status; otherwise keep
/// waiting.
pub fn poll_step(got_signal: bool, child_status: Option<ExitInfo>) -> (r: RunnerStep)
    ensures
        got_signal ==> r is KillChild,
        !got_signal ==> match child_status {
            Some(st) => r == (RunnerStep::Finish(CommandResult::Exited { res: st })),
            None => r is KeepWaiting,
        },
{
    if got_signal {
        RunnerStep::KillChild
    } else {
        match child_status {
            Some(st) => RunnerStep::Finish(CommandResult::Exited { res: st }),
            None => RunnerStep::KeepWaiting,
        }
    }
}

/// Interpret the attempt to kill the child: success ends the run as
/// killed, a child that cannot be killed is an error of its own.
pub fn kill_outcome(kill_succeeded: bool) -> (r: Result<CommandResult, StopError>)
    ensures
        kill_succeeded ==> r == (Ok::<CommandResult, StopError>(CommandResult::Killed)),
        !kill_succeeded ==> r is Err,
{
    if kill_succeeded {
        Ok(CommandResult::Killed)
    } else {
        Err(StopError::new("Failed to kill child!".to_owned()))
    }
}

} // verus!
