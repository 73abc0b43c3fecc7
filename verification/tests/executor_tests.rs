use kerblam::executor::CommandResult;
use kerblam::executor::ExecutionStrategy;
use kerblam::executor::Executor;
use kerblam::executor::ExitInfo;
use kerblam::executor::RunnerStep;
use kerblam::executor::generate_bind_mount_strings;
use kerblam::executor::kill_outcome;
use kerblam::executor::may_spawn;
use kerblam::executor::poll_step;
use kerblam::options::ContainerBackend;
use kerblam::options::ExecutionOptions;
use kerblam::options::KerblamTomlOptions;
use kerblam::run::interpret_outcome;

fn bare_config(workdir: Option<&str>) -> KerblamTomlOptions {
    KerblamTomlOptions {
        meta: None,
        data: None,
        code: None,
        execution: ExecutionOptions {
            backend: ContainerBackend::Docker,
            workdir: workdir.map(|w| w.to_string()),
        },
    }
}

#[test]
fn strategy_is_inferred_from_extension() {
    let mk = Executor::create("/proj", "/proj/src/workflows/build.makefile", None).unwrap();
    assert_eq!(mk.strategy(), ExecutionStrategy::Make);
    let sh = Executor::create("/proj", "/proj/src/workflows/run.sh", None).unwrap();
    assert_eq!(sh.strategy(), ExecutionStrategy::Shell);
    assert!(!sh.has_env());
}

#[test]
fn unknown_extension_is_a_configuration_error() {
    assert!(Executor::create("/proj", "/proj/src/workflows/run.py", None).is_err());
    assert!(Executor::create("/proj", "/proj/src/workflows/noext", None).is_err());
}

#[test]
fn build_plan_with_cache_skip_carries_no_cache_flag() {
    let ex = Executor::create(
        "/proj",
        "/proj/src/workflows/run.sh",
        Some("/proj/src/dockerfiles/env.dockerfile".to_string()),
    )
    .unwrap();
    let with = ex.build_env("docker", true).unwrap();
    assert!(with.args.contains(&"--no-cache".to_string()));
    let without = ex.build_env("docker", false).unwrap();
    assert!(!without.args.contains(&"--no-cache".to_string()));
    assert_eq!(with.tag, "env_kerblam_runtime".to_string());
    assert_eq!(
        without.args,
        vec![
            "build".to_string(),
            "-f".to_string(),
            "/proj/src/dockerfiles/env.dockerfile".to_string(),
            "--tag".to_string(),
            "env_kerblam_runtime".to_string(),
            ".".to_string(),
        ]
    );
}

#[test]
fn build_plan_without_environment_fails() {
    let ex = Executor::create("/proj", "/proj/src/workflows/run.sh", None).unwrap();
    assert!(ex.build_env("docker", false).is_err());
}

#[test]
fn local_shell_run_plan() {
    // Workflow `echo hi > out.txt` as a shell script, no environment, no
    // profile: the plan stages the script by copy, runs it with bash, and
    // removes the staged file afterwards.
    let ex = Executor::create("/proj", "/proj/src/workflows/echo.sh", None).unwrap();
    let config = bare_config(None);
    let plan = ex.execute(&config, "/proj", false, Vec::new(), false, None);
    assert!(plan.build.is_none());
    let stage = plan.stage.unwrap();
    assert_eq!(stage.from, "/proj/src/workflows/echo.sh".to_string());
    assert_eq!(stage.to, "/proj/executor".to_string());
    assert_eq!(plan.program, "bash".to_string());
    assert_eq!(plan.args, vec!["/proj/executor".to_string()]);
    assert_eq!(plan.cleanup, vec!["/proj/executor".to_string()]);
    // The child exited cleanly: the run is a success.
    let outcome = interpret_outcome(Ok(CommandResult::Exited { res: ExitInfo { code: Some(0) } }));
    assert!(outcome.is_ok());
}

#[test]
fn local_make_run_plan_with_extra_args() {
    let ex = Executor::create("/proj", "/proj/src/workflows/build.makefile", None).unwrap();
    let config = bare_config(None);
    let plan = ex.execute(
        &config,
        "/proj",
        false,
        Vec::new(),
        false,
        Some(vec!["-j4".to_string()]),
    );
    assert_eq!(plan.program, "make".to_string());
    assert_eq!(
        plan.args,
        vec!["-f".to_string(), "/proj/executor".to_string(), "-j4".to_string()]
    );
}

#[test]
fn container_run_plan() {
    let ex = Executor::create(
        "/proj",
        "/proj/src/workflows/run.sh",
        Some("/proj/src/dockerfiles/env.dockerfile".to_string()),
    )
    .unwrap();
    let config = bare_config(Some("/app"));
    let plan = ex.execute(&config, "/proj", true, Vec::new(), false, None);
    let build = plan.build.unwrap();
    assert_eq!(build.tag, "env_kerblam_runtime".to_string());
    assert_eq!(plan.program, "docker".to_string());
    assert_eq!(
        plan.args,
        vec![
            "run".to_string(),
            "--rm".to_string(),
            "-it".to_string(),
            "-v".to_string(),
            "/proj/data/in:/app/data/in".to_string(),
            "-v".to_string(),
            "/proj/data/out:/app/data/out".to_string(),
            "-v".to_string(),
            "/proj/data:/app/data".to_string(),
            "--entrypoint".to_string(),
            "bash".to_string(),
            "env_kerblam_runtime".to_string(),
            "/app/executor".to_string(),
        ]
    );
    assert!(plan.stage.is_none());
    assert_eq!(plan.cleanup.len(), 0);
}

#[test]
fn bind_mounts_mirror_the_data_directories() {
    let config = bare_config(Some("/work"));
    let mounts = generate_bind_mount_strings(&config, "/proj");
    assert_eq!(
        mounts,
        vec![
            "/proj/data/in:/work/data/in".to_string(),
            "/proj/data/out:/work/data/out".to_string(),
            "/proj/data:/work/data".to_string(),
        ]
    );
}

#[test]
fn pending_cancellation_refuses_to_spawn() {
    assert!(may_spawn(true).is_err());
    assert!(may_spawn(false).is_ok());
}

#[test]
fn poll_kills_on_signal_before_anything_else() {
    // A child killed mid-run: the signal wins even when the child has
    // already finished, the kill ends the run as Killed, and that outcome
    // is an error of its own to the orchestrator.
    assert!(matches!(
        poll_step(true, Some(ExitInfo { code: Some(0) })),
        RunnerStep::KillChild
    ));
    let killed = kill_outcome(true).unwrap();
    assert!(matches!(killed, CommandResult::Killed));
    assert!(interpret_outcome(Ok(CommandResult::Killed)).is_err());
    assert!(kill_outcome(false).is_err());
}

#[test]
fn poll_reports_the_real_exit_status() {
    match poll_step(false, Some(ExitInfo { code: Some(3) })) {
        RunnerStep::Finish(CommandResult::Exited { res }) => {
            assert_eq!(res.code, Some(3));
            assert!(!res.success());
        },
        _ => panic!("expected the run to finish"),
    }
    assert!(matches!(poll_step(false, None), RunnerStep::KeepWaiting));
}

#[test]
fn failed_exit_status_is_an_error() {
    let outcome = interpret_outcome(Ok(CommandResult::Exited { res: ExitInfo { code: Some(2) } }));
    assert!(outcome.is_err());
    let signal_death =
        interpret_outcome(Ok(CommandResult::Exited { res: ExitInfo { code: None } }));
    assert!(signal_death.is_err());
}
