use zmake_tasks_runner::config_model::{
    Block, Config, ExecutionPolicy, GlobalConfig, LocalConfig, PlatformCommands, Tasks,
};
use zmake_tasks_runner::environment::{EnvVariableSource, Environment};
use zmake_tasks_runner::error::RunnerError;
use zmake_tasks_runner::runner::{
    apply_global_config, capture_args, run, run_block, run_section, section_selected, shell_args,
    shell_program, skipped_sections, Action,
    CommandOutcome, Os, Runner, Section,
};

fn steps(list: &[&str]) -> Option<Vec<String>> {
    Some(list.iter().map(|s| s.to_string()).collect())
}

fn linux(list: &[&str], policy: Option<ExecutionPolicy>) -> PlatformCommands {
    PlatformCommands {
        windows: None,
        linux: Some(Block {
            steps: steps(list),
            local_config: policy.map(|p| LocalConfig { execution_policy: Some(p), env: None }),
        }),
        macos: None,
    }
}

fn tasks() -> Tasks {
    Tasks {
        prebuild: None,
        build: None,
        postbuild: None,
        test: None,
        predeploy: None,
        deploy: None,
        postdeploy: None,
        clean: None,
    }
}

fn lookup(env: &Environment, key: &str) -> Option<(String, EnvVariableSource)> {
    env.get_variables()
        .iter()
        .find(|(k, _)| k == key)
        .map(|(_, v)| (v.value.clone(), v.source))
}

fn ok() -> CommandOutcome {
    CommandOutcome::Exited { success: true, code: Some(0), dump: None }
}

/// Drives a runner, answering each command with `answer`; returns the
/// commands with their environments, and the final result.
fn drive(
    mut runner: Runner,
    mut answer: impl FnMut(&str) -> CommandOutcome,
) -> (Vec<(String, Environment)>, Vec<String>, Result<(), RunnerError>) {
    let mut executed = Vec::new();
    let mut events = Vec::new();
    for _ in 0..1000 {
        match runner.next_action() {
            Action::Execute { command, env } => {
                let outcome = answer(&command);
                executed.push((command, env));
                runner.complete(outcome);
            }
            Action::Finished(r) => return (executed, events, r),
            Action::SectionStarted(s) => events.push(format!("section {}", s.as_str())),
            Action::BlockEntered(b) => events.push(format!("block {}", b)),
            Action::Skipped(s) => events.push(format!("skip {}", s)),
            Action::ScopeFinished(s) => events.push(format!("leave {}", s)),
        }
    }
    panic!("run did not finish");
}

fn failing(cmd: &str) -> CommandOutcome {
    if cmd == "failing_cmd" {
        CommandOutcome::Exited { success: false, code: Some(1), dump: None }
    } else {
        ok()
    }
}

#[test]
fn fast_fail_stops_at_first_failure() {
    let mut t = tasks();
    t.build = Some(linux(&["ok_cmd", "failing_cmd", "ok_cmd_2"], None));
    let config = Config { tasks: t, blocks: vec![], global_config: None };
    let (executed, _, result) = drive(run(config, Environment::new(Os::Linux)), failing);
    let names: Vec<&str> = executed.iter().map(|(c, _)| c.as_str()).collect();
    assert_eq!(names, vec!["ok_cmd", "failing_cmd"]);
    match result {
        Err(RunnerError::CmdFailed(m)) => {
            assert_eq!(m, "Parent 'Build' command failed: 'failing_cmd' (exit 1)")
        }
        other => panic!("unexpected {:?}", other),
    }
}

#[test]
fn carry_forward_runs_everything_and_reports_once() {
    let mut t = tasks();
    t.build = Some(linux(&["ok_cmd", "failing_cmd", "ok_cmd_2"], Some(ExecutionPolicy::CarryForward)));
    let config = Config { tasks: t, blocks: vec![], global_config: None };
    let (executed, _, result) = drive(run(config, Environment::new(Os::Linux)), failing);
    let names: Vec<&str> = executed.iter().map(|(c, _)| c.as_str()).collect();
    assert_eq!(names, vec!["ok_cmd", "failing_cmd", "ok_cmd_2"]);
    match result {
        Err(RunnerError::Failures(v)) => {
            assert_eq!(v.len(), 1);
            assert!(v[0].contains("failing_cmd"));
        }
        other => panic!("unexpected {:?}", other),
    }
}

#[test]
fn clean_is_skipped_without_a_filter() {
    let mut t = tasks();
    t.prebuild = Some(linux(&["p"], None));
    t.build = Some(linux(&["b"], None));
    t.postbuild = Some(linux(&["pb"], None));
    t.test = Some(linux(&["t"], None));
    t.predeploy = Some(linux(&["pd"], None));
    t.deploy = Some(linux(&["d"], None));
    t.postdeploy = Some(linux(&["pod"], None));
    t.clean = Some(linux(&["c"], None));
    let config = Config { tasks: t, blocks: vec![], global_config: None };
    let (executed, events, result) = drive(run(config, Environment::new(Os::Linux)), |_| ok());
    let names: Vec<&str> = executed.iter().map(|(c, _)| c.as_str()).collect();
    assert_eq!(names, vec!["p", "b", "pb", "t", "pd", "d", "pod"]);
    assert_eq!(result, Ok(()));
    assert_eq!(events[0], "section PreBuild");
}

#[test]
fn clean_filter_runs_only_clean() {
    let mut t = tasks();
    t.build = Some(linux(&["b"], None));
    t.clean = Some(linux(&["c"], None));
    let config = Config { tasks: t, blocks: vec![], global_config: None };
    let mut env = Environment::new(Os::Linux);
    env.sections = Some(vec![Section::Clean]);
    assert!(section_selected(&env, Section::Clean));
    assert!(!section_selected(&env, Section::Build));
    let (executed, _, result) = drive(run(config, env), |_| ok());
    let names: Vec<&str> = executed.iter().map(|(c, _)| c.as_str()).collect();
    assert_eq!(names, vec!["c"]);
    assert_eq!(result, Ok(()));
}

#[test]
fn block_scoping_of_local_variables() {
    let mut t = tasks();
    t.build = Some(linux(&["sibling", "setfoo", "echo after"], None));
    let blocks = vec![
        ("sibling".to_string(), Block { steps: steps(&["echo sibling"]), local_config: None }),
        (
            "setfoo".to_string(),
            Block {
                steps: steps(&["echo inside"]),
                local_config: Some(LocalConfig {
                    execution_policy: None,
                    env: Some(vec![("FOO".to_string(), "bar".to_string())]),
                }),
            },
        ),
    ];
    let config = Config { tasks: t, blocks, global_config: None };
    let (executed, events, result) = drive(run(config, Environment::new(Os::Linux)), |_| ok());
    assert_eq!(result, Ok(()));
    assert_eq!(executed.len(), 3);
    assert_eq!(executed[0].0, "echo sibling");
    assert_eq!(lookup(&executed[0].1, "FOO"), None);
    assert_eq!(executed[1].0, "echo inside");
    assert_eq!(lookup(&executed[1].1, "FOO"), Some(("bar".to_string(), EnvVariableSource::Local)));
    assert_eq!(executed[2].0, "echo after");
    assert_eq!(lookup(&executed[2].1, "FOO"), Some(("bar".to_string(), EnvVariableSource::Local)));
    assert!(events.contains(&"block setfoo".to_string()));
}

#[test]
fn command_dump_is_visible_to_later_steps() {
    let mut t = tasks();
    t.build = Some(linux(&["export X=1", "echo $X"], None));
    let config = Config { tasks: t, blocks: vec![], global_config: None };
    let (executed, _, result) = drive(run(config, Environment::new(Os::Linux)), |cmd| {
        if cmd == "export X=1" {
            CommandOutcome::Exited { success: true, code: Some(0), dump: Some("X=1\nPATH=/bin\n".to_string()) }
        } else {
            ok()
        }
    });
    assert_eq!(result, Ok(()));
    assert_eq!(lookup(&executed[1].1, "X"), Some(("1".to_string(), EnvVariableSource::Script)));
    assert_eq!(lookup(&executed[0].1, "X"), None);
}

#[test]
fn dry_run_skips_commands() {
    let mut t = tasks();
    t.build = Some(linux(&["echo one", "  ", "echo two"], None));
    let config = Config { tasks: t, blocks: vec![], global_config: None };
    let mut env = Environment::new(Os::Linux);
    env.dry_run = true;
    let (executed, events, result) = drive(run(config, env), |_| ok());
    assert!(executed.is_empty());
    assert_eq!(result, Ok(()));
    assert!(events.contains(&"skip echo one".to_string()));
    assert!(events.contains(&"skip ".to_string()));
}

#[test]
fn self_referencing_block_is_stopped() {
    let mut t = tasks();
    t.build = Some(linux(&["again"], None));
    let blocks = vec![("again".to_string(), Block { steps: steps(&["again"]), local_config: None })];
    let config = Config { tasks: t, blocks, global_config: None };
    let (_, _, result) = drive(run(config, Environment::new(Os::Linux)), |_| ok());
    assert_eq!(result, Err(RunnerError::Constraints("Block 'again' is already running".to_string())));
}

#[test]
fn fast_fail_block_failure_is_recorded_by_carry_forward_section() {
    let mut t = tasks();
    t.build = Some(linux(&["inner", "echo next"], Some(ExecutionPolicy::CarryForward)));
    let blocks = vec![(
        "inner".to_string(),
        Block {
            steps: steps(&["failing_cmd", "never"]),
            local_config: Some(LocalConfig { execution_policy: Some(ExecutionPolicy::FastFail), env: None }),
        },
    )];
    let config = Config { tasks: t, blocks, global_config: None };
    let (executed, _, result) = drive(run(config, Environment::new(Os::Linux)), failing);
    let names: Vec<&str> = executed.iter().map(|(c, _)| c.as_str()).collect();
    assert_eq!(names, vec!["failing_cmd", "echo next"]);
    assert_eq!(
        result,
        Err(RunnerError::Failures(vec![
            "Block 'inner' execution failed in parent 'Build': Parent 'inner' command failed: 'failing_cmd' (exit 1)"
                .to_string()
        ]))
    );
}

#[test]
fn shell_that_cannot_start_aborts() {
    let mut t = tasks();
    t.build = Some(linux(&["a", "b"], Some(ExecutionPolicy::CarryForward)));
    let config = Config { tasks: t, blocks: vec![], global_config: None };
    let (executed, _, result) =
        drive(run(config, Environment::new(Os::Linux)), |_| CommandOutcome::SpawnFailed("no shell".to_string()));
    assert_eq!(executed.len(), 1);
    assert_eq!(result, Err(RunnerError::Io("no shell".to_string())));
}

#[test]
fn missing_exit_code_and_negative_code_are_written_out() {
    let mut t = tasks();
    t.test = Some(linux(&["killed", "neg"], Some(ExecutionPolicy::CarryForward)));
    let config = Config { tasks: t, blocks: vec![], global_config: None };
    let (_, _, result) = drive(run(config, Environment::new(Os::Linux)), |cmd| {
        if cmd == "killed" {
            CommandOutcome::Exited { success: false, code: None, dump: None }
        } else {
            CommandOutcome::Exited { success: false, code: Some(-127), dump: None }
        }
    });
    assert_eq!(
        result,
        Err(RunnerError::Failures(vec![
            "Parent 'Test' command failed: 'killed' (exit none)".to_string(),
            "Parent 'Test' command failed: 'neg' (exit -127)".to_string(),
        ]))
    );
}

#[test]
fn run_block_reports_missing_block() {
    let config = Config { tasks: tasks(), blocks: vec![], global_config: None };
    match run_block("ghost", &config, &Environment::new(Os::Linux)) {
        Err(RunnerError::BlockNotFound(m)) => assert_eq!(m, "Block 'ghost' not found"),
        other => panic!("unexpected {:?}", other.map(|s| s.name)),
    }
}

#[test]
fn run_section_applies_platform_local_settings() {
    let mut t = tasks();
    t.deploy = Some(PlatformCommands {
        windows: None,
        linux: Some(Block {
            steps: steps(&["deploy.sh"]),
            local_config: Some(LocalConfig {
                execution_policy: Some(ExecutionPolicy::CarryForward),
                env: Some(vec![("TARGET".to_string(), "prod".to_string())]),
            }),
        }),
        macos: None,
    });
    let config = Config { tasks: t, blocks: vec![], global_config: None };
    let env = Environment::new(Os::Linux);
    let scope = run_section(Section::Deploy, &config, &env).expect("deploy runs");
    assert_eq!(scope.name, "Deploy");
    assert_eq!(scope.steps, vec!["deploy.sh".to_string()]);
    assert_eq!(scope.env.execution_policy, ExecutionPolicy::CarryForward);
    assert_eq!(lookup(&scope.env, "TARGET"), Some(("prod".to_string(), EnvVariableSource::Local)));
    assert!(run_section(Section::Build, &config, &env).is_none());
    let mac = Environment::new(Os::Macos);
    assert!(run_section(Section::Deploy, &config, &mac).is_none());
}

#[test]
fn section_names_and_keys() {
    assert_eq!(Section::PostDeploy.as_str(), "PostDeploy");
    assert_eq!(Section::map_section("predeploy"), "PreDeploy");
    assert_eq!(Section::map_section("nope"), "Unknown");
    assert_eq!(Section::get_section("Clean"), Section::Clean);
    assert_eq!(Section::for_key("test"), Some(Section::Test));
    let t = tasks();
    let names: Vec<&str> = t.ordered_sections().iter().map(|(n, _)| *n).collect();
    assert_eq!(names, vec!["PreBuild", "Build", "PostBuild", "Test", "PreDeploy", "Deploy", "PostDeploy", "Clean"]);
}

#[test]
fn shell_invocation_per_platform() {
    assert_eq!(shell_program(Os::Windows), "cmd");
    assert_eq!(shell_program(Os::Linux), "sh");
    assert_eq!(
        shell_args(Os::Linux, "make"),
        vec![
            "-c".to_string(),
            "make\n__zbuild_status=$?; env > .env.vars.zbuild; exit $__zbuild_status".to_string()
        ]
    );
    assert_eq!(
        shell_args(Os::Windows, "nmake"),
        vec![
            "/C".to_string(),
            "nmake && set > .env.vars.zbuild || (set > .env.vars.zbuild & exit 1)".to_string()
        ]
    );
    assert_eq!(capture_args(Os::Macos), vec!["-c".to_string(), "env > .env.vars.zbuild".to_string()]);
}

#[test]
fn global_settings_apply_policy_and_variables() {
    let config = Config {
        tasks: tasks(),
        blocks: vec![],
        global_config: Some(GlobalConfig {
            execution_policy: Some(ExecutionPolicy::CarryForward),
            env: Some(vec![("G".to_string(), "1".to_string())]),
            banned_sections: Some(vec!["clean".to_string(), "test".to_string()]),
        }),
    };
    let mut env = Environment::new(Os::Linux);
    env.upsert_variable("G".into(), "0".into(), EnvVariableSource::Passed);
    env.upsert_variable("H".into(), "0".into(), EnvVariableSource::Default);
    apply_global_config(&mut env, &config);
    assert_eq!(env.execution_policy, ExecutionPolicy::CarryForward);
    assert_eq!(lookup(&env, "G"), Some(("0".to_string(), EnvVariableSource::Passed)));
    assert_eq!(skipped_sections(&config), Ok(Some(vec![Section::Clean, Section::Test])));
    let bad = Config {
        tasks: tasks(),
        blocks: vec![],
        global_config: Some(GlobalConfig { execution_policy: None, env: None, banned_sections: Some(vec!["tests".to_string()]) }),
    };
    assert!(matches!(skipped_sections(&bad), Err(RunnerError::Constraints(_))));
}

#[test]
fn block_reference_is_a_single_unquoted_known_name() {
    let blocks = vec![("setup".to_string(), Block { steps: steps(&["echo"]), local_config: None })];
    let config = Config { tasks: tasks(), blocks, global_config: None };
    assert!(zmake_tasks_runner::runner::is_block_reference("setup", &config));
    assert!(!zmake_tasks_runner::runner::is_block_reference("setup now", &config));
    assert!(!zmake_tasks_runner::runner::is_block_reference("setup\tnow", &config));
    assert!(!zmake_tasks_runner::runner::is_block_reference("\"setup", &config));
    assert!(!zmake_tasks_runner::runner::is_block_reference("other", &config));
}

#[test]
fn fast_fail_section_under_carry_forward_run_is_recorded() {
    let mut t = tasks();
    t.build = Some(linux(&["failing_cmd", "never"], Some(ExecutionPolicy::FastFail)));
    t.test = Some(linux(&["ok_cmd"], None));
    let config = Config { tasks: t, blocks: vec![], global_config: None };
    let mut env = Environment::new(Os::Linux);
    env.execution_policy = ExecutionPolicy::CarryForward;
    let (executed, _, result) = drive(run(config, env), failing);
    let names: Vec<&str> = executed.iter().map(|(c, _)| c.as_str()).collect();
    assert_eq!(names, vec!["failing_cmd", "ok_cmd"]);
    assert_eq!(
        result,
        Err(RunnerError::Failures(vec!["Parent 'Build' command failed: 'failing_cmd' (exit 1)".to_string()]))
    );
}

#[test]
fn failing_command_dump_is_still_merged() {
    let mut t = tasks();
    t.build = Some(linux(&["set_then_fail", "next"], Some(ExecutionPolicy::CarryForward)));
    let config = Config { tasks: t, blocks: vec![], global_config: None };
    let (executed, _, result) = drive(run(config, Environment::new(Os::Linux)), |cmd| {
        if cmd == "set_then_fail" {
            CommandOutcome::Exited { success: false, code: Some(2), dump: Some("PARTIAL=yes\n".to_string()) }
        } else {
            ok()
        }
    });
    assert_eq!(lookup(&executed[1].1, "PARTIAL"), Some(("yes".to_string(), EnvVariableSource::Script)));
    assert!(matches!(result, Err(RunnerError::Failures(v)) if v.len() == 1));
}

#[test]
fn platform_override_forces_dry_run() {
    assert!(zmake_tasks_runner::runner::dry_run_for(Os::Linux, Os::Windows, false));
    assert!(!zmake_tasks_runner::runner::dry_run_for(Os::Linux, Os::Linux, false));
    assert!(zmake_tasks_runner::runner::dry_run_for(Os::Macos, Os::Macos, true));
}
