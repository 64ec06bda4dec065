use zmake_tasks_runner::config_model::{Block, Config, Tasks};
use zmake_tasks_runner::error::RunnerError;
use zmake_tasks_runner::parser::{parse_kv, parse_yaml, validate_config};

fn empty_tasks() -> Tasks {
    Tasks {
        prebuild: None,
        build: None,
        postbuild: None,
        test: None,
        predeploy: None,
        deploy: None,
        postdeploy: None,
        clean: None,
    }
}

fn config_with_block(name: &str) -> Config {
    Config {
        tasks: empty_tasks(),
        blocks: vec![(name.to_string(), Block { steps: Some(vec!["echo hi".to_string()]), local_config: None })],
        global_config: None,
    }
}

#[test]
fn parse_kv_splits_at_first_equals() {
    assert_eq!(parse_kv("A=b=c"), Ok(("A".to_string(), "b=c".to_string())));
    assert_eq!(parse_kv("K="), Ok(("K".to_string(), String::new())));
}

#[test]
fn parse_kv_rejects_missing_equals() {
    assert_eq!(parse_kv("nothing"), Err("expected KEY=VALUE".to_string()));
}

#[test]
fn parse_kv_rejects_empty_key() {
    assert_eq!(parse_kv("=value"), Err("key cannot be empty".to_string()));
}

#[test]
fn block_named_like_a_section_is_rejected() {
    let r = validate_config(&config_with_block("build"));
    assert_eq!(
        r,
        Err(RunnerError::Constraints("Block name 'build' conflicts with reserved section name".to_string()))
    );
}

#[test]
fn block_named_like_a_platform_is_rejected() {
    let r = parse_yaml(Ok(config_with_block("windows")));
    match r {
        Err(RunnerError::Constraints(m)) => {
            assert_eq!(m, "Block name 'windows' conflicts with reserved operating system name")
        }
        other => panic!("unexpected {:?}", other),
    }
}

#[test]
fn ordinary_block_names_pass() {
    assert_eq!(validate_config(&config_with_block("setup")), Ok(()));
    let cfg = parse_yaml(Ok(config_with_block("Build"))).expect("valid");
    assert_eq!(cfg.blocks.len(), 1);
}

#[test]
fn load_failure_becomes_parse_error() {
    let r = parse_yaml(Err("bad indentation".to_string()));
    match r {
        Err(RunnerError::Yaml(m)) => assert_eq!(m, "failed to parse YAML config: bad indentation"),
        other => panic!("unexpected {:?}", other),
    }
}
