use zmake_tasks_runner::environment::{EnvVariableSource, Environment};
use zmake_tasks_runner::runner::Os;

fn lookup(env: &Environment, key: &str) -> Option<(String, EnvVariableSource)> {
    env.get_variables()
        .iter()
        .find(|(k, _)| k == key)
        .map(|(_, v)| (v.value.clone(), v.source))
}

#[test]
fn priorities_rank_sources() {
    assert_eq!(EnvVariableSource::Default.get_priority(), 1);
    assert_eq!(EnvVariableSource::Global.get_priority(), 2);
    assert_eq!(EnvVariableSource::Local.get_priority(), 3);
    assert_eq!(EnvVariableSource::Passed.get_priority(), 4);
    assert_eq!(EnvVariableSource::Script.get_priority(), 5);
}

#[test]
fn upsert_respects_priority() {
    let mut env = Environment::new(Os::Linux);
    assert!(env.upsert_variable("A".into(), "1".into(), EnvVariableSource::Local));
    assert!(!env.upsert_variable("A".into(), "2".into(), EnvVariableSource::Global));
    assert_eq!(lookup(&env, "A"), Some(("1".to_string(), EnvVariableSource::Local)));
    assert!(env.upsert_variable("A".into(), "3".into(), EnvVariableSource::Local));
    assert_eq!(lookup(&env, "A"), Some(("3".to_string(), EnvVariableSource::Local)));
    assert!(!env.upsert_variable("A".into(), "3".into(), EnvVariableSource::Local));
    assert!(env.upsert_variable("A".into(), "3".into(), EnvVariableSource::Script));
    assert_eq!(lookup(&env, "A"), Some(("3".to_string(), EnvVariableSource::Script)));
    assert_eq!(env.get_variables().len(), 1);
}

#[test]
fn same_key_keeps_last_highest_priority_write() {
    let mut env = Environment::new(Os::Linux);
    env.upsert_variable("K".into(), "a".into(), EnvVariableSource::Global);
    env.upsert_variable("K".into(), "b".into(), EnvVariableSource::Passed);
    env.upsert_variable("K".into(), "c".into(), EnvVariableSource::Local);
    env.upsert_variable("K".into(), "d".into(), EnvVariableSource::Passed);
    env.upsert_variable("K".into(), "e".into(), EnvVariableSource::Default);
    assert_eq!(lookup(&env, "K"), Some(("d".to_string(), EnvVariableSource::Passed)));
}

#[test]
fn writes_to_different_keys_commute() {
    let mut a = Environment::new(Os::Linux);
    a.upsert_variable("X".into(), "1".into(), EnvVariableSource::Global);
    a.upsert_variable("Y".into(), "2".into(), EnvVariableSource::Script);
    a.upsert_variable("X".into(), "3".into(), EnvVariableSource::Passed);
    let mut b = Environment::new(Os::Linux);
    b.upsert_variable("X".into(), "1".into(), EnvVariableSource::Global);
    b.upsert_variable("X".into(), "3".into(), EnvVariableSource::Passed);
    b.upsert_variable("Y".into(), "2".into(), EnvVariableSource::Script);
    assert_eq!(lookup(&a, "X"), lookup(&b, "X"));
    assert_eq!(lookup(&a, "Y"), lookup(&b, "Y"));
    assert_eq!(lookup(&a, "X"), Some(("3".to_string(), EnvVariableSource::Passed)));
}

#[test]
fn merge_into_itself_changes_nothing() {
    let mut a = Environment::new(Os::Linux);
    a.upsert_variable("P".into(), "1".into(), EnvVariableSource::Default);
    a.upsert_variable("Q".into(), "2".into(), EnvVariableSource::Script);
    let copy = a.snapshot();
    a.merge_env(copy);
    assert_eq!(a.get_variables().len(), 2);
    assert_eq!(lookup(&a, "P"), Some(("1".to_string(), EnvVariableSource::Default)));
    assert_eq!(lookup(&a, "Q"), Some(("2".to_string(), EnvVariableSource::Script)));
}

#[test]
fn merge_takes_higher_or_equal_priority_entries() {
    let mut a = Environment::new(Os::Linux);
    a.upsert_variable("P".into(), "low".into(), EnvVariableSource::Default);
    a.upsert_variable("Q".into(), "high".into(), EnvVariableSource::Script);
    let mut b = Environment::new(Os::Linux);
    b.upsert_variable("P".into(), "new".into(), EnvVariableSource::Local);
    b.upsert_variable("Q".into(), "lower".into(), EnvVariableSource::Passed);
    b.upsert_variable("R".into(), "fresh".into(), EnvVariableSource::Global);
    a.merge_env(b);
    assert_eq!(lookup(&a, "P"), Some(("new".to_string(), EnvVariableSource::Local)));
    assert_eq!(lookup(&a, "Q"), Some(("high".to_string(), EnvVariableSource::Script)));
    assert_eq!(lookup(&a, "R"), Some(("fresh".to_string(), EnvVariableSource::Global)));
}

#[test]
fn load_parses_trimmed_lines_and_skips_lines_without_equals() {
    let mut env = Environment::new(Os::Linux);
    env.load_env(
        "A=1\n  B = 2 \n\nno equals here\nC=x=y\r\nD=\n=E\n".to_string(),
        EnvVariableSource::Passed,
    );
    assert_eq!(lookup(&env, "A"), Some(("1".to_string(), EnvVariableSource::Passed)));
    assert_eq!(lookup(&env, "B "), Some((" 2".to_string(), EnvVariableSource::Passed)));
    assert_eq!(lookup(&env, "C"), Some(("x=y".to_string(), EnvVariableSource::Passed)));
    assert_eq!(lookup(&env, "D"), Some(("".to_string(), EnvVariableSource::Passed)));
    assert_eq!(lookup(&env, ""), Some(("E".to_string(), EnvVariableSource::Passed)));
    assert_eq!(env.get_variables().len(), 5);
}

#[test]
fn load_of_empty_text_adds_nothing() {
    let mut env = Environment::new(Os::Linux);
    env.load_env(String::new(), EnvVariableSource::Script);
    assert_eq!(env.get_variables().len(), 0);
}

#[test]
fn dump_writes_key_value_lines_in_order() {
    let mut env = Environment::new(Os::Linux);
    env.upsert_variable("B".into(), "2".into(), EnvVariableSource::Global);
    env.upsert_variable("A".into(), "x=1".into(), EnvVariableSource::Script);
    assert_eq!(env.dump_variables(), "B=2\nA=x=1\n");
}

#[test]
fn dump_round_trip_reproduces_the_store() {
    let dump = "PATH=/usr/bin:/bin\n HOME=/root\nX= spaced\nX=again\nEMPTY=\nW =v=w\r\nnoise\n";
    let mut first = Environment::new(Os::Linux);
    first.load_env(dump.to_string(), EnvVariableSource::Script);
    let text = first.dump_variables();
    let mut second = Environment::new(Os::Linux);
    second.load_env(text, EnvVariableSource::Script);
    assert_eq!(first.get_variables().len(), second.get_variables().len());
    for (k, v) in first.get_variables() {
        assert_eq!(lookup(&second, k), Some((v.value.clone(), v.source)));
    }
    assert_eq!(lookup(&first, "X"), Some(("again".to_string(), EnvVariableSource::Script)));
}

#[test]
fn env_file_skips_comment_lines() {
    let mut env = Environment::new(Os::Linux);
    env.load_env_file("# a comment=1\nA=1\n   #B=2\nC=#3\n".to_string());
    assert_eq!(env.get_variables().len(), 2);
    assert_eq!(lookup(&env, "A"), Some(("1".to_string(), EnvVariableSource::Passed)));
    assert_eq!(lookup(&env, "C"), Some(("#3".to_string(), EnvVariableSource::Passed)));
    assert_eq!(lookup(&env, "#B"), None);
}

#[test]
fn nul_separated_dump_keeps_last_value_per_name() {
    let table = zmake_tasks_runner::environment::parse_env_dump("A=1\0\0B=x=y\0junk\0A=2\0");
    let pairs: Vec<(String, String)> =
        table.as_vec().iter().map(|(k, v)| (k.clone(), v.value.clone())).collect();
    assert_eq!(pairs, vec![("A".to_string(), "2".to_string()), ("B".to_string(), "x=y".to_string())]);
    assert!(table.as_vec().iter().all(|(_, v)| v.source == EnvVariableSource::Default));
}
