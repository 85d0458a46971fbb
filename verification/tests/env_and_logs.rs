use lapse::log::sorted_names;
use lapse::Lapse;
use lapse::env::config::{DefaultScheme, EnvConfig};
use lapse::env::error::EnvError;
use lapse::env::hook::{Event, EventMap, HookEntry};
use lapse::env::{Env, env_chain_names, merge_envs};
use lapse::log::ResponseLog;
use lapse::map::OrderedMap;
use lapse::runner::ExecutionResult;
use lapse::runner::value::Value;
use lapse::space::OpenStep;

fn env_with(vars: Vec<(&str, Value)>) -> Env {
    let mut env = Env::default();
    for (k, v) in vars {
        env.variables.insert(k.to_string(), v);
    }
    env
}

// The environment "default/auth" is read from the base environment, "default" and
// "default/auth", in that order.
#[test]
fn test_env_inheritance() {
    let base = Env::default();
    let mut child = Env::default();
    let mut parent = Env::default();

    child.variables.insert("auth".into(), true.into());
    parent.variables.insert("auth".into(), false.into());
    parent
        .variables
        .insert("name".into(), Value::String("John Doe".into()));

    assert_eq!(env_chain_names("default/auth"), vec!["", "default", "default/auth"]);
    let child = merge_envs(vec![base, parent, child]);

    let found_auth = child.variables.get("auth").unwrap();
    assert_eq!(found_auth, &true.into());

    let found_name = child.variables.get("name").unwrap();
    assert_eq!(found_name, &Value::String("John Doe".into()));
}

fn example_env() -> Env {
    let mut ex_env = Env::default();
    ex_env
        .variables
        .insert("name".to_string(), Value::String("John".to_string()));
    ex_env.hooks.insert(
        Event::PreRequest,
        HookEntry {
            enabled: true,
            scripts: vec![],
        },
    );
    ex_env
}

// The environment "env" is read from the base environment and "env".
#[test]
fn test_read_env() {
    let base_env = Env::default();
    let found_env = merge_envs(vec![Env::default(), example_env()]);
    assert_eq!(base_env.add(example_env()), found_env);
}

#[test]
fn adding_envs_prefers_the_right_one() {
    let mut left = env_with(vec![("a", Value::Integer(1)), ("b", Value::Integer(2))]);
    left.secrets.insert("s".into(), Value::String("old".into()));
    left.hooks.insert(
        Event::PreRequest,
        HookEntry {
            enabled: true,
            scripts: vec!["one.lua".into()],
        },
    );
    let mut right = env_with(vec![("b", Value::Integer(3))]);
    right.secrets.insert("s".into(), Value::String("new".into()));
    right.config = EnvConfig {
        default_scheme: DefaultScheme::Https,
    };

    let sum = left.add(right);

    assert_eq!(sum.variables.get("a"), Some(&Value::Integer(1)));
    assert_eq!(sum.variables.get("b"), Some(&Value::Integer(3)));
    assert_eq!(sum.secrets.get("s"), Some(&Value::String("new".into())));
    assert!(sum.hooks.get(Event::PreRequest).is_some());
    assert_eq!(sum.config.default_scheme, DefaultScheme::Https);
}

#[test]
fn merging_nothing_gives_the_empty_env() {
    let env = merge_envs(vec![]);
    assert!(env.variables.is_empty());
    assert_eq!(env.config.default_scheme, DefaultScheme::Http);
}

#[test]
fn env_chain_lists_ancestors_outermost_first() {
    assert_eq!(env_chain_names("prod"), vec!["", "prod"]);
    assert_eq!(
        env_chain_names("default/auth/admin"),
        vec!["", "default", "default/auth", "default/auth/admin"]
    );
    assert_eq!(env_chain_names(""), vec!["", ""]);
    assert_eq!(env_chain_names("a/"), vec!["", "a", "a/"]);
}

#[test]
fn default_scheme_texts() {
    assert_eq!(DefaultScheme::default(), DefaultScheme::Http);
    assert_eq!(DefaultScheme::Https.to_string(), "https://");
    assert_eq!(DefaultScheme::Http.to_string(), "http://");
    assert_eq!(EnvConfig::default().default_scheme, DefaultScheme::Http);
}

// Switching gives the state entry to store, or fails for an environment that does
// not exist ("dev" was never created).
#[test]
fn test_switch_env() {
    let lapse = Lapse::at("/tmp/space".to_string());
    let mut state = OrderedMap::new();
    let (key, stored) = lapse.switch_env("prod", true).unwrap();
    state.insert(key, stored);
    assert_eq!(lapse.current_env(&state), Some("prod".to_string()));
    lapse.switch_env("dev", false).unwrap_err();
}

#[test]
fn switching_env_needs_an_existing_env() {
    let lapse = Lapse::at("/tmp/space".to_string());
    let (key, value) = lapse.switch_env("prod", true).unwrap();
    assert_eq!(key, "env");
    assert_eq!(value, "prod");
    match lapse.switch_env("dev", false) {
        Err(EnvError::NonExistentEnv(name)) => assert_eq!(name, "dev"),
        _ => panic!("switching to a missing env must fail"),
    }
    let mut state = OrderedMap::new();
    assert_eq!(lapse.current_env(&state), None);
    state.insert("other".to_string(), "x".to_string());
    assert_eq!(lapse.current_env(&state), None);
    state.insert("env".to_string(), "prod".to_string());
    assert_eq!(lapse.current_env(&state), Some("prod".to_string()));
}

#[test]
fn only_enabled_hooks_run() {
    let lapse = Lapse::at("/tmp/space".to_string());
    let mut env = Env::default();
    env.hooks.insert(
        Event::PreRequest,
        HookEntry {
            enabled: true,
            scripts: vec!["auth.lua".into()],
        },
    );
    env.hooks.insert(
        Event::PostRequest,
        HookEntry {
            enabled: false,
            scripts: vec!["log.lua".into()],
        },
    );
    let hooks = lapse.get_hooks_scripts(env);
    assert_eq!(hooks.get(Event::PreRequest), Some(&vec!["auth.lua".to_string()]));
    assert_eq!(hooks.get(Event::PostRequest), None);
    let empty: EventMap<Vec<String>> = EventMap::new();
    assert!(empty.get(Event::PreRequest).is_none());
}

#[test]
fn opening_a_space_climbs_to_the_marked_directory() {
    match Lapse::open("/a/b".into(), false, Some("/a".into())) {
        OpenStep::Climb(p) => assert_eq!(p, "/a"),
        _ => panic!("expected to climb"),
    }
    match Lapse::open("/a".into(), true, Some("/".into())) {
        OpenStep::Found(l) => assert_eq!(l.path(), "/a"),
        _ => panic!("expected to find the space"),
    }
    assert!(matches!(Lapse::open("/".into(), false, None), OpenStep::NotFound));
}

fn log_at(timestamp: u128, status: u16, text: &str) -> ResponseLog {
    ResponseLog {
        request: Some("testing".to_string()),
        result: ExecutionResult {
            status,
            text: text.to_string(),
            timestamp,
            ..Default::default()
        },
    }
}

#[test]
fn log_file_is_named_by_its_timestamp() {
    assert_eq!(log_at(1, 200, "{}").file_name(), "1");
    assert_eq!(
        log_at(1717171717123456789, 201, "second").file_name(),
        "1717171717123456789"
    );
}

// The log files of the two saved logs, listed in the order the directory gives.
#[test]
fn test_retrieve_log() {
    let lapse = Lapse::at("/tmp/space".to_string());
    let first_entry = log_at(1, 200, "{}");
    let last_entry = log_at(2, 201, "second");
    let names = vec![last_entry.file_name(), first_entry.file_name()];

    let mut entries = lapse.logs_iter(names).into_parsed();

    assert_eq!(entries.next_name().unwrap(), last_entry.file_name());
    assert_eq!(entries.next_name().unwrap(), first_entry.file_name());
}

#[test]
fn logs_come_back_newest_first_each_once() {
    let lapse = Lapse::at("/tmp/space".to_string());
    let first = log_at(1, 200, "{}");
    let last = log_at(2, 201, "second");
    let names = vec![
        first.file_name(),
        last.file_name(),
        first.file_name(),
    ];
    let mut entries = lapse.logs_iter(names).into_parsed();
    assert_eq!(entries.next_name(), Some("2".to_string()));
    assert_eq!(entries.next_name(), Some("1".to_string()));
    assert_eq!(entries.next_name(), None);
    assert_eq!(entries.lapse().path(), "/tmp/space");
}

#[test]
fn variables_map_is_empty_by_default() {
    let m: OrderedMap<Value> = OrderedMap::new();
    assert!(m.is_empty());
}

#[test]
fn test_parse_asset_env_json() {
    let content = "{\n  \"name\": \"John\"\n}\n";

    let parsed = lapse::env::values_from_json(content);

    assert_eq!(parsed.get("name").unwrap(), &Value::String("John".into()));
}

#[test]
fn variables_files_that_are_not_objects_of_values_hold_nothing() {
    let parsed = lapse::env::values_from_json("{\"n\": 1, \"f\": 1.5, \"o\": {\"x\": null}}");
    assert_eq!(parsed.get("n"), Some(&Value::Integer(1)));
    assert_eq!(parsed.get("f"), Some(&Value::Number("1.5".into())));
    assert!(matches!(parsed.get("o"), Some(Value::Object(_))));
    assert!(lapse::env::values_from_json("").is_empty());
    assert!(lapse::env::values_from_json("[1, 2]").is_empty());
    assert!(lapse::env::values_from_json("{\"a\": [1]}").is_empty());
    assert!(lapse::env::values_from_json("\"text\"").is_empty());
}

#[test]
fn directory_names_are_listed_once_in_rising_order() {
    let names = vec!["b.md".to_string(), "a".to_string(), "b.md".to_string(), "C".to_string()];
    assert_eq!(sorted_names(names), vec!["C", "a", "b.md"]);
}

#[test]
fn later_logs_of_as_many_digits_come_first() {
    let lapse = Lapse::at("/tmp/space".to_string());
    let earlier = log_at(1717171717000000999, 200, "a");
    let later = log_at(1717171717000001000, 200, "b");
    let names = vec![earlier.file_name(), later.file_name()];
    let mut entries = lapse.logs_iter(names).into_parsed();
    assert_eq!(entries.next_name(), Some(later.file_name()));
    assert_eq!(entries.next_name(), Some(earlier.file_name()));
}

#[test]
fn switching_then_reading_the_state_gives_the_environment() {
    let lapse = Lapse::at("/tmp/space".to_string());
    let mut state = OrderedMap::new();
    state.insert("env".to_string(), "dev".to_string());
    let (key, value) = lapse.switch_env("prod", true).unwrap();
    state.insert(key, value);
    assert_eq!(lapse.current_env(&state), Some("prod".to_string()));
}
