use lapse::env::config::{DefaultScheme, EnvConfig};
use lapse::env::hook::EventMap;
use lapse::map::OrderedMap;
use lapse::parsing::RequestToken;
use lapse::request::ParsedRequest;
use lapse::runner::eval::{evaluate, parse_document, parse_interpolated, DocumentToken, ParseErrorSummary};
use lapse::runner::session::{RequestRun, RunAction, RunError, RunEvent, Stage};
use lapse::runner::value::Value;
use lapse::runner::{render_document, LapseLuaApi, Response, RunnerResponse};
use lapse::Lapse;

#[test]
fn test_test_env_variable_display() {
    assert_eq!(Value::Null.to_string(), "null");
    assert_eq!(Value::Boolean(true).to_string(), "true");
    assert_eq!(Value::Integer(42).to_string(), "42");
    assert_eq!(Value::String("hi".to_owned()).to_string(), "hi");
}

#[test]
fn object_values_show_sorted_quoted_keys() {
    let mut fields = OrderedMap::new();
    fields.insert("b".to_string(), Value::String("x".into()));
    fields.insert("a".to_string(), Value::Integer(1));
    assert_eq!(Value::Object(fields).to_string(), "{\"a\":1,\"b\":x}");
}

#[test]
fn test_parses_interpolated() {
    assert_eq!(parse_interpolated("${Env.name}").unwrap(), "Env.name");
    assert_eq!(parse_interpolated("${ {a = 1} }").unwrap(), " {a = 1} ");
    assert!(parse_interpolated("${a} ").is_err());
    assert!(parse_interpolated("$a").is_err());
}

#[test]
fn test_parses_document() {
    let parsed = parse_document("name: ${name}").unwrap();
    assert_eq!(parsed[0], DocumentToken::String("name: ".to_owned()));
    assert_eq!(parsed[1], DocumentToken::Expr("name".to_owned()));
}

#[test]
fn test_recover_invalid_expr() {
    let parsed = parse_document("name: ${name");
    match parsed {
        Err(ParseErrorSummary::Syntax(errors)) => {
            assert_eq!(errors.len(), 1);
            assert_eq!(errors[0].span, 6..12);
        }
        Ok(_) => panic!("an unterminated expression must not parse"),
    }
    assert!(parse_document("price: $5").is_err());
}

#[test]
fn evaluates_a_document_with_values() {
    let values = vec!["John".to_string(), "{\"a\":1}".to_string()];
    assert_eq!(
        evaluate("name: ${env.name}, data: ${ {a = 1} }!", &values).unwrap(),
        "name: John, data: {\"a\":1}!"
    );
    let tokens = vec![
        RequestToken::String("a".into()),
        RequestToken::Expr("x".into()),
        RequestToken::Expr("y".into()),
    ];
    assert_eq!(
        render_document(&tokens, &vec!["1".to_string(), "2".to_string()]),
        "a12"
    );
}

#[test]
fn shows_a_response() {
    let mut headers = OrderedMap::new();
    headers.insert("content-type".to_string(), "text/plain".to_string());
    headers.insert("accept".to_string(), "*/*".to_string());
    let response = Response {
        text: "hello".into(),
        status: 200,
        headers,
        timestamp: 5,
        duration: 7,
    };
    assert_eq!(
        response.to_string(),
        "200\naccept: */*\ncontent-type: text/plain\n\nhello\n"
    );
    let bare = RunnerResponse {
        text: String::new(),
        status: 404,
        headers: OrderedMap::new(),
    };
    assert_eq!(bare.to_string(), "404\n\n\n");
}

#[test]
fn lua_api_keeps_its_space_and_settings() {
    let config = EnvConfig {
        default_scheme: DefaultScheme::Https,
    };
    let api = LapseLuaApi::new(Lapse::at("/tmp/x".into()), config);
    assert_eq!(api.lapse.path(), "/tmp/x");
    assert_eq!(api.config.default_scheme, DefaultScheme::Https);
}

fn hooks(pre: &[&str], post: &[&str]) -> EventMap<Vec<String>> {
    let mut m = EventMap::new();
    if !pre.is_empty() {
        m.pre_request = Some(pre.iter().map(|s| s.to_string()).collect());
    }
    if !post.is_empty() {
        m.post_request = Some(post.iter().map(|s| s.to_string()).collect());
    }
    m
}

#[test]
fn a_run_goes_through_hooks_evaluation_sending_and_timing() {
    let (mut run, action) = RequestRun::start(
        "GET example.com/${env.path}\naccept: ${env.accept}\n".to_string(),
        hooks(&["auth.lua"], &["log.lua"]),
        "https://".to_string(),
        1000,
    );
    assert!(matches!(action, RunAction::RunHook(ref h) if h == "auth.lua"));
    match run.step(RunEvent::HookDone) {
        RunAction::Evaluate(exprs) => assert_eq!(exprs, vec!["env.path", "env.accept"]),
        _ => panic!("expected the expressions to evaluate"),
    }
    let sent = run.step(RunEvent::Evaluated(vec!["items".into(), "*/*".into()]));
    match sent {
        RunAction::Send(ParsedRequest::Http(req)) => {
            assert_eq!(req.url, "https://example.com/items");
            assert_eq!(req.method, "GET");
            assert_eq!(req.headers.get("accept").unwrap(), "*/*");
        }
        _ => panic!("expected a plain request to send"),
    }
    let mut headers = OrderedMap::new();
    headers.insert("server".to_string(), "test".to_string());
    let after = run.step(RunEvent::Responded {
        status: 201,
        headers,
        text: "ok".into(),
    });
    assert!(matches!(after, RunAction::RunHook(ref h) if h == "log.lua"));
    assert!(matches!(run.step(RunEvent::HookDone), RunAction::Measure));
    match run.step(RunEvent::Elapsed(42)) {
        RunAction::Done(result) => {
            assert_eq!(result.status, 201);
            assert_eq!(result.text, "ok");
            assert_eq!(result.timestamp, 1000);
            assert_eq!(result.duration, 42);
            assert_eq!(result.resolved_request, "GET example.com/items\naccept: */*\n");
            assert_eq!(result.headers.get("server").unwrap(), "test");
        }
        _ => panic!("expected the result"),
    }
    assert_eq!(run.stage, Stage::Over);
}

#[test]
fn a_run_without_hooks_evaluates_at_once_and_sorts_graphql() {
    let (mut run, action) = RequestRun::start(
        "GRAPHQL https://api.example.com/graphql\n\n{ user { name } }".to_string(),
        EventMap::new(),
        "http://".to_string(),
        1,
    );
    match action {
        RunAction::Evaluate(exprs) => assert!(exprs.is_empty()),
        _ => panic!("expected evaluation"),
    }
    match run.step(RunEvent::Evaluated(vec![])) {
        RunAction::Send(ParsedRequest::GraphQL(q)) => {
            assert_eq!(q.url, "https://api.example.com/graphql");
            assert_eq!(q.query, "{ user { name } }");
            assert_eq!(
                q.body_json(),
                "{\"query\":\"{ user { name } }\",\"variables\":{}}"
            );
        }
        _ => panic!("expected a GraphQL request"),
    }
}

#[test]
fn a_run_fails_on_bad_documents_and_stray_events() {
    let (_, action) = RequestRun::start("GET ${oops".into(), EventMap::new(), "http://".into(), 0);
    assert!(matches!(action, RunAction::Fail(RunError::Syntax(_))));

    let (mut run, _) = RequestRun::start("GET /x".into(), EventMap::new(), "http://".into(), 0);
    assert!(matches!(
        run.step(RunEvent::HookDone),
        RunAction::Fail(RunError::OutOfOrder)
    ));
    assert_eq!(run.stage, Stage::Over);

    let (mut run, _) = RequestRun::start("${m}".into(), EventMap::new(), "http://".into(), 0);
    assert!(matches!(
        run.step(RunEvent::Evaluated(vec!["".into()])),
        RunAction::Fail(RunError::Request(_))
    ));

    let (mut run, _) = RequestRun::start("GET /${a}".into(), EventMap::new(), "http://".into(), 0);
    assert!(matches!(
        run.step(RunEvent::Evaluated(vec![])),
        RunAction::Fail(RunError::OutOfOrder)
    ));
}

#[test]
fn a_run_fails_on_documents_read_by_bytes_off_character_boundaries() {
    let (mut run, action) = RequestRun::start(
        "GET ${scheme}://example.com".to_string(),
        EventMap::new(),
        "http://".to_string(),
        0,
    );
    assert!(matches!(action, RunAction::Evaluate(_)));
    assert!(matches!(
        run.step(RunEvent::Evaluated(vec!["hé".into()])),
        RunAction::Fail(RunError::Unreadable)
    ));
    assert_eq!(run.resolved, "GET hé://example.com");
}

#[test]
fn numbers_are_displayed_in_positional_notation() {
    let shown = |t: &str| Value::Number(t.to_string()).to_string();
    assert_eq!(shown("1.0"), "1");
    assert_eq!(shown("1000.0"), "1000");
    assert_eq!(shown("1.5"), "1.5");
    assert_eq!(shown("0.1"), "0.1");
    assert_eq!(shown("1e21"), "1000000000000000000000");
    assert_eq!(shown("1.5e-7"), "0.00000015");
    assert_eq!(shown("-1.25e2"), "-125");
    assert_eq!(shown("123.456e1"), "1234.56");
    assert_eq!(shown("-0.0"), "-0");
    assert_eq!(shown("30"), "30");
    assert_eq!(shown("18446744073709551615"), "18446744073709551615");
    assert_eq!(shown("not a number"), "not a number");
    assert_eq!(Value::Number("1.0".to_string()).to_json(), "1.0");
}

#[test]
fn test_env_variable_display() {
    assert_eq!(Value::Null.to_string(), "null");
    assert_eq!(Value::Boolean(true).to_string(), "true");
    assert_eq!(Value::Integer(42).to_string(), "42");
    assert_eq!(Value::String("hi".to_owned()).to_string(), "hi");
}
