use lapse::cli::{method_color, status_color, ColorName, DetailedLogEntry, InlineLogEntry};
use lapse::config::Config;
use lapse::log::ResponseLog;
use lapse::map::OrderedMap;
use lapse::request::collection::{output_tree, resource_name, tree_flat_list, RequestsCollectionEntry};
use lapse::cli::{select_candidates, select_entry, Selection, Style};
use lapse::request::error::RequestError;
use lapse::request::parsing::inline_body::InlineBodyParamParser;
use lapse::request::parsing::readable::readable;
use lapse::request::{GraphQLRequest, HttpRequest, MultipartRequest, MultipartRequestValue, ParsedRequest};
use lapse::runner::value::Value;
use lapse::runner::ExecutionResult;

#[test]
fn inline_body_test_parses_inline_body_param() {
    let src = "name=John";
    let mut parser = InlineBodyParamParser::new(src);
    let (key, val) = parser.parse();
    assert_eq!(key, "name");
    assert_eq!(val, Value::String("John".into()));
}

#[test]
fn test_parses_inline_number() {
    let src = "age:32";
    let mut parser = InlineBodyParamParser::new(src);
    let (key, val) = parser.parse();

    assert_eq!(key, "age");
    match val {
        Value::Number(text) => assert_eq!(text.parse::<f64>().unwrap(), 32.0),
        other => panic!("expected a number, got {other:?}"),
    }
}

#[test]
fn inline_body_value_may_hold_separators() {
    let (key, val) = InlineBodyParamParser::new("q=a=b:c").parse();
    assert_eq!(key, "q");
    assert_eq!(val, Value::String("a=b:c".into()));
}

#[test]
fn colors_of_statuses_and_methods() {
    assert_eq!(status_color(200), ColorName::Green);
    assert_eq!(status_color(204), ColorName::Green);
    assert_eq!(status_color(404), ColorName::Red);
    assert_eq!(status_color(302), ColorName::Blue);
    assert_eq!(method_color("GET"), ColorName::Green);
    assert_eq!(method_color("DELETE"), ColorName::Red);
    assert_eq!(method_color("POST"), ColorName::Blue);
    assert_eq!(method_color("PUT"), ColorName::Yellow);
    assert_eq!(method_color("PATCH"), ColorName::Yellow);
    assert_eq!(method_color("get"), ColorName::White);
}

fn log_with(resolved: &str, duration: u128, status: u16) -> ResponseLog {
    ResponseLog {
        request: Some("req".into()),
        result: ExecutionResult {
            resolved_request: resolved.into(),
            duration,
            status,
            ..Default::default()
        },
    }
}

#[test]
fn log_entries_show_head_duration_and_status() {
    let inline = InlineLogEntry(log_with("GET https://x.io/a b\naccept: */*", 0, 200));
    assert_eq!(
        inline.head(),
        Some(("GET".to_string(), "https://x.io/a b".to_string()))
    );
    assert_eq!(InlineLogEntry(log_with("nospace", 0, 200)).head(), None);
    assert_eq!(InlineLogEntry(log_with("", 0, 200)).head(), None);
    let detailed = DetailedLogEntry(log_with("GET /", 12_345_678, 500));
    assert_eq!(detailed.duration_millis(), 12);
    assert_eq!(detailed.status_color(), ColorName::Red);
}

#[test]
fn config_stores_and_finds_settings() {
    let mut config = Config::default();
    assert_eq!(config.editor(), None);
    config.insert("editor".into(), "vim".into());
    config.insert("editor".into(), "nano".into());
    assert_eq!(config.get("editor"), Some(&"nano".to_string()));
    assert_eq!(config.editor(), Some("nano".to_string()));
    assert_eq!(config.get("other"), None);
}

#[test]
fn collection_entries_are_named() {
    let leaf = RequestsCollectionEntry::Request("users/list".into());
    let dir = RequestsCollectionEntry::Collection("users".into(), Box::new(vec![leaf]));
    assert_eq!(dir.name(), "users");
    match dir {
        RequestsCollectionEntry::Collection(_, inner) => assert_eq!(inner[0].name(), "users/list"),
        _ => unreachable!(),
    }
}

fn request(method: &str, headers: Vec<(&str, &str)>) -> HttpRequest {
    let mut h = OrderedMap::new();
    for (k, v) in headers {
        h.insert(k.to_string(), v.to_string());
    }
    let mut form = OrderedMap::new();
    form.insert("f".to_string(), MultipartRequestValue::Text("t".into()));
    HttpRequest {
        url: "https://x.io".into(),
        method: method.into(),
        headers: h,
        body: "b".into(),
        form,
    }
}

#[test]
fn header_maps_keep_names_in_lower_case() {
    let req = request("GET", vec![("Content-Type", "text/plain"), ("x-id", "1")]);
    let map = req.headers().unwrap();
    assert_eq!(map.len(), 2);
    assert_eq!(map.get("content-type").unwrap(), "text/plain");
    assert!(matches!(
        request("GET", vec![("bad name", "v")]).headers(),
        Err(RequestError::ParseHeader)
    ));
    assert!(matches!(
        request("GET", vec![("ok", "bad\u{7f}")]).headers(),
        Err(RequestError::ParseHeader)
    ));
    let multipart = MultipartRequest {
        url: "u".into(),
        headers: request("GET", vec![("A", "é")]).headers,
        body: OrderedMap::new(),
    };
    assert_eq!(multipart.headers().unwrap().get("a").unwrap().as_bytes(), "é".as_bytes());
}

#[test]
fn requests_are_sorted_by_method() {
    match ParsedRequest::from_request(request("MULTIPART", vec![])) {
        ParsedRequest::Multipart(m) => {
            assert_eq!(m.body.get("f"), Some(&MultipartRequestValue::Text("t".into())))
        }
        _ => panic!("expected multipart"),
    }
    match ParsedRequest::from_request(request("GRAPHQL", vec![])) {
        ParsedRequest::GraphQL(g) => assert_eq!(g.query, "b"),
        _ => panic!("expected graphql"),
    }
    assert!(matches!(
        ParsedRequest::from_request(request("PATCH", vec![])),
        ParsedRequest::Http(_)
    ));
    let g = GraphQLRequest {
        url: "u".into(),
        query: "say \"hi\"\n".into(),
        headers: OrderedMap::new(),
    };
    assert_eq!(
        g.body_json(),
        "{\"query\":\"say \\\"hi\\\"\\n\",\"variables\":{}}"
    );
}

#[test]
fn readability_of_documents() {
    assert!(readable("GET https://example.com/é"));
    assert!(!readable("GET hé://example.com"));
    assert!(readable("MULTIPART https://x\n\nname: \"plain\""));
    assert!(!readable("MULTIPART https://x\n\nname: \"é\""));
    assert!(readable(""));
}

fn sample_tree() -> Vec<RequestsCollectionEntry> {
    vec![
        RequestsCollectionEntry::Collection(
            "users".into(),
            Box::new(vec![
                RequestsCollectionEntry::Request("users/list".into()),
                RequestsCollectionEntry::Collection(
                    "admin".into(),
                    Box::new(vec![RequestsCollectionEntry::Request("users/admin/get".into())]),
                ),
            ]),
        ),
        RequestsCollectionEntry::Request("health".into()),
    ]
}

#[test]
fn trees_are_listed_with_one_space_per_level() {
    assert_eq!(
        output_tree(0, &sample_tree(), true, true),
        vec!["users", " users/list", " admin", "  users/admin/get", "health"]
    );
    assert_eq!(
        output_tree(1, &sample_tree(), false, true),
        vec![" users", "  admin"]
    );
    assert_eq!(
        output_tree(0, &sample_tree(), true, false),
        vec![" users/list", "  users/admin/get", "health"]
    );
}

#[test]
fn trees_flatten_to_candidates() {
    assert_eq!(
        tree_flat_list(&sample_tree(), true, false),
        vec!["users/list", "users/admin/get", "health"]
    );
    assert_eq!(
        tree_flat_list(&sample_tree(), false, true),
        vec!["users", "users/admin"]
    );
}

#[test]
fn selection_asks_only_among_several() {
    assert_eq!(select_entry(vec![]), Selection::NoMatch);
    assert_eq!(select_entry(vec!["a".into()]), Selection::Chosen("a".into()));
    assert_eq!(
        select_entry(vec!["a".into(), "b".into()]),
        Selection::Ask(vec!["a".into(), "b".into()])
    );
}

#[test]
fn detailed_entries_lay_out_labelled_lines() {
    let mut log = log_with("GET /", 2_500_000, 201);
    log.result.headers.insert("b".into(), "2".into());
    log.result.headers.insert("a".into(), "1".into());
    log.result.text = "done".into();
    let segments = DetailedLogEntry(log).segments("01-01-2024 10:00:00");
    let text: String = segments.iter().map(|(t, _)| t.as_str()).collect();
    assert_eq!(
        text,
        "Request req\nDate: 01-01-2024 10:00:00\nDuration: 2ms\nStatus: 201\n\nHeaders\n\na: 1\nb: 2\n\ndone\n"
    );
    assert_eq!(segments[0], ("Request".to_string(), Style::Black));
    assert_eq!(segments[15], ("201".to_string(), Style::Paint(ColorName::Green)));
    assert_eq!(segments[19], ("a".to_string(), Style::BrightBlack));
}

#[test]
fn fuzzy_queries_narrow_the_candidates() {
    let names = vec![
        "users/list".to_string(),
        "users/create".to_string(),
        "posts/list".to_string(),
    ];
    assert_eq!(select_candidates(names.clone(), None), Selection::Ask(names.clone()));
    assert_eq!(
        select_candidates(names.clone(), Some("usli".to_string())),
        Selection::Chosen("users/list".to_string())
    );
    assert_eq!(
        select_candidates(names.clone(), Some("qqq".to_string())),
        Selection::NoMatch
    );
    match select_candidates(names.clone(), Some("list".to_string())) {
        Selection::Ask(options) => {
            assert_eq!(options.len(), 2);
            assert!(options.contains(&"users/list".to_string()));
            assert!(options.contains(&"posts/list".to_string()));
        }
        other => panic!("expected a question, got {other:?}"),
    }
}

#[test]
fn graphql_bodies_escape_control_characters() {
    let g = GraphQLRequest {
        url: "u".into(),
        query: "a\\b\t\r\u{8}\u{c}\u{1}\u{1f}é".into(),
        headers: OrderedMap::new(),
    };
    assert_eq!(
        g.body_json(),
        "{\"query\":\"a\\\\b\\t\\r\\b\\f\\u0001\\u001fé\",\"variables\":{}}"
    );
}

#[test]
fn header_maps_report_refused_pairs_first() {
    let req = request("GET", vec![("a", "1"), ("b c", "2")]);
    assert!(matches!(req.headers(), Err(RequestError::ParseHeader)));
    let empty = request("GET", vec![]);
    assert!(empty.headers().unwrap().is_empty());
}

#[test]
fn resource_names_drop_the_file_extension() {
    assert_eq!(resource_name("users/list.md"), "users/list");
    assert_eq!(resource_name("health.http.md"), "health.http");
    assert_eq!(resource_name("users/.hidden"), "users/.hidden");
    assert_eq!(resource_name("v1.0/readme"), "v1.0/readme");
    assert_eq!(resource_name("plain"), "plain");
}
