use lapse::request::MultipartRequestValue;
use lapse::request::error::RequestError;
use lapse::request::parsing::inline::body::{InlineItemKind, InlineParamParser, InlineValue};
use lapse::request::parsing::inline::{InlineRequest, InlineRequestParser};
use lapse::request::parsing::parse_request_http;
use lapse::request::parsing::url::UrlParser;
use lapse::runner::value::Value;

// The request part of the sample multipart request document.
const MULTIPART_DOCUMENT: &str = "MULTIPART https://example.com/comments\ncontent-type: multipart/form-data\n\nname: \"${env.name}\"\nex-file: @./env.json\n---\n# Multipart\n";

// The request part of the sample request document.
const SAMPLE_DOCUMENT: &str = "POST https://example.com/comments\ncontent-type: application/json\n\n{\n  \"name\": \"sample\"\n}\n---\n# Sample\n";

#[test]
fn test_parses_multipart_req() {
    let http_portion = MULTIPART_DOCUMENT.split_once("---").unwrap().0;
    let req = parse_request_http(http_portion, "https://").unwrap();

    assert_eq!(req.url, "https://example.com/comments");
    let found_content_type = req.headers.get("content-type").unwrap();
    assert_eq!(found_content_type, "multipart/form-data");

    let found_text_field = req.form.get("name").unwrap();
    let found_file_field = req.form.get("ex-file").unwrap();

    assert_eq!(
        found_text_field,
        &MultipartRequestValue::Text("${env.name}".to_owned())
    );
    assert_eq!(
        found_file_field,
        &MultipartRequestValue::File("./env.json".to_owned())
    );
}

#[test]
fn uses_inline_body_for_multipart_when_no_raw_body() {
    let req = parse_request_http(
        "MULTIPART https://example.com/comments name@=John ex-file@@./env.json",
        "https://",
    )
    .unwrap();

    assert_eq!(req.url, "https://example.com/comments");

    let found_text_field = req.form.get("name").unwrap();
    let found_file_field = req.form.get("ex-file").unwrap();

    assert_eq!(found_text_field, &MultipartRequestValue::Text("John".to_owned()));
    assert_eq!(found_file_field, &MultipartRequestValue::File("./env.json".to_owned()));
}

#[test]
fn parses_url_without_scheme() {
    let mut parser = UrlParser::new("localhost:3000", "http://");
    let parsed = parser.parse();
    assert_eq!(parsed, "http://localhost:3000");
}

#[test]
fn keeps_url_with_scheme() {
    let mut parser = UrlParser::new("https://example.com/a", "http://");
    assert_eq!(parser.parse(), "https://example.com/a");
}

#[test]
fn test_test_parses_sample_request() {
    let file_http = SAMPLE_DOCUMENT.split_once("---").unwrap().0;

    let request = parse_request_http(file_http, "https://").unwrap();
    assert_eq!(request.method, "POST");
    assert_eq!(request.url, "https://example.com/comments");
    assert_eq!(request.headers.get("content-type").unwrap(), "application/json");
    assert_eq!(request.body.trim(), "{\n  \"name\": \"sample\"\n}");
}

#[test]
fn test_test_parses_request_without_body() {
    let request = parse_request_http(
        "GET https://example.com/comments\ncontent-type: application/json\n",
        "https://",
    )
    .unwrap();

    assert_eq!(request.method, "GET");
    assert_eq!(request.url, "https://example.com/comments");
    assert_eq!(request.headers.get("content-type").unwrap(), "application/json");
    assert!(request.body.is_empty());
}

#[test]
fn test_test_parses_request_without_headers_or_body() {
    let request = parse_request_http("DELETE https://example.com/comments\n", "https://").unwrap();

    assert_eq!(request.method, "DELETE");
    assert_eq!(request.url, "https://example.com/comments");
    assert!(request.headers.is_empty());
    assert!(request.body.is_empty());
}

#[test]
fn test_uses_inline_body_when_no_raw_body() {
    let request = parse_request_http(
        "POST https://example.com/comments name==John age=:32",
        "https://",
    )
    .unwrap();

    let parsed_body: serde_json::Value = serde_json::from_str(&request.body).unwrap();
    assert_eq!(parsed_body["name"], "John");
    assert_eq!(parsed_body["age"], 32);
}

#[test]
fn inline_body_is_a_json_object_in_name_order() {
    let request = parse_request_http(
        "POST https://example.com/comments name==John age=:32 tags=:{\"b\":true,\"a\":null}",
        "https://",
    )
    .unwrap();

    assert_eq!(request.body, "{\"age\":32,\"name\":\"John\",\"tags\":{\"a\":null,\"b\":true}}");
}

#[test]
fn test_raw_body_takes_priority_over_inline_body() {
    let request = parse_request_http(
        "POST https://example.com/comments name==John\n\n{\"other\": true}",
        "https://",
    )
    .unwrap();

    assert_eq!(request.body.trim(), "{\"other\": true}");
}

#[test]
fn test_uses_inline_headers_when_no_non_inline_headers() {
    let request = parse_request_http("GET https://example.com/comments auth:Bearer-abc", "https://").unwrap();

    assert_eq!(request.headers.get("auth").unwrap(), "Bearer-abc");
}

#[test]
fn test_non_inline_headers_take_priority_over_inline_headers() {
    let request = parse_request_http(
        "GET https://example.com/comments auth:inline-value\ncontent-type: application/json\n",
        "https://",
    )
    .unwrap();

    assert_eq!(request.headers.get("content-type").unwrap(), "application/json");
    assert!(!request.headers.contains_key("auth"));
}

#[test]
fn test_uses_inline_query_when_uri_has_no_query() {
    let request = parse_request_http("GET https://example.com/comments id?=abc", "https://").unwrap();
    assert_eq!(request.url, "https://example.com/comments?id=abc");
}

#[test]
fn appends_several_query_parameters_in_name_order() {
    let request =
        parse_request_http("GET example.com/c page?:2 id?=abc", "https://").unwrap();
    assert_eq!(request.url, "https://example.com/c?id=abc&page=2");
}

#[test]
fn test_non_inline_query_takes_priority_over_inline_query() {
    let request = parse_request_http(
        "GET https://example.com/comments?id=xyz id?=abc",
        "https://",
    )
    .unwrap();

    assert_eq!(request.url, "https://example.com/comments?id=xyz");
}

#[test]
fn test_test_ignores_leading_blank_lines() {
    let request = parse_request_http("\n\nPUT https://example.com/comments\n", "https://").unwrap();

    assert_eq!(request.method, "PUT");
    assert_eq!(request.url, "https://example.com/comments");
}

#[test]
fn reports_each_request_error() {
    assert!(matches!(parse_request_http("\n\n", "https://"), Err(RequestError::EmptyRequestFile)));
    assert!(matches!(parse_request_http("  \n", "https://"), Err(RequestError::MissingMethod)));
    assert!(matches!(parse_request_http("GET\n", "https://"), Err(RequestError::MissingUri)));
    assert!(matches!(
        parse_request_http("GET a.com\nno separator\n", "https://"),
        Err(RequestError::ParseHeaderLine)
    ));
    assert!(matches!(parse_request_http("GET a.com =x", "https://"), Err(RequestError::ParseInlineParam)));
    assert!(matches!(
        parse_request_http("GET a.com x=:[1]", "https://"),
        Err(RequestError::ParseInlineJsonValue(_))
    ));
    assert!(matches!(
        parse_request_http("MULTIPART a.com\n\nname value\n", "https://"),
        Err(RequestError::EmptyMultipartValue)
    ));
    assert!(matches!(
        parse_request_http("MULTIPART a.com\n\nname: value\n", "https://"),
        Err(RequestError::InvalidMultipartCharacter('v'))
    ));
}

#[test]
fn body_keeps_crlf_free_lines_joined() {
    let request = parse_request_http("POST a.com\r\nh: v\r\n\r\nline1\r\nline2", "http://").unwrap();
    assert_eq!(request.headers.get("h").unwrap(), "v");
    assert_eq!(request.body, "line1\nline2");
    assert_eq!(request.url, "http://a.com");
}

#[test]
fn body_test_parses_inline_body_param() {
    let src = "name==John";
    let mut parser = InlineParamParser::new(src);
    let parsed = parser.parse().unwrap();
    assert_eq!(parsed.key, "name");
    assert_eq!(parsed.value, InlineValue::Value(Value::String("John".to_owned())));
    assert_eq!(parsed.kind, InlineItemKind::Body);
}

#[test]
fn test_parses_body_number() {
    let src = "age=:32";
    let mut parser = InlineParamParser::new(src);
    let parsed = parser.parse().unwrap();

    assert_eq!(parsed.key, "age");
    assert_eq!(parsed.value, InlineValue::Value(Value::Integer(32)));
    assert_eq!(parsed.kind, InlineItemKind::Body);
}

#[test]
fn test_parses_query_param() {
    let src = "id?=abc";
    let mut parser = InlineParamParser::new(src);
    let parsed = parser.parse().unwrap();

    assert_eq!(parsed.key, "id");
    assert_eq!(parsed.value, InlineValue::Value(Value::String("abc".to_owned())));
    assert_eq!(parsed.kind, InlineItemKind::Query);
}

#[test]
fn test_parses_query_param_number() {
    let src = "page?:1";
    let mut parser = InlineParamParser::new(src);
    let parsed = parser.parse().unwrap();

    assert_eq!(parsed.key, "page");
    assert_eq!(parsed.value, InlineValue::Value(Value::Integer(1)));
    assert_eq!(parsed.kind, InlineItemKind::Query);
}

#[test]
fn test_parses_form_text_field() {
    let src = "name@=John";
    let mut parser = InlineParamParser::new(src);
    let parsed = parser.parse().unwrap();

    assert_eq!(parsed.key, "name");
    assert_eq!(
        parsed.value,
        InlineValue::Form(MultipartRequestValue::Text("John".to_owned()))
    );
    assert_eq!(parsed.kind, InlineItemKind::Form);
}

#[test]
fn test_parses_form_text_field_without_suffix() {
    let src = "name@John";
    let mut parser = InlineParamParser::new(src);
    let parsed = parser.parse().unwrap();

    assert_eq!(
        parsed.value,
        InlineValue::Form(MultipartRequestValue::Text("John".to_owned()))
    );
}

#[test]
fn test_parses_form_file_field() {
    let src = "avatar@@./photo.png";
    let mut parser = InlineParamParser::new(src);
    let parsed = parser.parse().unwrap();

    assert_eq!(parsed.key, "avatar");
    assert_eq!(
        parsed.value,
        InlineValue::Form(MultipartRequestValue::File("./photo.png".to_owned()))
    );
    assert_eq!(parsed.kind, InlineItemKind::Form);
}

#[test]
fn parses_header_param_and_float_param() {
    let mut parser = InlineParamParser::new("auth:Bearer x");
    let parsed = parser.parse().unwrap();
    assert_eq!(parsed.kind, InlineItemKind::Header);
    assert_eq!(parsed.value, InlineValue::Value(Value::String("Bearer x".to_owned())));

    let mut parser = InlineParamParser::new("ratio=:1.5");
    let parsed = parser.parse().unwrap();
    assert_eq!(parsed.value, InlineValue::Value(Value::Number("1.5".to_owned())));
}

#[test]
fn test_errors_on_missing_separator() {
    let src = "name";
    let mut parser = InlineParamParser::new(src);
    assert!(parser.parse().is_err());
}

#[test]
fn test_errors_on_invalid_json_value() {
    let src = "age=:not_json";
    let mut parser = InlineParamParser::new(src);
    assert!(parser.parse().is_err());
}

#[test]
fn test_errors_on_missing_key() {
    let src = "=John";
    let mut parser = InlineParamParser::new(src);
    assert!(parser.parse().is_err());
}

fn body_of(pairs: Vec<(&str, Value)>) -> lapse::map::OrderedMap<Value> {
    let mut m = lapse::map::OrderedMap::new();
    for (k, v) in pairs {
        m.insert(k.to_owned(), v);
    }
    m
}

#[test]
fn parses_simple_req() {
    let input = "GET example.com";
    let mut parser = InlineRequestParser::new(input, "http://");
    let parsed = parser.parse();

    assert_eq!(
        parsed,
        InlineRequest {
            method: "GET".to_string(),
            uri: "http://example.com".to_string(),
            ..Default::default()
        }
    );
}

#[test]
fn parses_req_with_params() {
    let input = "POST example.com name==John";
    let mut parser = InlineRequestParser::new(input, "http://");
    let parsed = parser.parse();

    assert_eq!(
        parsed,
        InlineRequest {
            method: "POST".to_string(),
            uri: "http://example.com".to_string(),
            body: body_of(vec![("name", Value::String("John".into()))]),
            ..Default::default()
        }
    );
}

#[test]
fn parses_params_with_spaces() {
    let input = "POST example.com name==John Doe age=:30";
    let mut parser = InlineRequestParser::new(input, "http://");
    let parsed = parser.parse();

    assert_eq!(
        parsed,
        InlineRequest {
            method: "POST".to_string(),
            uri: "http://example.com".to_string(),
            body: body_of(vec![
                ("name", Value::String("John Doe".into())),
                ("age", Value::Integer(30)),
            ]),
            ..Default::default()
        }
    );
}

#[test]
fn split_param_entries_joins_values_with_spaces() {
    let entries = InlineRequestParser::split_param_entries("name==John Doe age=:30");
    assert_eq!(entries, vec!["name==John Doe", "age=:30"]);
}

#[test]
fn parsing_parses_multipart_req() {
    let http_portion = MULTIPART_DOCUMENT.split_once("---").unwrap().0;
    let parsed = lapse::request::plain::parse_request_http(http_portion).unwrap();
    match parsed {
        lapse::request::ParsedRequest::Multipart(req) => {
            assert_eq!(req.url, "https://example.com/comments");
            let found_content_type = req.headers.get("content-type").unwrap();
            assert_eq!(found_content_type, "multipart/form-data");

            let found_text_field = req.body.get("name").unwrap();
            let found_file_field = req.body.get("ex-file").unwrap();

            assert_eq!(
                found_text_field,
                &MultipartRequestValue::Text("${env.name}".to_owned())
            );
            assert_eq!(
                found_file_field,
                &MultipartRequestValue::File("./env.json".to_owned())
            );
        }
        _ => panic!("It was supposed to be a multipart request"),
    }
}

#[test]
fn plain_parse_keeps_the_uri_and_sorts_by_method() {
    let parsed = lapse::request::plain::parse_request_http("\nGET localhost/x ignored?=1\nA: 1\na: 2\n\nbody");
    match parsed {
        Ok(lapse::request::ParsedRequest::Http(h)) => {
            assert_eq!(h.url, "localhost/x");
            assert_eq!(h.method, "GET");
            assert_eq!(h.headers.get("A").unwrap(), "1");
            assert_eq!(h.headers.get("a").unwrap(), "2");
            assert_eq!(h.body, "body");
            assert!(h.form.is_empty());
        }
        _ => panic!("expected a plain request"),
    }
    match lapse::request::plain::parse_request_http("GRAPHQL /gql\n\n{ a }") {
        Ok(lapse::request::ParsedRequest::GraphQL(g)) => assert_eq!(g.query, "{ a }"),
        _ => panic!("expected a GraphQL request"),
    }
    assert!(matches!(
        lapse::request::plain::parse_request_http("MULTIPART /m\n\nx: y"),
        Err(RequestError::InvalidMultipartCharacter('y'))
    ));
    assert!(matches!(
        lapse::request::plain::parse_request_http("GET"),
        Err(RequestError::MissingUri)
    ));
}

#[test]
fn big_integers_in_inline_bodies_become_floats() {
    let mut parser = InlineParamParser::new("a=:18446744073709551615");
    let parsed = parser.parse().unwrap();
    let value = match parsed.value {
        InlineValue::Value(v) => v,
        other => panic!("expected a value, got {other:?}"),
    };
    assert_eq!(value.to_string(), "18446744073709552000");
    assert_eq!(value.to_json(), "1.8446744073709552e+19");

    let request = parse_request_http("POST https://x.io a=:18446744073709551615 b=:1e3 c=:7", "https://").unwrap();
    assert_eq!(request.body, "{\"a\":1.8446744073709552e+19,\"b\":1000.0,\"c\":7}");
}

#[test]
fn multipart_reads_the_inline_body_as_multipart_lines() {
    let request = parse_request_http("MULTIPART https://x.io a=x", "https://").unwrap();
    assert_eq!(request.body, "{\"a\":\"x\"}");
    assert_eq!(request.form.get("{\"a\""), Some(&MultipartRequestValue::Text("x".to_owned())));
    assert_eq!(request.form.len(), 1);

    let request = parse_request_http("MULTIPART https://x.io n@=John", "https://").unwrap();
    assert_eq!(request.form.get("n"), Some(&MultipartRequestValue::Text("John".to_owned())));
}
