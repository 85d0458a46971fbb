use http::Method;
use lapse::Lapse;
use lapse::parsing::message::{parse_request_http, read_request_message};
use lapse::request::error::RequestError;
use lapse::request::{RequestFile, raw_request_of};

fn request_file(http: &str) -> RequestFile {
    RequestFile {
        markdown: String::new(),
        http: http.to_owned(),
    }
}

// The sample request file: notes, then the request document.
const SAMPLE_FILE: &str = "# Sample\nPosts a comment\n---\nPOST https://example.com/comments\ncontent-type: application/json\n\n{\n  \"name\": \"sample\"\n}";

#[test]
fn mod_test_parses_sample_request() {
    let file = request_file(SAMPLE_FILE.split_once("---").unwrap().1);

    let request = file.request().unwrap();

    assert_eq!(request.method(), Method::POST);
    assert_eq!(request.uri(), "https://example.com/comments");
    assert_eq!(
        request.headers().get("content-type").unwrap(),
        "application/json"
    );
    assert_eq!(
        std::str::from_utf8(request.body()).unwrap(),
        "{\n  \"name\": \"sample\"\n}"
    );
}

#[test]
fn mod_test_parses_request_without_body() {
    let file = request_file("GET https://example.com/comments\ncontent-type: application/json\n");

    let request = file.request().unwrap();

    assert_eq!(request.method(), Method::GET);
    assert_eq!(request.uri(), "https://example.com/comments");
    assert_eq!(
        request.headers().get("content-type").unwrap(),
        "application/json"
    );
    assert!(request.body().is_empty());
}

#[test]
fn mod_test_parses_request_without_headers_or_body() {
    let file = request_file("DELETE https://example.com/comments\n");

    let request = file.request().unwrap();

    assert_eq!(request.method(), Method::DELETE);
    assert_eq!(request.uri(), "https://example.com/comments");
    assert!(request.headers().is_empty());
    assert!(request.body().is_empty());
}

#[test]
fn mod_test_ignores_leading_blank_lines() {
    let file = request_file("\n\nPUT https://example.com/comments\n");

    let request = file.request().unwrap();

    assert_eq!(request.method(), Method::PUT);
    assert_eq!(request.uri(), "https://example.com/comments");
}

#[test]
fn splits_a_request_file_at_its_first_delimiter() {
    let file = RequestFile::from_content(SAMPLE_FILE).unwrap();
    assert_eq!(file.markdown, "# Sample\nPosts a comment\n");
    assert!(file.http.starts_with("\nPOST https://example.com/comments"));
    assert!(RequestFile::from_content("GET https://example.com").is_none());
}

#[test]
fn raw_request_stops_at_the_delimiter_line() {
    let content = "GET https://example.com\naccept: */*\n---\n# Notes\n";
    assert_eq!(raw_request_of(content), "GET https://example.com\naccept: */*");
    assert_eq!(raw_request_of("A\r\nB"), "A\nB");
}

#[test]
fn keeps_repeated_headers_in_order() {
    let msg = read_request_message("GET /x\nA: 1\nb: 2 \nA: 3\n\nbody\nmore").unwrap();
    assert_eq!(msg.method, "GET");
    assert_eq!(msg.uri, "/x");
    assert_eq!(
        msg.headers,
        vec![
            ("A".to_string(), "1".to_string()),
            ("b".to_string(), "2".to_string()),
            ("A".to_string(), "3".to_string())
        ]
    );
    assert_eq!(msg.body, "body\nmore");
    let req = parse_request_http("GET /x\nA: 1\nA: 3\n".to_string()).unwrap();
    let all: Vec<_> = req.headers().get_all("a").iter().collect();
    assert_eq!(all.len(), 2);
}

#[test]
fn reports_each_message_error() {
    assert!(matches!(
        parse_request_http("\n\n".to_string()),
        Err(RequestError::EmptyRequestFile)
    ));
    assert!(matches!(
        parse_request_http("  \n".to_string()),
        Err(RequestError::MissingMethod)
    ));
    assert!(matches!(
        parse_request_http("GET".to_string()),
        Err(RequestError::MissingUri)
    ));
    assert!(matches!(
        parse_request_http("G(T /x".to_string()),
        Err(RequestError::ParseMethod(_))
    ));
    assert!(matches!(
        parse_request_http("GET http://a b\n".to_string()),
        Ok(_)
    ));
    assert!(matches!(
        parse_request_http("GET ht^tp://x".to_string()),
        Err(RequestError::ParseUrl)
    ));
    assert!(matches!(
        parse_request_http("GET /x\nno colon here".to_string()),
        Err(RequestError::ParseHeaderLine)
    ));
    assert!(matches!(
        parse_request_http("GET /x\nbad name: v".to_string()),
        Err(RequestError::BuildRequest(_))
    ));
}

#[test]
fn resolves_a_request_with_expression_values() {
    let lapse = Lapse::at("/tmp/space".to_string());
    let values = vec!["example.com".to_string(), "abc".to_string()];
    let req = lapse
        .resolve_request("GET https://${env.host}/items\nx-token: ${secret.token}\n", &values)
        .unwrap();
    assert_eq!(req.uri(), "https://example.com/items");
    assert_eq!(req.headers().get("x-token").unwrap(), "abc");
}

#[test]
fn built_request_holds_the_message_parts() {
    let req = parse_request_http(
        "\nPATCH https://example.com/a?b=1\nX-Mixed-Case:  v1 \nx-other: é\n\nfirst\nsecond é".to_string(),
    )
    .unwrap();
    assert_eq!(req.method(), http::Method::PATCH);
    assert_eq!(req.uri(), "https://example.com/a?b=1");
    assert_eq!(req.version(), http::Version::HTTP_11);
    assert_eq!(req.headers().len(), 2);
    assert_eq!(req.headers().get("x-mixed-case").unwrap(), "v1");
    assert_eq!(req.headers().get("x-other").unwrap().as_bytes(), "é".as_bytes());
    assert_eq!(req.body(), &"first\nsecond é".as_bytes().to_vec());
}

#[test]
fn a_refused_header_value_fails_the_build() {
    assert!(matches!(
        parse_request_http("GET /x\nok: bad\u{1}value".to_string()),
        Err(RequestError::BuildRequest(_))
    ));
    let req = parse_request_http("CUSTOM-VERB /x\n".to_string()).unwrap();
    assert_eq!(req.method().as_str(), "CUSTOM-VERB");
    assert!(req.body().is_empty());
}

#[test]
fn file_requests_agree_with_the_reader() {
    let http = "PUT https://example.com/a\nx-a: 1\nX-B: 2\n\nbody".to_owned();
    let file = RequestFile { markdown: String::new(), http: http.clone() };
    let a = file.request().unwrap();
    let b = parse_request_http(http).unwrap();
    assert_eq!(a.method(), b.method());
    assert_eq!(a.uri(), b.uri());
    assert_eq!(a.version(), b.version());
    assert_eq!(a.headers(), b.headers());
    assert_eq!(a.body(), b.body());
}

#[test]
fn resolving_reads_the_evaluated_document() {
    let lapse = Lapse::at("/tmp/space".to_string());
    let req = "GET https://${host}/x\nx-t: ${t}\n";
    let values = vec!["example.com".to_string(), "abc".to_string()];
    let evaluated = lapse::eval::evaluate_document(req, &values);
    assert_eq!(evaluated, "GET https://example.com/x\nx-t: abc\n");
    let a = lapse.resolve_request(req, &values).unwrap();
    let b = parse_request_http(evaluated).unwrap();
    assert_eq!(a.uri(), b.uri());
    assert_eq!(a.headers(), b.headers());
    assert_eq!(a.body(), b.body());
}
