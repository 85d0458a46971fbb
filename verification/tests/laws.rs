use lapse::env::hook::{Event, EventMap};
use lapse::parsing::{RequestToken, RequestTokenizer};
use lapse::request::parsing::url::UrlParser;
use lapse::runner::eval::{evaluate, parse_document};

#[test]
fn evaluation_with_expressions_as_their_own_source_keeps_the_document() {
    let doc = "POST https://${host}/items\nx: ${ {a = {b = 1}} }\n\n{\"k\": ${v}}";
    let sources: Vec<String> = parse_document(doc)
        .unwrap()
        .into_iter()
        .filter_map(|t| match t {
            RequestToken::Expr(e) => Some(format!("${{{e}}}")),
            RequestToken::String(_) => None,
        })
        .collect();
    assert_eq!(sources.len(), 3);
    assert_eq!(evaluate(doc, &sources).unwrap(), doc);
}

#[test]
fn completing_a_url_twice_is_completing_it_once() {
    for uri in ["localhost:3000", "https://x.io/a", "a/b?c=d", ""] {
        let once = UrlParser::new(uri, "http://").parse();
        let twice = UrlParser::new(&once, "http://").parse();
        assert_eq!(once, twice);
        assert!(once.contains("://"));
    }
}

#[test]
fn a_document_without_an_expression_is_one_text() {
    let doc = "price: $5 {not} \\{ ${";
    let doc = &doc[..doc.len() - 2];
    assert_eq!(
        RequestTokenizer::new(doc).tokenize(),
        vec![RequestToken::String(doc.to_string())]
    );
}

#[test]
fn event_map_extension_prefers_the_new_values() {
    let mut a: EventMap<u8> = EventMap::new();
    a.insert(Event::PreRequest, 1);
    a.insert(Event::PostRequest, 2);
    let mut b: EventMap<u8> = EventMap::new();
    b.insert(Event::PostRequest, 3);
    a.extend(b);
    assert_eq!(a.get(Event::PreRequest), Some(&1));
    assert_eq!(a.get(Event::PostRequest), Some(&3));
}
