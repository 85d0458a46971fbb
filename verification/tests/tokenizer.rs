use lapse::parsing::{RequestToken, RequestTokenizer};

fn tokenize(src: &str) -> Vec<RequestToken> {
    RequestTokenizer::new(src).tokenize()
}

#[test]
fn test_tokenizes_plain_string() {
    let tokens = tokenize("{\n  \"name\": \"sample\"\n}");

    assert_eq!(
        tokens,
        vec![RequestToken::String("{\n  \"name\": \"sample\"\n}".to_owned())]
    );
}

#[test]
fn test_tokenizes_expr_interpolation() {
    let tokens = tokenize("{\n  \"name\": ${var(\"name\")}\n}");

    assert_eq!(
        tokens,
        vec![
            RequestToken::String("{\n  \"name\": ".to_owned()),
            RequestToken::Expr("var(\"name\")".to_owned()),
            RequestToken::String("\n}".to_owned()),
        ]
    );
}

#[test]
fn test_tokenizes_sample_asset() {
    // The request part of the sample request document that interpolates `env.name`.
    let document = "\nPOST https://example.com/comments\ncontent-type: application/json\n\n{\n  \"name\": \"${env.name}\"\n}\n\n---\n# With an expression\n";
    let http = document.split_once("---").unwrap().0.trim_start_matches('\n');

    let tokens = tokenize(http);

    assert_eq!(
        tokens,
        vec![
            RequestToken::String(
                "POST https://example.com/comments\ncontent-type: application/json\n\n{\n  \"name\": \""
                    .to_owned()
            ),
            RequestToken::Expr("env.name".to_owned()),
            RequestToken::String("\"\n}\n\n".to_owned()),
        ]
    );
}

#[test]
fn test_expr_with_nested_parens() {
    let tokens = tokenize("${fn(\"a\", nested(1))}");

    assert_eq!(
        tokens,
        vec![RequestToken::Expr("fn(\"a\", nested(1))".to_owned())]
    );
}

#[test]
fn test_expr_with_nested_braces() {
    let tokens = tokenize("${fn({a = 1})}");

    assert_eq!(tokens, vec![RequestToken::Expr("fn({a = 1})".to_owned())]);
}

#[test]
fn test_expr_with_escaped_braces() {
    let tokens = tokenize("${fn(\"\\{literal\\}\")}");

    assert_eq!(
        tokens,
        vec![RequestToken::Expr("fn(\"{literal}\")".to_owned())]
    );
}

#[test]
fn test_leaves_lone_dollar_sign_as_string() {
    let tokens = tokenize("price: $5");

    assert_eq!(tokens, vec![RequestToken::String("price: $5".to_owned())]);
}

#[test]
fn tokenizes_unterminated_expression_to_the_end() {
    let tokens = tokenize("a ${b {c}");

    assert_eq!(
        tokens,
        vec![
            RequestToken::String("a ".to_owned()),
            RequestToken::Expr("b {c}".to_owned()),
        ]
    );
}

#[test]
fn tokenizes_adjacent_expressions_and_multibyte_text() {
    let tokens = tokenize("é${x}${y}ü");

    assert_eq!(
        tokens,
        vec![
            RequestToken::String("é".to_owned()),
            RequestToken::Expr("x".to_owned()),
            RequestToken::Expr("y".to_owned()),
            RequestToken::String("ü".to_owned()),
        ]
    );
}

#[test]
fn tokenizes_empty_document_to_nothing() {
    assert_eq!(tokenize(""), vec![]);
}

fn render(tokens: &[RequestToken]) -> String {
    tokens
        .iter()
        .map(|t| match t {
            RequestToken::String(s) => s.clone(),
            RequestToken::Expr(e) => format!("${{{e}}}"),
        })
        .collect()
}

#[test]
fn tokens_render_back_to_the_document() {
    for src in [
        "GET https://${env.host}/items\nx: ${ {a = {1}} }\n\n${b}",
        "${a}${b}",
        "no expressions { } $ here",
        "",
    ] {
        assert_eq!(render(&tokenize(src)), src);
    }
}
