use indexador::json::{embedding_request_body, parse_embedding, record_request_body};

#[test]
fn parse_embedding_reads_a_number_array() {
    let toks = parse_embedding("[0.1,0.2,0.3]").unwrap();
    assert_eq!(
        toks,
        vec!["0.1".to_string(), "0.2".to_string(), "0.3".to_string()]
    );
}

#[test]
fn parse_embedding_accepts_surrounding_white_space() {
    let toks = parse_embedding(" [ 0.1 ,\t-2e5 ]\n").unwrap();
    assert_eq!(toks, vec!["0.1".to_string(), "-2e5".to_string()]);
}

#[test]
fn parse_embedding_accepts_an_empty_array() {
    assert_eq!(parse_embedding("[]").unwrap().len(), 0);
    assert_eq!(parse_embedding("[ ]").unwrap().len(), 0);
}

#[test]
fn parse_embedding_accepts_number_forms() {
    let toks = parse_embedding("[-1.5e-3,0,12.75,3E+2]").unwrap();
    assert_eq!(
        toks,
        vec![
            "-1.5e-3".to_string(),
            "0".to_string(),
            "12.75".to_string(),
            "3E+2".to_string()
        ]
    );
}

#[test]
fn parse_embedding_rejects_malformed_bodies() {
    for body in [
        "", "[", "]", "[1,]", "[,1]", "[1 2]", "[01]", "[.5]", "[1.]", "[+1]", "[1e]", "[-]",
        "x[1]", "[1]x", "[\"a\"]", "[1,,2]",
    ] {
        assert!(parse_embedding(body).is_none(), "accepted {:?}", body);
    }
}

#[test]
fn embedding_request_names_the_text_and_waits_for_the_model() {
    let body = embedding_request_body("hello");
    assert_eq!(
        body,
        "{\"inputs\":\"hello\",\"options\":{\"wait_for_model\":true}}"
    );
}

#[test]
fn embedding_request_escapes_the_text() {
    let body = embedding_request_body("a\"b\\c\nd\u{1}");
    assert_eq!(
        body,
        "{\"inputs\":\"a\\\"b\\\\c\\nd\\u0001\",\"options\":{\"wait_for_model\":true}}"
    );
}

#[test]
fn record_body_carries_title_content_and_tokens() {
    let emb = vec!["0.1".to_string(), "0.2".to_string()];
    let body = record_request_body("a.txt", "hola", &emb);
    assert_eq!(
        body,
        "{\"titulo\":\"a.txt\",\"contenido\":\"hola\",\"embedding\":[0.1,0.2]}"
    );
}

#[test]
fn record_body_with_no_tokens_has_an_empty_array() {
    let emb: Vec<String> = Vec::new();
    let body = record_request_body("t", "c", &emb);
    assert_eq!(body, "{\"titulo\":\"t\",\"contenido\":\"c\",\"embedding\":[]}");
}
