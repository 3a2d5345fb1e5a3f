use tx_manager::source_url::{create_responder_id, host_segment_of, is_https,
    try_create_responder_id, ResponderId};
use url::Url;

fn address(text: &str) -> Url {
    Url::parse(text).unwrap()
}

#[test]
fn an_https_address_names_the_node_in_the_segment_before_the_last() {
    let url = address("https://s3-us-west-1.amazonaws.com/mobilecoin.chain/node1.test.mobilecoin.com/");
    assert_eq!(create_responder_id(&url), ResponderId("node1.test.mobilecoin.com".to_string()));
    assert_eq!(
        try_create_responder_id(&url),
        Some(ResponderId("node1.test.mobilecoin.com".to_string()))
    );
    let url = address("https://host.example/a/b/c");
    assert_eq!(create_responder_id(&url), ResponderId("b".to_string()));
    let url = address("https://host.example/a/");
    assert_eq!(create_responder_id(&url), ResponderId("a".to_string()));
}

#[test]
fn the_scheme_is_compared_in_lower_case() {
    let url = address("HTTPS://host.example/node/blocks");
    assert_eq!(create_responder_id(&url), ResponderId("node".to_string()));
}

#[test]
fn any_other_address_is_the_name_itself() {
    let url = address("http://host.example/a/b/c");
    assert_eq!(create_responder_id(&url), ResponderId("http://host.example/a/b/c".to_string()));
    let url = address("file:///var/blocks/node1/");
    assert_eq!(create_responder_id(&url), ResponderId("file:///var/blocks/node1/".to_string()));
    let url = address("http://host.example");
    assert_eq!(try_create_responder_id(&url), Some(ResponderId("http://host.example/".to_string())));
    let url = address("data:text/plain,node");
    assert_eq!(create_responder_id(&url), ResponderId("data:text/plain,node".to_string()));
}

#[test]
fn an_https_address_with_a_short_path_names_no_node() {
    assert_eq!(try_create_responder_id(&address("https://host.example")), None);
    assert_eq!(try_create_responder_id(&address("https://host.example/")), None);
    assert_eq!(try_create_responder_id(&address("https://host.example/node")), None);
}

#[test]
fn a_segment_is_taken_as_the_address_spells_it() {
    let url = address("https://host.example/my node/x");
    assert_eq!(create_responder_id(&url), ResponderId("my%20node".to_string()));
    let url = address("https://host.example//x");
    assert_eq!(create_responder_id(&url), ResponderId("".to_string()));
}

#[test]
fn is_https_takes_the_one_scheme() {
    assert!(is_https(&"https".to_string()));
    assert!(!is_https(&"http".to_string()));
    assert!(!is_https(&"HTTPS".to_string()));
    assert!(!is_https(&"httpss".to_string()));
    assert!(!is_https(&"".to_string()));
}

#[test]
fn host_segment_is_the_segment_before_the_last() {
    let list = |parts: &[&str]| Some(parts.iter().map(|part| part.to_string()).collect::<Vec<_>>());
    assert_eq!(host_segment_of(&list(&["a", "b", "c"])), Some("b".to_string()));
    assert_eq!(host_segment_of(&list(&["a", "b"])), Some("a".to_string()));
    assert_eq!(host_segment_of(&list(&["a"])), None);
    assert_eq!(host_segment_of(&list(&[])), None);
    assert_eq!(host_segment_of(&None), None);
}
