use activity_queue::inbox::{
    host_header, is_local_url, prepare_inboxes, request_headers, select_valid, Inbox,
    FEDERATION_CONTENT_TYPE,
};

fn inbox(url: &str, host: &str, port: Option<u16>) -> Inbox {
    Inbox { url: url.to_string(), host: host.to_string(), port }
}

fn urls(v: &[Inbox]) -> Vec<String> {
    v.iter().map(|i| i.url.clone()).collect()
}

#[test]
fn duplicates_and_local_inboxes_are_dropped() {
    let a = inbox("https://a.example/inbox", "a.example", None);
    let b = inbox("https://b.example/inbox", "b.example", None);
    let local = inbox("https://local.example/inbox", "local.example", None);
    let c = inbox("https://c.example:8443/inbox", "c.example", Some(8443));
    let given = vec![a.clone(), b.clone(), a.clone(), local, c.clone()];
    let prepared = prepare_inboxes(given, &"local.example".to_string());
    assert_eq!(urls(&prepared), urls(&[a, b, c]));
}

#[test]
fn empty_inbox_list_gives_nothing() {
    let prepared = prepare_inboxes(Vec::new(), &"local.example".to_string());
    assert!(prepared.is_empty());
}

#[test]
fn local_match_takes_the_port_into_account() {
    let on_port = inbox("http://localhost:8001/inbox", "localhost", Some(8001));
    assert!(is_local_url(&on_port, &"localhost:8001".to_string()));
    assert!(!is_local_url(&on_port, &"localhost".to_string()));
    let plain = inbox("http://localhost/inbox", "localhost", None);
    assert!(is_local_url(&plain, &"localhost".to_string()));
    assert!(!is_local_url(&plain, &"localhost:8001".to_string()));
}

#[test]
fn rejected_inboxes_are_skipped() {
    let a = inbox("https://a.example/inbox", "a.example", None);
    let b = inbox("https://b.example/inbox", "b.example", None);
    let c = inbox("https://c.example/inbox", "c.example", None);
    let chosen = select_valid(vec![a.clone(), b, c.clone()], &vec![true, false, true]);
    assert_eq!(urls(&chosen), urls(&[a, c]));
    let none = select_valid(vec![inbox("https://d.example/", "d.example", None)], &vec![false]);
    assert!(none.is_empty());
}

#[test]
fn host_header_appends_explicit_port() {
    assert_eq!(host_header(&inbox("https://a.example/i", "a.example", None)), "a.example");
    assert_eq!(
        host_header(&inbox("http://a.example:8001/i", "a.example", Some(8001))),
        "a.example:8001"
    );
    assert_eq!(host_header(&inbox("http://h:0/", "h", Some(0))), "h:0");
    assert_eq!(host_header(&inbox("http://h:9/", "h", Some(9))), "h:9");
    assert_eq!(host_header(&inbox("http://h:10/", "h", Some(10))), "h:10");
    assert_eq!(host_header(&inbox("http://h:100/", "h", Some(100))), "h:100");
    assert_eq!(host_header(&inbox("http://h:65535/", "h", Some(65535))), "h:65535");
}

#[test]
fn headers_carry_type_host_and_date() {
    let target = inbox("http://localhost:8001/inbox", "localhost", Some(8001));
    let headers = request_headers(&target, "Sun, 06 Nov 1994 08:49:37 GMT");
    assert_eq!(
        headers,
        vec![
            ("content-type".to_string(), FEDERATION_CONTENT_TYPE.to_string()),
            ("host".to_string(), "localhost:8001".to_string()),
            ("date".to_string(), "Sun, 06 Nov 1994 08:49:37 GMT".to_string()),
        ]
    );
    assert_eq!(FEDERATION_CONTENT_TYPE, "application/activity+json");
}

#[test]
fn duplicate_is_field_for_field() {
    let a = inbox("http://a.example:81/x", "a.example", Some(81));
    let d = a.duplicate();
    assert_eq!(d.url, a.url);
    assert_eq!(d.host, a.host);
    assert_eq!(d.port, a.port);
}
