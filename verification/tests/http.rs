use axum::http::{HeaderMap, HeaderValue};
use files_proxy::headers::{add_remote_header, is_header_text, room_for};
use files_proxy::http::{
    add_request_headers, can_address, file_address, on_agent, on_agent_with, on_cache, on_file,
    on_json, on_parse, on_parse_with, on_remote, on_remote_error, ping_reply, root_reply, type_id,
    AfterAgent, AfterCache, AfterJson, AfterParse, AgentNext, Fetch, FileText, Reply, ResponseJson,
};
use files_proxy::ping::PingStatus;
use files_proxy::wire::AgentResult;

fn answer(status: u16, json: Option<&str>) -> Option<AgentResult> {
    Some(AgentResult { id: 1, status, json: json.map(|j| j.to_string()) })
}

fn get(headers: &HeaderMap<HeaderValue>, name: &str) -> Vec<String> {
    headers
        .get_all(name)
        .iter()
        .map(|v| String::from_utf8(v.as_bytes().to_vec()).unwrap())
        .collect()
}

fn reply_of(after: AfterAgent) -> Reply {
    match after.next {
        AgentNext::Reply(reply) => reply,
        AgentNext::Json(_) => panic!("no reply"),
    }
}

fn fetch_of(after: AfterParse) -> Fetch {
    match after {
        AfterParse::Fetch(fetch) => fetch,
        AfterParse::Reply(_) => panic!("no fetch"),
    }
}

fn parse_reply(after: AfterParse) -> Reply {
    match after {
        AfterParse::Reply(reply) => reply,
        AfterParse::Fetch(_) => panic!("no reply"),
    }
}

fn hit(json: &str) -> FileText {
    match on_cache("p", Some(json.to_string())) {
        AfterCache::Hit(text) => text,
        AfterCache::Ask(_) => panic!("no hit"),
    }
}

fn miss(json: &str) -> FileText {
    match on_agent("p", false, None, answer(200, Some(json))).next {
        AgentNext::Json(text) => text,
        AgentNext::Reply(_) => panic!("no text"),
    }
}

fn link(uri: &str) -> ResponseJson {
    ResponseJson { uri: uri.to_string(), link: true }
}

fn local() -> ResponseJson {
    ResponseJson { uri: "ignored".to_string(), link: false }
}

#[test]
fn kinds_of_paths() {
    assert_eq!(type_id("webpublic-0"), 1);
    assert_eq!(type_id("thumbnail-0"), 2);
    assert_eq!(type_id("other"), 4);
    assert_eq!(type_id(""), 4);
    assert_eq!(type_id("xwebpublic-0"), 4);
}

#[test]
fn cache_hit_and_miss() {
    assert!(matches!(on_cache("a", Some("j".to_string())), AfterCache::Hit(t) if t.json() == "j"));
    assert!(hit("").json().is_empty());
    match on_cache("thumbnail-a", None) {
        AfterCache::Ask(job) => {
            assert_eq!(job.type_id, 2);
            assert_eq!(job.localpath.as_deref(), Some("thumbnail-a"));
        }
        AfterCache::Hit(_) => panic!("hit"),
    }
}

#[test]
fn silent_agent_is_a_gateway_timeout() {
    let after = on_agent("p", true, None, None);
    assert!(after.store.is_none());
    let reply = reply_of(after);
    assert_eq!(reply.status, 504);
    assert_eq!(reply.body.as_deref(), Some(""));
    assert!(reply.headers.is_empty());
}

#[test]
fn known_file_is_stored_and_goes_on() {
    let after = on_agent("p", true, Some(60), answer(200, Some("{}")));
    let store = after.store.unwrap();
    assert_eq!((store.key.as_str(), store.value.as_str(), store.ttl), ("p", "{}", Some(60)));
    assert!(matches!(after.next, AgentNext::Json(t) if t.json() == "{}"));
    let after = on_agent("p", true, None, answer(200, None));
    let store = after.store.unwrap();
    assert_eq!((store.value.as_str(), store.ttl), ("", None));
    assert!(matches!(after.next, AgentNext::Json(t) if t.json().is_empty()));
}

#[test]
fn nothing_is_stored_without_a_cache() {
    assert!(on_agent("p", false, Some(60), answer(200, Some("{}"))).store.is_none());
    assert!(on_agent("p", false, Some(60), answer(204, None)).store.is_none());
}

#[test]
fn unknown_file_is_passed_on() {
    let after = on_agent("p", true, None, answer(404, Some("x")));
    assert!(after.store.is_none());
    let reply = reply_of(after);
    assert_eq!(reply.status, 404);
    assert_eq!(get(&reply.headers, "X-AgentStatus"), vec!["404"]);
    assert_eq!(reply.headers.len(), 1);
    assert!(reply.body.is_none());
}

#[test]
fn agent_failures_get_an_event_id() {
    for status in [0u16, 201, 500, 501, 65535] {
        let after = on_agent_with("p", true, None, answer(status, Some("x")), "event");
        assert!(after.store.is_none());
        let reply = reply_of(after);
        assert_eq!(reply.status, 502);
        assert_eq!(get(&reply.headers, "X-EventId"), vec!["event"]);
        assert_eq!(get(&reply.headers, "X-AgentStatus"), vec![status.to_string()]);
    }
}

#[test]
fn event_ids_are_fresh_uuids() {
    let mut seen = Vec::new();
    for _ in 0..5 {
        let reply = reply_of(on_agent("p", true, None, answer(500, None)));
        let id = get(&reply.headers, "X-EventId").remove(0);
        let parsed = uuid::Uuid::parse_str(&id).unwrap();
        assert_eq!(parsed.get_version_num(), 4);
        assert_eq!(id.len(), 36);
        assert!(!seen.contains(&id));
        seen.push(id);
    }
}

#[test]
fn empty_answer_fails_once_and_is_kept() {
    let after = on_agent_with("p", true, Some(1), answer(204, None), "e");
    let store = after.store.as_ref().unwrap().value.clone();
    assert_eq!(store, "");
    assert_eq!(reply_of(after).status, 502);
    match on_cache("p", Some(store)) {
        AfterCache::Hit(json) => match on_json(json) {
            AfterJson::Reply(reply) => {
                assert_eq!(reply.status, 204);
                assert!(reply.headers.is_empty());
                assert!(reply.body.is_none());
            }
            AfterJson::Parse(_) => panic!("parse"),
        },
        AfterCache::Ask(_) => panic!("ask"),
    }
}

#[test]
fn text_is_parsed() {
    assert!(matches!(on_json(hit("x")), AfterJson::Parse(t) if t.json() == "x"));
}

#[test]
fn parse_failure_gets_an_event_id() {
    let reply = parse_reply(on_parse_with("p", &hit("x"), None, None, "", "ev"));
    assert_eq!(reply.status, 502);
    assert_eq!(get(&reply.headers, "X-EventId"), vec!["ev"]);
    assert_eq!(reply.headers.len(), 1);
    let reply = parse_reply(on_parse("p", &hit("x"), None, None, ""));
    assert_eq!(get(&reply.headers, "X-EventId")[0].len(), 36);
}

#[test]
fn linked_file_is_fetched_from_its_address() {
    let fetch = fetch_of(on_file("webpublic-a", true, link("http://r/f"), None, "http://m/"));
    assert_eq!(fetch.url, "http://r/f");
    assert_eq!(get(&fetch.headers, "X-FileProxy-Hit"), vec!["true"]);
    assert_eq!(get(&fetch.headers, "X-Remote-Url"), vec!["http://r/f"]);
    assert_eq!(get(&fetch.headers, "Vary"), vec!["Origin"]);
    assert_eq!(fetch.headers.len(), 3);
}

#[test]
fn local_file_is_fetched_from_the_media_server() {
    let base = "http://localhost:3000/".to_string();
    let fetch = fetch_of(on_parse("webpublic-a", &miss("x"), Some(local()), Some(&base), ""));
    assert_eq!(fetch.url, "http://localhost:3000/webpublic-a");
    assert_eq!(get(&fetch.headers, "X-FileProxy-Hit"), vec!["false"]);
    assert!(get(&fetch.headers, "X-Remote-Url").is_empty());
    assert_eq!(fetch.headers.len(), 2);
}

#[test]
fn local_file_without_a_media_server_is_not_found() {
    let reply = parse_reply(on_file("webpublic-a", false, local(), None, ""));
    assert_eq!(reply.status, 404);
    assert!(reply.headers.is_empty());
    let reply = parse_reply(on_file("thumbnail-a", false, local(), None, "\n"));
    assert_eq!(reply.status, 404);
}

#[test]
fn thumbnail_goes_to_the_media_proxy() {
    let uri = "http://r/a b?c=\u{e9}&d~-_.";
    let reply = parse_reply(on_file("thumbnail-a", false, link(uri), None, "http://m/"));
    assert_eq!(reply.status, 301);
    assert_eq!(
        get(&reply.headers, "Location"),
        vec!["http://m/static.webp?url=http%3A%2F%2Fr%2Fa%20b%3Fc%3D%C3%A9%26d~-_.&static=1"]
    );
    assert_eq!(get(&reply.headers, "X-Remote-Url"), vec![uri]);
    assert_eq!(reply.body.as_deref(), Some(""));
    assert_eq!(reply.headers.len(), 4);
}

#[test]
fn cache_serves_the_same_file() {
    let first = fetch_of(on_file("webpublic-a", false, link("http://r/f"), None, "m"));
    let second = fetch_of(on_file("webpublic-a", true, link("http://r/f"), None, "m"));
    assert_eq!(first.url, second.url);
    let strip = |mut h: HeaderMap<HeaderValue>| {
        h.remove("X-FileProxy-Hit");
        h
    };
    assert_eq!(strip(first.headers), strip(second.headers));
}

#[test]
fn addresses_that_fit_headers() {
    assert!(can_address("p", &link("http://r/\u{e9}\t"), None, "\n"));
    assert!(!can_address("p", &link("http://r/\n"), None, "m"));
    assert!(can_address("p", &ResponseJson { uri: "\n".to_string(), link: false }, None, "m"));
    assert!(!can_address("thumbnail-", &link("x"), None, "\u{7f}"));
    assert!(can_address("thumbnail-", &local(), None, "\u{7f}"));
    let base = "b".to_string();
    assert!(!can_address("thumbnail-", &local(), Some(&base), "\u{7f}"));
    assert!(can_address("thumbnail-", &local(), Some(&base), "m"));
}

#[test]
fn header_text_is_what_header_values_take() {
    for c in (0u32..0x300).filter_map(char::from_u32) {
        let text = format!("a{}b", c);
        assert_eq!(is_header_text(&text), text.parse::<HeaderValue>().is_ok());
    }
    assert!(is_header_text(""));
}

#[test]
fn request_takes_the_user_agent() {
    let fetch = fetch_of(on_file("webpublic-a", true, link("http://r/f"), None, ""));
    let mut headers = HeaderMap::new();
    headers.append("Authorization", "Basic x".parse().unwrap());
    let agent = "proxy/1".to_string();
    add_request_headers(&mut headers, &fetch.headers, Some(&agent));
    assert_eq!(get(&headers, "User-Agent"), vec!["proxy/1"]);
    assert_eq!(get(&headers, "Authorization"), vec!["Basic x"]);
    assert_eq!(headers.len(), 2);
    let mut headers = HeaderMap::new();
    add_request_headers(&mut headers, &fetch.headers, None);
    assert!(headers.is_empty());
}

#[test]
fn request_takes_conditions_that_are_there() {
    let mut source = HeaderMap::new();
    source.append("if-modified-since", "Thu".parse().unwrap());
    source.append("if-modified-since", "Fri".parse().unwrap());
    source.append("if-none-match", HeaderValue::from_bytes(b"\xff").unwrap());
    source.append("range", "bytes=0-1".parse().unwrap());
    source.append("If-Range", "\"tag\"".parse().unwrap());
    source.append("Cookie", "c".parse().unwrap());
    let mut headers = HeaderMap::new();
    add_request_headers(&mut headers, &source, None);
    assert_eq!(get(&headers, "If-Modified-Since"), vec!["Thu"]);
    assert!(get(&headers, "If-None-Match").is_empty());
    assert_eq!(get(&headers, "Range"), vec!["bytes=0-1"]);
    assert_eq!(get(&headers, "If-Range"), vec!["\"tag\""]);
    assert_eq!(headers.len(), 3);
}

#[test]
fn remote_headers_are_passed_on() {
    let names = [
        "Content-Length",
        "Content-Range",
        "Accept-Ranges",
        "Content-Disposition",
        "Content-Security-Policy",
        "Content-Type",
        "Cache-Control",
        "Last-Modified",
        "Etag",
    ];
    let mut remote = HeaderMap::new();
    for name in names {
        remote.append(name, format!("1 {}", name).parse().unwrap());
        remote.append(name, format!("2 {}", name).parse().unwrap());
    }
    remote.append("Set-Cookie", "secret".parse().unwrap());
    remote.append("Vary", "Accept".parse().unwrap());
    let fetch = fetch_of(on_file("webpublic-a", true, link("http://r/f"), None, ""));
    let head = on_remote(fetch, 206, &remote);
    assert_eq!(head.status, 200);
    for name in names {
        assert_eq!(get(&head.headers, name), vec![format!("1 {}", name), format!("2 {}", name)]);
    }
    assert_eq!(get(&head.headers, "X-Remote-Status"), vec!["206"]);
    assert_eq!(get(&head.headers, "Vary"), vec!["Origin"]);
    assert!(get(&head.headers, "Set-Cookie").is_empty());
    assert_eq!(head.headers.len(), 18 + 4);
}

#[test]
fn remote_values_are_made_text() {
    let mut remote = HeaderMap::new();
    remote.append("Etag", HeaderValue::from_bytes(b"a\xffb\tc").unwrap());
    let mut headers = HeaderMap::new();
    add_remote_header("Etag", &mut headers, &remote);
    assert_eq!(get(&headers, "Etag"), vec!["a\u{fffd}b\tc"]);
}

#[test]
fn remote_statuses() {
    let cases = [
        (100, 502),
        (199, 502),
        (200, 200),
        (204, 200),
        (299, 200),
        (300, 502),
        (301, 502),
        (304, 304),
        (404, 502),
        (500, 502),
    ];
    for (remote, expected) in cases {
        let fetch = fetch_of(on_file("webpublic-a", true, link("u"), None, ""));
        assert_eq!(on_remote(fetch, remote, &HeaderMap::new()).status, expected);
    }
}

#[test]
fn remote_errors() {
    let reply = on_remote_error("no route".to_string());
    assert_eq!(reply.status, 502);
    assert_eq!(reply.body.as_deref(), Some("no route"));
    assert!(reply.headers.is_empty());
}

#[test]
fn fixed_replies() {
    let reply = root_reply();
    assert_eq!(reply.status, 204);
    assert!(reply.headers.is_empty() && reply.body.is_none());
    let reply = ping_reply(&PingStatus { ms: 1, ok: true });
    assert_eq!(reply.status, 200);
    assert_eq!(reply.headers.len(), 1);
    assert_eq!(get(&reply.headers, "content-type"), vec!["application/json"]);
    assert_eq!(reply.body.as_deref(), Some("{\"ms\":1,\"ok\":true}"));
}

#[test]
fn other_paths_fail() {
    let job = match on_cache("avatar.png", None) {
        AfterCache::Ask(job) => job,
        AfterCache::Hit(_) => panic!("hit"),
    };
    let request = files_proxy::wire::Request {
        request_type: job.type_id,
        _reserved: [0],
        id: 2,
        body: vec![],
    };
    match files_proxy::agent::lookup(&request) {
        files_proxy::agent::Lookup::Done(res) => {
            let after = on_agent_with("avatar.png", true, None, answer(res.status, None), "e");
            assert!(after.store.is_none());
            assert_eq!(get(&reply_of(after).headers, "X-AgentStatus"), vec!["501"]);
        }
        _ => panic!("looked up"),
    }
}

#[test]
fn room_in_a_header_map() {
    let mut headers = HeaderMap::new();
    assert!(room_for(&headers, 5));
    for i in 0..6552 {
        let name: axum::http::HeaderName = format!("x-{}", i).parse().unwrap();
        headers.append(name, "v".parse().unwrap());
    }
    assert!(room_for(&headers, 2));
    assert!(!room_for(&headers, 3));
}

#[test]
fn thumbnail_parameter_decodes_to_the_address() {
    let uri = "http://r/?a=1&b=%20#\u{3042}\u{1f600} +";
    let reply = parse_reply(on_file("thumbnail-a", false, link(uri), None, "http://m/"));
    let location = get(&reply.headers, "Location").remove(0);
    let param = location.strip_prefix("http://m/static.webp?url=").unwrap();
    let param = param.strip_suffix("&static=1").unwrap();
    assert!(!param.contains('&'));
    assert_eq!(urlencoding::decode(param).unwrap(), uri);
}

#[test]
fn addresses_of_files() {
    let base = "http://l/".to_string();
    assert_eq!(file_address("p", &link("http://r/f"), Some(&base)).unwrap(), "http://r/f");
    assert_eq!(file_address("p", &link(""), None).unwrap(), "");
    assert_eq!(file_address("p", &local(), Some(&base)).unwrap(), "http://l/p");
    assert!(file_address("p", &local(), None).is_none());
}

#[test]
fn cache_serves_the_same_reply() {
    let after = on_agent("webpublic-a", true, Some(9), answer(200, Some("known")));
    let stored = after.store.unwrap();
    assert_eq!((stored.key.as_str(), stored.ttl), ("webpublic-a", Some(9)));
    let first_text = match after.next {
        AgentNext::Json(text) => text,
        AgentNext::Reply(_) => panic!("no text"),
    };
    let second_text = match on_cache("webpublic-a", Some(stored.value)) {
        AfterCache::Hit(text) => text,
        AfterCache::Ask(_) => panic!("no hit"),
    };
    assert_eq!(first_text.json(), second_text.json());
    let mut remote = HeaderMap::new();
    remote.append("Etag", "\"e\"".parse().unwrap());
    remote.append("Server", "s".parse().unwrap());
    let mut heads = Vec::new();
    for (text, expected) in [(&first_text, "false"), (&second_text, "true")] {
        let file = Some(link("http://r/f"));
        let fetch = fetch_of(on_parse("webpublic-a", text, file, None, "m"));
        assert_eq!(fetch.url, "http://r/f");
        let mut head = on_remote(fetch, 200, &remote);
        assert_eq!(get(&head.headers, "X-FileProxy-Hit"), vec![expected]);
        head.headers.remove("X-FileProxy-Hit");
        heads.push((head.status, head.headers));
    }
    assert_eq!(heads[0], heads[1]);
}
