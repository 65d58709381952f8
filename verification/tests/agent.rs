use files_proxy::agent::{
    found, has_key, lookup, on_read, on_response, on_written, ConfigFile, DriveFile, Lookup,
    ReadNext, ResponseJson, WriteNext,
};
use files_proxy::config;
use files_proxy::wire::{read_request, req, res, Request, RequestJob, Response};

fn file(src: Option<&str>) -> DriveFile {
    DriveFile {
        thumbnailAccessKey: "t".to_string(),
        webpublicAccessKey: "w".to_string(),
        src: src.map(|s| s.to_string()),
    }
}

fn request(request_type: u8, body: Vec<u8>) -> Request {
    Request { request_type, _reserved: [0], id: 6, body }
}

#[test]
fn file_becomes_its_address() {
    assert_eq!(ResponseJson::from(file(Some("http://a"))).uri, "http://a");
    assert_eq!(ResponseJson::from(file(None)).uri, "");
}

#[test]
fn lookups_by_kind() {
    let body = vec![0, 2, b'a', b'b'];
    assert!(matches!(lookup(&request(1, body.clone())), Lookup::Webpublic(n) if n == "ab"));
    assert!(matches!(lookup(&request(2, body)), Lookup::Thumbnail(n) if n == "ab"));
    match lookup(&request(3, vec![])) {
        Lookup::Done(r) => assert_eq!((r.status, r.id, r.json), (204, 6, None)),
        _ => panic!("not done"),
    }
    for kind in [0u8, 4, 255] {
        match lookup(&request(kind, vec![])) {
            Lookup::Done(r) => assert_eq!((r.status, r.id, r.json), (501, 6, None)),
            _ => panic!("not done"),
        }
    }
}

#[test]
fn name_is_what_follows_two_bytes() {
    assert!(matches!(lookup(&request(1, vec![9, 9])), Lookup::Webpublic(n) if n.is_empty()));
    match lookup(&request(1, vec![0, 3, b'a', 0xFF, b'b'])) {
        Lookup::Webpublic(n) => assert_eq!(n, "a\u{fffd}b"),
        _ => panic!("not a key"),
    }
}

#[test]
fn found_files() {
    let r = found(3, Some(file(Some("http://x/y"))));
    assert_eq!((r.status, r.id), (200, 3));
    assert_eq!(r.json.as_deref(), Some("{\"uri\":\"http://x/y\"}"));
    let r = found(4, Some(file(None)));
    assert_eq!(r.json.as_deref(), Some("{\"uri\":\"\"}"));
    let r = found(5, None);
    assert_eq!((r.status, r.id, r.json), (500, 5, None));
}

#[test]
fn json_escapes() {
    let r = found(0, Some(file(Some("\"\\/\u{8}\u{c}\n\r\t\u{1}\u{1f}\u{7f}\u{3042}"))));
    assert_eq!(
        r.json.as_deref(),
        Some("{\"uri\":\"\\\"\\\\/\\b\\f\\n\\r\\t\\u0001\\u001f\u{7f}\u{3042}\"}")
    );
}

#[test]
fn reading_side() {
    match on_read(Some(request(1, vec![1]))) {
        ReadNext::Forward(r) => assert_eq!((r.request_type, r.id, r.body), (1, 6, vec![1])),
        ReadNext::End(_) => panic!("ended"),
    }
    match on_read(None) {
        ReadNext::End(r) => assert_eq!((r.status, r.id, r.json), (0, 0, None)),
        ReadNext::Forward(_) => panic!("forwarded"),
    }
}

#[test]
fn writing_side() {
    assert!(matches!(on_response(None), WriteNext::Wait));
    assert!(matches!(
        on_response(Some(Response { status: 0, id: 1, json: None })),
        WriteNext::End
    ));
    match on_response(Some(Response { status: 204, id: 1, json: None })) {
        WriteNext::Write(frame) => assert_eq!(frame, vec![0, 204, 0, 0, 0, 1, 0, 0]),
        _ => panic!("no frame"),
    }
}

#[test]
fn job_to_result() {
    let job = RequestJob { type_id: 2, localpath: Some("thumbnail-\u{3042}".to_string()) };
    let (request, _) = match read_request(&req(&job, 99)) {
        Ok(r) => r,
        Err(_) => panic!("incomplete"),
    };
    let name = match lookup(&request) {
        Lookup::Thumbnail(name) => name,
        _ => panic!("not a thumbnail"),
    };
    assert_eq!(name, "thumbnail-\u{3042}");
    let frame = match on_response(Some(found(request.id, Some(file(Some("u")))))) {
        WriteNext::Write(frame) => frame,
        _ => panic!("no frame"),
    };
    let (result, _) = match res(&frame) {
        Ok(r) => r,
        Err(_) => panic!("incomplete"),
    };
    assert_eq!((result.id, result.status), (99, 200));
    assert_eq!(result.json.as_deref(), Some("{\"uri\":\"u\"}"));
}

#[test]
fn addresses() {
    let config = ConfigFile {
        pg_user: "u".to_string(),
        pg_pass: "p".to_string(),
        pg_host: "db".to_string(),
        pg_port: 5432,
        pg_database: "misskey".to_string(),
        tcp_host: "proxy".to_string(),
        tcp_port: 23725,
    };
    assert_eq!(config.database_url(), "postgresql://u:p@db:5432/misskey");
    assert_eq!(config.proxy_address(), "proxy:23725");
}

#[test]
fn config_paths() {
    assert_eq!(config::config_path(None), "config.json");
    assert_eq!(config::config_path(Some(String::new())), "config.json");
    assert_eq!(config::config_path(Some("/etc/x.json".to_string())), "/etc/x.json");
}

#[test]
fn initial_config() {
    let mut c = config::ConfigFile::initial();
    assert_eq!(c.redis_addr, None);
    assert_eq!(c.redis_ttl, Some(3600));
    assert_eq!(c.http_bind_addr, "0.0.0.0:8080");
    assert_eq!(c.agent_bind_addr, "0.0.0.0:23725");
    assert_eq!(c.agent_timeout, 1000);
    assert_eq!(c.user_agent.as_deref(), Some("https://github.com/yojo-art/files-proxy"));
    assert_eq!(c.local_media_url.as_deref(), Some("http://localhost:3000"));
    assert_eq!(c.ping_wait_ms, 30000);
    assert!(c.pings());
    c.ping_wait_ms = 0;
    assert!(!c.pings());
}

#[test]
fn json_text_reads_back() {
    let all: String = (0u32..0x250).filter_map(char::from_u32).collect();
    let json = found(0, Some(file(Some(&all)))).json.unwrap();
    let object: std::collections::BTreeMap<String, String> = serde_json::from_str(&json).unwrap();
    assert_eq!(object.len(), 1);
    assert_eq!(object["uri"], all);
}

#[test]
fn answers_keep_their_id() {
    for kind in [3u8, 7] {
        match lookup(&Request { request_type: kind, _reserved: [0], id: 0xABCD, body: vec![] }) {
            Lookup::Done(res) => {
                assert_eq!(res.id, 0xABCD);
                assert_eq!(res.status, if kind == 3 { 204 } else { 501 });
                assert_eq!(res.json, None);
            }
            _ => panic!("not done"),
        }
    }
    let res = found(0xABCD, None);
    assert_eq!((res.id, res.status, res.json), (0xABCD, 500, None));
    let res = found(0xABCD, Some(file(None)));
    assert_eq!((res.id, res.status), (0xABCD, 200));
    assert!(!res.json.unwrap().is_empty());
}

#[test]
fn keys_have_room_for_their_length() {
    for kind in [1u8, 2] {
        assert!(!has_key(&request(kind, vec![])));
        assert!(!has_key(&request(kind, vec![0])));
        assert!(has_key(&request(kind, vec![0, 0])));
    }
    for kind in [0u8, 3, 4] {
        assert!(has_key(&request(kind, vec![])));
    }
}

#[test]
fn failed_write_ends_the_connection() {
    assert!(matches!(on_written(true), WriteNext::Wait));
    assert!(matches!(on_written(false), WriteNext::End));
}
