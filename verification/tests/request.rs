use files_proxy::http::{AfterParse, CacheWrite, Reply, ResponseJson};
use files_proxy::request::{CacheStep, Deployment, FileRequest, KnownFile, TextStep};
use files_proxy::wire::AgentResult;

fn deployment(has_cache: bool) -> Deployment {
    Deployment {
        has_cache,
        ttl: Some(7),
        local_media_url: Some("http://l/".to_string()),
        media_proxy_url: "http://m/".to_string(),
    }
}

fn from_cache<'a>(path: &str, json: &str, deployment: &'a Deployment) -> KnownFile<'a> {
    match FileRequest::new(path.to_string(), deployment).on_cached(Some(json.to_string())) {
        CacheStep::Known(known) => known,
        _ => panic!("not known"),
    }
}

fn from_agent<'a>(
    path: &str,
    status: u16,
    json: Option<&str>,
    deployment: &'a Deployment,
) -> (Option<CacheWrite>, TextStep<'a>) {
    let request = FileRequest::new(path.to_string(), deployment);
    assert_eq!(request.path(), path);
    match request.on_cached(None) {
        CacheStep::Ask(asked, job) => {
            assert_eq!(job.localpath.as_deref(), Some(path));
            let json = json.map(|j| j.to_string());
            let step = asked.on_answer(Some(AgentResult { id: 1, status, json }));
            (step.store, step.next)
        }
        _ => panic!("agent not asked"),
    }
}

fn reply_of(step: TextStep) -> Reply {
    match step {
        TextStep::Reply(reply) => reply,
        TextStep::Known(_) => panic!("known"),
    }
}

fn linked() -> Option<ResponseJson> {
    Some(ResponseJson { uri: "http://r/f".to_string(), link: true })
}

#[test]
fn empty_text_in_the_cache_is_nothing_to_serve() {
    let site = deployment(true);
    match FileRequest::new("webpublic-a".to_string(), &site).on_cached(Some(String::new())) {
        CacheStep::Reply(reply) => assert_eq!(reply.status, 204),
        _ => panic!("no reply"),
    }
}

#[test]
fn empty_answer_is_nothing_to_serve() {
    let site = deployment(true);
    let (store, step) = from_agent("webpublic-a", 200, None, &site);
    assert_eq!(store.unwrap().value, "");
    assert_eq!(reply_of(step).status, 204);
}

#[test]
fn request_keeps_its_path() {
    let site = deployment(true);
    let (store, step) = from_agent("webpublic-a", 200, Some("known"), &site);
    let store = store.unwrap();
    assert_eq!((store.key.as_str(), store.value.as_str()), ("webpublic-a", "known"));
    assert_eq!(store.ttl, Some(7));
    let known = match step {
        TextStep::Known(known) => known,
        TextStep::Reply(_) => panic!("reply"),
    };
    assert_eq!(known.json(), "known");
    let local = ResponseJson { uri: String::new(), link: false };
    assert_eq!(known.address(&local).unwrap(), "http://l/webpublic-a");
    assert!(known.can_serve(&local));
    match known.on_parsed(Some(local)) {
        AfterParse::Fetch(fetch) => {
            assert_eq!(fetch.url, "http://l/webpublic-a");
            assert_eq!(fetch.headers["X-FileProxy-Hit"], "false");
        }
        AfterParse::Reply(_) => panic!("reply"),
    }
}

#[test]
fn request_from_the_cache_is_a_hit() {
    let site = deployment(true);
    match from_cache("webpublic-a", "known", &site).on_parsed(linked()) {
        AfterParse::Fetch(fetch) => {
            assert_eq!(fetch.url, "http://r/f");
            assert_eq!(fetch.headers["X-FileProxy-Hit"], "true");
        }
        AfterParse::Reply(_) => panic!("reply"),
    }
    match from_cache("thumbnail-a", "known", &site).on_parsed(linked()) {
        AfterParse::Reply(reply) => {
            assert_eq!(reply.status, 301);
            let location = "http://m/static.webp?url=http%3A%2F%2Fr%2Ff&static=1";
            assert_eq!(reply.headers["Location"], location);
        }
        AfterParse::Fetch(_) => panic!("fetch"),
    }
}

#[test]
fn unreadable_text_is_a_failure() {
    let site = deployment(true);
    match from_cache("webpublic-a", "{", &site).on_parsed(None) {
        AfterParse::Reply(reply) => {
            assert_eq!(reply.status, 502);
            assert_eq!(reply.headers["X-EventId"].len(), 36);
        }
        AfterParse::Fetch(_) => panic!("fetch"),
    }
}

#[test]
fn failing_answers_end_the_request() {
    let site = deployment(true);
    for (status, expected, stored) in [(404, 404, false), (204, 502, true), (500, 502, false)] {
        let (store, step) = from_agent("webpublic-a", status, Some("x"), &site);
        assert_eq!(store.is_some(), stored);
        assert_eq!(reply_of(step).status, expected);
    }
    let request = FileRequest::new("webpublic-a".to_string(), &site);
    match request.on_cached(None) {
        CacheStep::Ask(asked, _) => {
            let step = asked.on_answer(None);
            assert!(step.store.is_none());
            assert_eq!(reply_of(step.next).status, 504);
        }
        _ => panic!("agent not asked"),
    }
}

#[test]
fn nothing_to_write_without_a_cache() {
    let site = deployment(false);
    let (store, step) = from_agent("webpublic-a", 200, Some("known"), &site);
    assert!(store.is_none());
    assert!(matches!(step, TextStep::Known(_)));
}

#[test]
fn addresses_that_are_no_header_text() {
    let site = deployment(true);
    let known = from_cache("webpublic-a", "known", &site);
    assert!(!known.can_serve(&ResponseJson { uri: "a\nb".to_string(), link: true }));
    assert!(known.can_serve(&ResponseJson { uri: "a\nb".to_string(), link: false }));
}
