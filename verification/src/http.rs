//! The HTTP side of the proxy: what becomes of a request for a file.
//!
//! A request goes through stages, and between them the outside is asked: the
//! cache, the agent, the JSON parser, the remote server. Each stage is a
//! function from what is known to what is done next.

use axum::http::{HeaderMap, HeaderValue};
use vstd::prelude::*;
use vstd::string::*;
use vstd::utf8::*;

use crate::headers::{
    add_remote_header, append_header, appended_text, ascii_text, distinct_keys, first_is_visible,
    has_room, header_char, header_contents, header_key, header_name, header_text, header_text_of,
    is_header_text, lemma_key_differs, lemma_room, lemma_room_all, no_contents, no_headers,
    values_of, visible_byte, with_remote_header, Contents,
};
use crate::ping::{ping_json, ping_json_of, PingStatus};
use crate::text::{
    bool_text, bool_word, decimal, decimal_text, event_id_char, is_event_id,
    law_percent_encoded_chars, lemma_decimal_digits, new_event_id, percent_char, percent_encode,
    percent_encoded, starts_with,
};
use crate::wire::{opt_view, AgentResult, JobView, RequestJob, ResponseView};

verus! {

/// What the agent says of a file, once it is parsed.
#[derive(Debug)]
pub struct ResponseJson {
    pub uri: String,
    pub link: bool,
}

/// The contents of a [`ResponseJson`].
#[verifier::ext_equal]
pub struct ResponseJsonView {
    pub uri: Seq<char>,
    pub link: bool,
}

impl View for ResponseJson {
    type V = ResponseJsonView;

    open spec fn view(&self) -> ResponseJsonView {
        ResponseJsonView { uri: self.uri@, link: self.link }
    }
}

/// An answer to an HTTP request. Without a body there is no content type
/// either.
pub struct Reply {
    pub status: u16,
    pub headers: HeaderMap<HeaderValue>,
    pub body: Option<String>,
}

/// The contents of a [`Reply`].
#[verifier::ext_equal]
pub struct ReplyView {
    pub status: u16,
    pub headers: Contents,
    pub body: Option<Seq<char>>,
}

impl View for Reply {
    type V = ReplyView;

    open spec fn view(&self) -> ReplyView {
        ReplyView {
            status: self.status,
            headers: header_contents(self.headers),
            body: opt_view(self.body),
        }
    }
}

/// The characters of an optional string that is borrowed.
pub open spec fn opt_ref_view(s: Option<&String>) -> Option<Seq<char>> {
    match s {
        Some(t) => Some(t@),
        None => None,
    }
}

/// The kind of request that a path makes: 1 for a published file, 2 for a
/// thumbnail, 4 for anything else.
pub open spec fn type_id_of(path: Seq<char>) -> u8 {
    if "webpublic-"@.is_prefix_of(path) {
        1
    } else if "thumbnail-"@.is_prefix_of(path) {
        2
    } else {
        4
    }
}

proof fn lemma_prefixes_differ(path: Seq<char>)
    ensures
        !("webpublic-"@.is_prefix_of(path) && "thumbnail-"@.is_prefix_of(path)),
{
    reveal_strlit("webpublic-");
    reveal_strlit("thumbnail-");
    if "webpublic-"@.is_prefix_of(path) && "thumbnail-"@.is_prefix_of(path) {
        assert(path.take(10)[0] == 'w');
        assert(path.take(10)[0] == 't');
    }
}

/// The kind of request that a path makes.
pub fn type_id(path: &str) -> (id: u8)
    ensures
        id == type_id_of(path@),
        id == 1 <==> exists|rest: Seq<char>| path@ == #[trigger] ("webpublic-"@ + rest),
        id == 2 <==> exists|rest: Seq<char>| path@ == #[trigger] ("thumbnail-"@ + rest),
        id == 1 || id == 2 || id == 4,
{
    proof {
        lemma_prefixes_differ(path@);
    }
    if starts_with(path, "webpublic-") {
        1
    } else if starts_with(path, "thumbnail-") {
        2
    } else {
        4
    }
}

/// The text known of a file, and whether it came from the cache.
pub struct FileText {
    json: String,
    redis_hit: bool,
}

/// The contents of a [`FileText`].
#[verifier::ext_equal]
pub struct FileTextView {
    pub json: Seq<char>,
    pub redis_hit: bool,
}

impl View for FileText {
    type V = FileTextView;

    closed spec fn view(&self) -> FileTextView {
        FileTextView { json: self.json@, redis_hit: self.redis_hit }
    }
}

impl FileText {
    /// The text.
    pub fn json(&self) -> (text: &str)
        ensures
            text@ == self@.json,
    {
        self.json.as_str()
    }
}

/// What to do once the cache was asked: go on with the text it held, or ask
/// the agent.
pub enum AfterCache {
    Hit(FileText),
    Ask(RequestJob),
}

/// The contents of an [`AfterCache`].
#[verifier::ext_equal]
pub enum AfterCacheView {
    Hit(FileTextView),
    Ask(JobView),
}

impl View for AfterCache {
    type V = AfterCacheView;

    open spec fn view(&self) -> AfterCacheView {
        match self {
            AfterCache::Hit(text) => AfterCacheView::Hit(text@),
            AfterCache::Ask(job) => AfterCacheView::Ask(job@),
        }
    }
}

/// What to do with what the cache held for a path.
pub open spec fn after_cache(path: Seq<char>, cached: Option<Seq<char>>) -> AfterCacheView {
    match cached {
        Some(json) => AfterCacheView::Hit(FileTextView { json, redis_hit: true }),
        None => AfterCacheView::Ask(JobView { type_id: type_id_of(path), localpath: Some(path) }),
    }
}

/// Decides what to do with what the cache held for a path.
pub fn on_cache(path: &str, cached: Option<String>) -> (next: AfterCache)
    ensures
        next@ == after_cache(path@, opt_view(cached)),
        cached matches Some(json) ==> (next matches AfterCache::Hit(text) && text@.json == json@
            && text@.redis_hit),
        cached is None ==> (next matches AfterCache::Ask(job) && (job.localpath matches Some(asked)
            && asked@ == path@)),
{
    match cached {
        Some(json) => AfterCache::Hit(FileText { json, redis_hit: true }),
        None => AfterCache::Ask(
            RequestJob { type_id: type_id(path), localpath: Some(path.to_owned()) },
        ),
    }
}

/// A text to put into the cache, for `ttl` seconds or for good.
pub struct CacheWrite {
    pub key: String,
    pub value: String,
    pub ttl: Option<u64>,
}

/// The contents of a [`CacheWrite`].
#[verifier::ext_equal]
pub struct CacheWriteView {
    pub key: Seq<char>,
    pub value: Seq<char>,
    pub ttl: Option<u64>,
}

/// What to do once the agent was asked: first the write to the cache, if any,
/// then either go on with the text of the answer or reply.
pub struct AfterAgent {
    pub store: Option<CacheWrite>,
    pub next: AgentNext,
}

/// What follows an answer of the agent.
pub enum AgentNext {
    Json(FileText),
    Reply(Reply),
}

/// The contents of an [`AfterAgent`].
#[verifier::ext_equal]
pub struct AfterAgentView {
    pub store: Option<CacheWriteView>,
    pub next: AgentNextView,
}

/// The contents of an [`AgentNext`].
#[verifier::ext_equal]
pub enum AgentNextView {
    Json(FileTextView),
    Reply(ReplyView),
}

impl View for AfterAgent {
    type V = AfterAgentView;

    open spec fn view(&self) -> AfterAgentView {
        AfterAgentView {
            store: match self.store {
                Some(w) => Some(CacheWriteView { key: w.key@, value: w.value@, ttl: w.ttl }),
                None => None,
            },
            next: match self.next {
                AgentNext::Json(text) => AgentNextView::Json(text@),
                AgentNext::Reply(reply) => AgentNextView::Reply(reply@),
            },
        }
    }
}

/// The text that an answer of the agent amounts to: its own for status 200, an
/// empty one for status 204 or where it has none, and none for other statuses.
pub open spec fn answer_json(answer: ResponseView) -> Option<Seq<char>> {
    if answer.status == 200 {
        match answer.json {
            Some(json) => Some(json),
            None => Some(Seq::empty()),
        }
    } else if answer.status == 204 {
        Some(Seq::empty())
    } else {
        None
    }
}

/// The write to the cache that an answer asks for, where there is a cache.
pub open spec fn cache_write(
    path: Seq<char>,
    has_cache: bool,
    ttl: Option<u64>,
    answer: ResponseView,
) -> Option<CacheWriteView> {
    match answer_json(answer) {
        Some(json) if has_cache => Some(CacheWriteView { key: path, value: json, ttl }),
        _ => None,
    }
}

/// A reply with a status alone.
pub open spec fn bare_reply(status: u16) -> ReplyView {
    ReplyView { status, headers: no_contents(), body: None }
}

/// The reply where the agent does not know the file.
pub open spec fn unknown_file(status: u16) -> ReplyView {
    ReplyView {
        status: 404,
        headers: appended_text(no_contents(), "X-AgentStatus"@, decimal(status as nat)),
        body: None,
    }
}

/// The reply where the agent fails.
pub open spec fn agent_failure(status: u16, event_id: Seq<char>) -> ReplyView {
    ReplyView {
        status: 502,
        headers: appended_text(
            appended_text(no_contents(), "X-EventId"@, event_id),
            "X-AgentStatus"@,
            decimal(status as nat),
        ),
        body: None,
    }
}

/// The reply where the text of the agent is not understood.
pub open spec fn parse_failure(event_id: Seq<char>) -> ReplyView {
    ReplyView {
        status: 502,
        headers: appended_text(no_contents(), "X-EventId"@, event_id),
        body: None,
    }
}

/// What to do with an answer of the agent, or with none in time. Status 404 is
/// passed on, every other status but 200 is a failure under an event id.
pub open spec fn after_agent(
    path: Seq<char>,
    has_cache: bool,
    ttl: Option<u64>,
    answer: Option<ResponseView>,
    event_id: Seq<char>,
) -> AfterAgentView {
    match answer {
        None => AfterAgentView {
            store: None,
            next: AgentNextView::Reply(
                ReplyView { status: 504, headers: no_contents(), body: Some(Seq::empty()) },
            ),
        },
        Some(res) => AfterAgentView {
            store: cache_write(path, has_cache, ttl, res),
            next: if res.status == 404 {
                AgentNextView::Reply(unknown_file(res.status))
            } else if res.status != 200 {
                AgentNextView::Reply(agent_failure(res.status, event_id))
            } else {
                AgentNextView::Json(
                    FileTextView { json: answer_json(res).unwrap(), redis_hit: false },
                )
            },
        },
    }
}

/// The answer is a failure that gets an event id.
pub open spec fn agent_failed(answer: Option<ResponseView>) -> bool {
    answer matches Some(res) && res.status != 404 && res.status != 200
}

/// The characters of the answer that the agent gave, if any.
pub open spec fn answer_view(answer: Option<AgentResult>) -> Option<ResponseView> {
    match answer {
        Some(res) => Some(res@),
        None => None,
    }
}

proof fn lemma_names()
    ensures
        header_name("X-AgentStatus"@),
        header_name("X-EventId"@),
        header_name("X-FileProxy-Hit"@),
        header_name("X-Remote-Url"@),
        header_name("X-Remote-Status"@),
        header_name("Vary"@),
        header_name("Location"@),
        header_name("Content-Type"@),
{
    reveal_strlit("X-AgentStatus");
    reveal_strlit("X-EventId");
    reveal_strlit("X-FileProxy-Hit");
    reveal_strlit("X-Remote-Url");
    reveal_strlit("X-Remote-Status");
    reveal_strlit("Vary");
    reveal_strlit("Location");
    reveal_strlit("Content-Type");
}

proof fn lemma_decimal_header(n: nat)
    ensures
        header_text(decimal(n)),
{
    lemma_decimal_digits(n);
}

proof fn lemma_event_id_header(id: Seq<char>)
    requires
        is_event_id(id),
    ensures
        header_text(id),
{
    assert forall|i: int| 0 <= i < id.len() implies header_char(#[trigger] id[i]) by {
        assert(event_id_char(i, id[i]));
    }
}

/// A reply with a status alone.
fn bare(status: u16) -> (reply: Reply)
    ensures
        reply@ == bare_reply(status),
{
    Reply { status, headers: no_headers(), body: None }
}

/// Decides what to do with an answer of the agent, under a given event id.
pub fn on_agent_with(
    path: &str,
    has_cache: bool,
    ttl: Option<u64>,
    answer: Option<AgentResult>,
    event_id: &str,
) -> (next: AfterAgent)
    requires
        agent_failed(answer_view(answer)) ==> header_text(event_id@),
    ensures
        next@ == after_agent(path@, has_cache, ttl, answer_view(answer), event_id@),
        next.store is Some <==> has_cache && (answer matches Some(res) && (res.status == 200
            || res.status == 204)),
        next.store matches Some(write) ==> write.key@ == path@ && write.ttl == ttl,
        answer matches Some(res) ==> (next.next is Json <==> res.status == 200),
        next.next matches AgentNext::Json(text) ==> !text@.redis_hit && match answer->0.json {
            Some(json) => text@.json == json@,
            None => text@.json.len() == 0,
        },
        next.store matches Some(write) ==> match next.next {
            AgentNext::Json(text) => write.value@ == text@.json,
            AgentNext::Reply(_) => write.value@.len() == 0,
        },
        next.next matches AgentNext::Reply(reply) ==> reply.status == (match answer {
            None => 504u16,
            Some(res) => if res.status == 404 {
                404u16
            } else {
                502u16
            },
        }),
{
    proof {
        lemma_names();
    }
    let res = match answer {
        Some(res) => res,
        None => {
            let reply = Reply { status: 504, headers: no_headers(), body: Some(String::new()) };
            return AfterAgent { store: None, next: AgentNext::Reply(reply) };
        },
    };
    let status = res.status;
    let res_json = match status {
        200 => match res.json {
            Some(json) => Some(json),
            None => Some(String::new()),
        },
        204 => Some(String::new()),
        _ => None,
    };
    let store = match &res_json {
        Some(json) if has_cache => Some(
            CacheWrite { key: path.to_owned(), value: json.clone(), ttl },
        ),
        _ => None,
    };
    if status == 404 {
        let mut headers = no_headers();
        let text = decimal_text(status as u64);
        proof {
            lemma_decimal_header(status as nat);
        }
        append_header(&mut headers, "X-AgentStatus", text.as_str());
        let reply = Reply { status: 404, headers, body: None };
        return AfterAgent { store, next: AgentNext::Reply(reply) };
    }
    if status != 200 {
        let mut headers = no_headers();
        let text = decimal_text(status as u64);
        proof {
            lemma_decimal_header(status as nat);
            lemma_room(no_contents(), "X-EventId"@, encode_utf8(event_id@), 2);
        }
        append_header(&mut headers, "X-EventId", event_id);
        append_header(&mut headers, "X-AgentStatus", text.as_str());
        let reply = Reply { status: 502, headers, body: None };
        return AfterAgent { store, next: AgentNext::Reply(reply) };
    }
    match res_json {
        Some(json) => AfterAgent {
            store,
            next: AgentNext::Json(FileText { json, redis_hit: false }),
        },
        None => AfterAgent { store, next: AgentNext::Reply(bare(204)) },
    }
}

/// Whether an answer is a failure that gets an event id.
fn has_failed(answer: &Option<AgentResult>) -> (r: bool)
    ensures
        r == agent_failed(answer_view(*answer)),
{
    match answer {
        Some(res) => res.status != 404 && res.status != 200,
        None => false,
    }
}

/// Decides what to do with an answer of the agent. A failure gets a fresh event
/// id.
pub fn on_agent(
    path: &str,
    has_cache: bool,
    ttl: Option<u64>,
    answer: Option<AgentResult>,
) -> (next: AfterAgent)
    ensures
        exists|event_id: Seq<char>|
            (agent_failed(answer_view(answer)) ==> is_event_id(event_id)) && next@
                == #[trigger] after_agent(path@, has_cache, ttl, answer_view(answer), event_id),
        next.store is Some <==> has_cache && (answer matches Some(res) && (res.status == 200
            || res.status == 204)),
        next.store matches Some(write) ==> write.key@ == path@ && write.ttl == ttl,
        answer matches Some(res) ==> (next.next is Json <==> res.status == 200),
        next.next matches AgentNext::Json(text) ==> !text@.redis_hit && match answer->0.json {
            Some(json) => text@.json == json@,
            None => text@.json.len() == 0,
        },
        next.store matches Some(write) ==> match next.next {
            AgentNext::Json(text) => write.value@ == text@.json,
            AgentNext::Reply(_) => write.value@.len() == 0,
        },
        next.next matches AgentNext::Reply(reply) ==> reply.status == (match answer {
            None => 504u16,
            Some(res) => if res.status == 404 {
                404u16
            } else {
                502u16
            },
        }),
{
    let event_id = if has_failed(&answer) {
        let id = new_event_id();
        proof {
            lemma_event_id_header(id@);
        }
        id
    } else {
        String::new()
    };
    on_agent_with(path, has_cache, ttl, answer, event_id.as_str())
}

/// What to do with the text known of a file: parse it, or reply.
pub enum AfterJson {
    Parse(FileText),
    Reply(Reply),
}

/// Decides what to do with the text known of a file: an empty one says that
/// there is nothing to serve.
pub fn on_json(text: FileText) -> (next: AfterJson)
    ensures
        text@.json.len() == 0 ==> (next matches AfterJson::Reply(reply) && reply@ == bare_reply(
            204,
        )),
        text@.json.len() != 0 ==> next == AfterJson::Parse(text),
        next matches AfterJson::Reply(reply) ==> reply.status == 204 && reply.body is None,
{
    if text.json.as_str().is_empty() {
        AfterJson::Reply(bare(204))
    } else {
        AfterJson::Parse(text)
    }
}

/// A file to fetch from `url`. `headers` are those of the reply so far.
pub struct Fetch {
    pub url: String,
    pub headers: HeaderMap<HeaderValue>,
}

impl Fetch {
    /// The reply has room for the headers that the remote answer adds.
    pub open spec fn wf(&self) -> bool {
        has_room(header_contents(self.headers), 11)
    }
}

/// What to do with a file once it is known: fetch it, or reply.
pub enum AfterParse {
    Fetch(Fetch),
    Reply(Reply),
}

/// The contents of an [`AfterParse`].
#[verifier::ext_equal]
pub enum AfterParseView {
    Fetch(Seq<char>, Contents),
    Reply(ReplyView),
}

impl View for AfterParse {
    type V = AfterParseView;

    open spec fn view(&self) -> AfterParseView {
        match self {
            AfterParse::Fetch(fetch) => AfterParseView::Fetch(
                fetch.url@,
                header_contents(fetch.headers),
            ),
            AfterParse::Reply(reply) => AfterParseView::Reply(reply@),
        }
    }
}

/// The address of a file: its own where it is a link, else that of the local
/// media server, if there is one, and the path.
pub open spec fn file_url(
    path: Seq<char>,
    file: ResponseJsonView,
    local_media_url: Option<Seq<char>>,
) -> Option<Seq<char>> {
    if file.link {
        Some(file.uri)
    } else {
        match local_media_url {
            Some(base) => Some(base + path),
            None => None,
        }
    }
}

/// Finds the address of a file, if it has one.
pub fn file_address(
    path: &str,
    file: &ResponseJson,
    local_media_url: Option<&String>,
) -> (url: Option<String>)
    ensures
        opt_view(url) == file_url(path@, file@, opt_ref_view(local_media_url)),
        file.link ==> (url matches Some(address) && address@ == file.uri@),
        !file.link && local_media_url is Some ==> (url matches Some(address) && address@
            == local_media_url->0@ + path@),
        !file.link && local_media_url is None ==> url is None,
{
    if file.link {
        Some(file.uri.clone())
    } else {
        match local_media_url {
            Some(base) => Some(base.clone().concat(path)),
            None => None,
        }
    }
}

/// The headers that every reply about a known file carries: whether it came
/// from the cache, where a link points, and that the reply varies by origin.
pub open spec fn file_headers(redis_hit: bool, link: bool, url: Seq<char>) -> Contents {
    let hit = appended_text(no_contents(), "X-FileProxy-Hit"@, bool_word(redis_hit));
    let linked = if link {
        appended_text(hit, "X-Remote-Url"@, url)
    } else {
        hit
    };
    appended_text(linked, "Vary"@, "Origin"@)
}

/// Where a thumbnail is served from: the media proxy, with the address of the
/// file as a parameter.
pub open spec fn thumbnail_location(media_proxy_url: Seq<char>, url: Seq<char>) -> Seq<char> {
    media_proxy_url + "static.webp?url="@ + percent_encoded(encode_utf8(url)) + "&static=1"@
}

/// What to do with a known file: a thumbnail is left to the media proxy, any
/// other file is fetched, and one that has no address is not found.
pub open spec fn after_file(
    path: Seq<char>,
    redis_hit: bool,
    file: ResponseJsonView,
    local_media_url: Option<Seq<char>>,
    media_proxy_url: Seq<char>,
) -> AfterParseView {
    match file_url(path, file, local_media_url) {
        None => AfterParseView::Reply(bare_reply(404)),
        Some(url) => {
            let headers = file_headers(redis_hit, file.link, url);
            if type_id_of(path) == 2 {
                AfterParseView::Reply(
                    ReplyView {
                        status: 301,
                        headers: appended_text(
                            headers,
                            "Location"@,
                            thumbnail_location(media_proxy_url, url),
                        ),
                        body: Some(Seq::empty()),
                    },
                )
            } else {
                AfterParseView::Fetch(url, headers)
            }
        },
    }
}

/// The characters of what was parsed, if anything was.
pub open spec fn parsed_view(parsed: Option<ResponseJson>) -> Option<ResponseJsonView> {
    match parsed {
        Some(file) => Some(file@),
        None => None,
    }
}

/// What to do with what was parsed of a text.
pub open spec fn after_parse(
    path: Seq<char>,
    redis_hit: bool,
    parsed: Option<ResponseJsonView>,
    local_media_url: Option<Seq<char>>,
    media_proxy_url: Seq<char>,
    event_id: Seq<char>,
) -> AfterParseView {
    match parsed {
        Some(file) => after_file(path, redis_hit, file, local_media_url, media_proxy_url),
        None => AfterParseView::Reply(parse_failure(event_id)),
    }
}

/// What goes into a header can stand there: the address of a link, and that of
/// the media proxy where a thumbnail is sent there.
pub open spec fn addresses_are_header_text(
    path: Seq<char>,
    file: ResponseJsonView,
    local_media_url: Option<Seq<char>>,
    media_proxy_url: Seq<char>,
) -> bool {
    &&& file.link ==> header_text(file.uri)
    &&& type_id_of(path) == 2 && file_url(path, file, local_media_url) is Some ==> header_text(
        media_proxy_url,
    )
}

/// Whether the addresses of a file can stand in the headers that they go into.
pub fn can_address(
    path: &str,
    file: &ResponseJson,
    local_media_url: Option<&String>,
    media_proxy_url: &str,
) -> (r: bool)
    ensures
        r == addresses_are_header_text(
            path@,
            file@,
            opt_ref_view(local_media_url),
            media_proxy_url@,
        ),
        r <==> (file.link ==> header_text(file.uri@)) && ("thumbnail-"@.is_prefix_of(path@) && (
        file.link || local_media_url is Some) ==> header_text(media_proxy_url@)),
{
    proof {
        lemma_prefixes_differ(path@);
    }
    if file.link && !is_header_text(file.uri.as_str()) {
        return false;
    }
    if type_id(path) == 2 && (file.link || local_media_url.is_some()) {
        return is_header_text(media_proxy_url);
    }
    true
}

proof fn lemma_header_text_concat(a: Seq<char>, b: Seq<char>)
    requires
        header_text(a),
        header_text(b),
    ensures
        header_text(a + b),
{
    assert forall|i: int| 0 <= i < (a + b).len() implies header_char(#[trigger] (a + b)[i]) by {
        if i < a.len() {
            assert((a + b)[i] == a[i]);
        } else {
            assert((a + b)[i] == b[i - a.len()]);
        }
    }
}

proof fn lemma_percent_char_header(c: char)
    requires
        percent_char(c),
    ensures
        header_char(c),
{
    let u = c as u32;
    if u < 128 {
        assert(u == c as u8 as u32);
    }
}

proof fn lemma_location_header(media_proxy_url: Seq<char>, url: Seq<char>)
    requires
        header_text(media_proxy_url),
    ensures
        header_text(thumbnail_location(media_proxy_url, url)),
{
    let encoded = percent_encoded(encode_utf8(url));
    reveal_strlit("static.webp?url=");
    reveal_strlit("&static=1");
    law_percent_encoded_chars(encode_utf8(url));
    assert(header_text(encoded)) by {
        assert forall|i: int| 0 <= i < encoded.len() implies header_char(
            #[trigger] encoded[i],
        ) by {
            assert(percent_char(encoded[i]));
            lemma_percent_char_header(encoded[i]);
        }
    }
    lemma_header_text_concat(media_proxy_url, "static.webp?url="@);
    lemma_header_text_concat(media_proxy_url + "static.webp?url="@, encoded);
    lemma_header_text_concat(media_proxy_url + "static.webp?url="@ + encoded, "&static=1"@);
}

/// Decides what to do with a known file.
pub fn on_file(
    path: &str,
    redis_hit: bool,
    file: ResponseJson,
    local_media_url: Option<&String>,
    media_proxy_url: &str,
) -> (next: AfterParse)
    requires
        addresses_are_header_text(
            path@,
            file@,
            opt_ref_view(local_media_url),
            media_proxy_url@,
        ),
    ensures
        next@ == after_file(
            path@,
            redis_hit,
            file@,
            opt_ref_view(local_media_url),
            media_proxy_url@,
        ),
        next matches AfterParse::Fetch(fetch) ==> fetch.wf(),
        next is Fetch <==> !"thumbnail-"@.is_prefix_of(path@) && (file.link || local_media_url
            is Some),
        next matches AfterParse::Fetch(fetch) ==> fetch.url@ == (if file.link {
            file.uri@
        } else {
            local_media_url->0@ + path@
        }),
        next matches AfterParse::Reply(reply) ==> reply.status == (if file.link || local_media_url
            is Some {
            301u16
        } else {
            404u16
        }),
{
    proof {
        lemma_prefixes_differ(path@);
        lemma_names();
        reveal_strlit("Origin");
        reveal_strlit("true");
        reveal_strlit("false");
    }
    let link = file.link;
    let url = match file_address(path, &file, local_media_url) {
        Some(url) => url,
        None => return AfterParse::Reply(bare(404)),
    };
    let mut headers = no_headers();
    let ghost c0 = header_contents(headers);
    append_header(&mut headers, "X-FileProxy-Hit", bool_text(redis_hit));
    proof {
        lemma_room(c0, "X-FileProxy-Hit"@, encode_utf8(bool_word(redis_hit)), 20);
    }
    let ghost c1 = header_contents(headers);
    if link {
        append_header(&mut headers, "X-Remote-Url", url.as_str());
        proof {
            lemma_room(c1, "X-Remote-Url"@, encode_utf8(url@), 19);
        }
    }
    let ghost c2 = header_contents(headers);
    append_header(&mut headers, "Vary", "Origin");
    proof {
        lemma_room(c2, "Vary"@, encode_utf8("Origin"@), 18);
    }
    if type_id(path) == 2 {
        let encoded = percent_encode(url.as_str());
        let location = media_proxy_url.to_owned().concat("static.webp?url=").concat(
            encoded.as_str(),
        ).concat("&static=1");
        proof {
            lemma_location_header(media_proxy_url@, url@);
        }
        append_header(&mut headers, "Location", location.as_str());
        return AfterParse::Reply(Reply { status: 301, headers, body: Some(String::new()) });
    }
    AfterParse::Fetch(Fetch { url, headers })
}

/// Decides what to do with what was parsed of a text, under a given event id.
pub fn on_parse_with(
    path: &str,
    text: &FileText,
    parsed: Option<ResponseJson>,
    local_media_url: Option<&String>,
    media_proxy_url: &str,
    event_id: &str,
) -> (next: AfterParse)
    requires
        parsed matches Some(file) ==> addresses_are_header_text(
            path@,
            file@,
            opt_ref_view(local_media_url),
            media_proxy_url@,
        ),
        parsed is None ==> header_text(event_id@),
    ensures
        next@ == after_parse(
            path@,
            text@.redis_hit,
            parsed_view(parsed),
            opt_ref_view(local_media_url),
            media_proxy_url@,
            event_id@,
        ),
        next matches AfterParse::Fetch(fetch) ==> fetch.wf(),
        next is Fetch <==> (parsed matches Some(file) && (file.link || local_media_url is Some)
            && !"thumbnail-"@.is_prefix_of(path@)),
        next matches AfterParse::Fetch(fetch) ==> fetch.url@ == (if parsed->0.link {
            parsed->0.uri@
        } else {
            local_media_url->0@ + path@
        }),
        next matches AfterParse::Reply(reply) ==> reply.status == (match parsed {
            None => 502u16,
            Some(file) => if file.link || local_media_url is Some {
                301u16
            } else {
                404u16
            },
        }),
{
    match parsed {
        Some(file) => on_file(path, text.redis_hit, file, local_media_url, media_proxy_url),
        None => {
            proof {
                lemma_names();
            }
            let mut headers = no_headers();
            append_header(&mut headers, "X-EventId", event_id);
            AfterParse::Reply(Reply { status: 502, headers, body: None })
        },
    }
}

/// Decides what to do with what was parsed of a text. Where nothing was, the
/// failure gets a fresh event id.
pub fn on_parse(
    path: &str,
    text: &FileText,
    parsed: Option<ResponseJson>,
    local_media_url: Option<&String>,
    media_proxy_url: &str,
) -> (next: AfterParse)
    requires
        parsed matches Some(file) ==> addresses_are_header_text(
            path@,
            file@,
            opt_ref_view(local_media_url),
            media_proxy_url@,
        ),
    ensures
        exists|event_id: Seq<char>|
            (parsed is None ==> is_event_id(event_id)) && next@ == #[trigger] after_parse(
                path@,
                text@.redis_hit,
                parsed_view(parsed),
                opt_ref_view(local_media_url),
                media_proxy_url@,
                event_id,
            ),
        next matches AfterParse::Fetch(fetch) ==> fetch.wf(),
        next is Fetch <==> (parsed matches Some(file) && (file.link || local_media_url is Some)
            && !"thumbnail-"@.is_prefix_of(path@)),
        next matches AfterParse::Fetch(fetch) ==> fetch.url@ == (if parsed->0.link {
            parsed->0.uri@
        } else {
            local_media_url->0@ + path@
        }),
        next matches AfterParse::Reply(reply) ==> reply.status == (match parsed {
            None => 502u16,
            Some(file) => if file.link || local_media_url is Some {
                301u16
            } else {
                404u16
            },
        }),
{
    let event_id = match &parsed {
        Some(_) => String::new(),
        None => {
            let id = new_event_id();
            proof {
                lemma_event_id_header(id@);
            }
            id
        },
    };
    on_parse_with(path, text, parsed, local_media_url, media_proxy_url, event_id.as_str())
}

/// The reply where a request to the remote server cannot be made or fails.
pub open spec fn remote_failure(message: Seq<char>) -> ReplyView {
    ReplyView { status: 502, headers: no_contents(), body: Some(message) }
}

/// Replies that a request to the remote server could not be made or failed.
pub fn on_remote_error(message: String) -> (reply: Reply)
    ensures
        reply@ == remote_failure(message@),
        reply.status == 502,
        reply.body matches Some(body) && body@ == message@,
{
    Reply { status: 502, headers: no_headers(), body: Some(message) }
}

/// The headers of a request with those that `source` has under a name: its
/// first value there, where that is visible throughout.
pub open spec fn with_forwarded(headers: Contents, source: Contents, name: Seq<char>) -> Contents {
    if first_is_visible(source, name) {
        appended_text(headers, name, ascii_text(values_of(source, name)[0]))
    } else {
        headers
    }
}

/// The headers of a request to the remote server: beside what it has already,
/// the conditions that `source` has, and the user agent where one is set.
pub open spec fn remote_request_headers(
    headers: Contents,
    source: Contents,
    user_agent: Option<Seq<char>>,
) -> Contents {
    let h1 = with_forwarded(headers, source, "If-Modified-Since"@);
    let h2 = with_forwarded(h1, source, "If-None-Match"@);
    let h3 = with_forwarded(h2, source, "Range"@);
    let h4 = with_forwarded(h3, source, "If-Range"@);
    match user_agent {
        Some(agent) => appended_text(h4, "User-Agent"@, agent),
        None => h4,
    }
}

proof fn lemma_visible_text(bytes: Seq<u8>)
    requires
        forall|i: int| 0 <= i < bytes.len() ==> visible_byte(#[trigger] bytes[i]),
    ensures
        header_text(ascii_text(bytes)),
{
    let text = ascii_text(bytes);
    assert forall|i: int| 0 <= i < text.len() implies header_char(#[trigger] text[i]) by {
        assert(visible_byte(bytes[i]));
        assert(text[i] == bytes[i] as char);
    }
}

fn forward_header(
    headers: &mut HeaderMap<HeaderValue>,
    source: &HeaderMap<HeaderValue>,
    name: &'static str,
)
    requires
        header_name(name@),
        has_room(header_contents(*old(headers)), 1),
    ensures
        header_contents(*final(headers)) == with_forwarded(
            header_contents(*old(headers)),
            header_contents(*source),
            name@,
        ),
{
    if let Some(text) = header_text_of(source, name) {
        proof {
            lemma_visible_text(values_of(header_contents(*source), name@)[0]);
        }
        append_header(headers, name, text.as_str());
    }
}

/// Completes the headers of a request to the remote server. The conditions are
/// looked for in the headers of the reply.
pub fn add_request_headers(
    headers: &mut HeaderMap<HeaderValue>,
    reply_headers: &HeaderMap<HeaderValue>,
    user_agent: Option<&String>,
)
    requires
        has_room(header_contents(*old(headers)), 5),
        user_agent matches Some(agent) ==> header_text(agent@),
    ensures
        header_contents(*final(headers)) == remote_request_headers(
            header_contents(*old(headers)),
            header_contents(*reply_headers),
            opt_ref_view(user_agent),
        ),
{
    proof {
        reveal_strlit("If-Modified-Since");
        reveal_strlit("If-None-Match");
        reveal_strlit("Range");
        reveal_strlit("If-Range");
        reveal_strlit("User-Agent");
    }
    let ghost source = header_contents(*reply_headers);
    let ghost h0 = header_contents(*headers);
    forward_header(headers, reply_headers, "If-Modified-Since");
    let ghost h1 = header_contents(*headers);
    proof {
        lemma_forwarded_room(h0, source, "If-Modified-Since"@, 5);
    }
    forward_header(headers, reply_headers, "If-None-Match");
    let ghost h2 = header_contents(*headers);
    proof {
        lemma_forwarded_room(h1, source, "If-None-Match"@, 4);
    }
    forward_header(headers, reply_headers, "Range");
    let ghost h3 = header_contents(*headers);
    proof {
        lemma_forwarded_room(h2, source, "Range"@, 3);
    }
    forward_header(headers, reply_headers, "If-Range");
    proof {
        lemma_forwarded_room(h3, source, "If-Range"@, 2);
    }
    if let Some(agent) = user_agent {
        append_header(headers, "User-Agent", agent.as_str());
    }
}

proof fn lemma_forwarded_room(headers: Contents, source: Contents, name: Seq<char>, more: int)
    requires
        has_room(headers, more),
        more >= 1,
    ensures
        has_room(with_forwarded(headers, source, name), more - 1),
{
    if first_is_visible(source, name) {
        lemma_room(headers, name, encode_utf8(ascii_text(values_of(source, name)[0])), more);
    }
}

/// The status that the proxy answers with where the remote server answers with
/// `status`: 200 for any success, 304 for itself, and 502 for the rest.
pub open spec fn reply_status(status: u16) -> u16 {
    if 200 <= status < 300 {
        200
    } else if status == 304 {
        304
    } else {
        502
    }
}

/// The headers of the reply with those that it takes from the remote answer:
/// its status and nine of its headers.
pub open spec fn remote_reply_headers(
    headers: Contents,
    status: u16,
    remote: Contents,
) -> Contents {
    let h0 = appended_text(headers, "X-Remote-Status"@, decimal(status as nat));
    let h1 = with_remote_header(h0, remote, "Content-Length"@);
    let h2 = with_remote_header(h1, remote, "Content-Range"@);
    let h3 = with_remote_header(h2, remote, "Accept-Ranges"@);
    let h4 = with_remote_header(h3, remote, "Content-Disposition"@);
    let h5 = with_remote_header(h4, remote, "Content-Security-Policy"@);
    let h6 = with_remote_header(h5, remote, "Content-Type"@);
    let h7 = with_remote_header(h6, remote, "Cache-Control"@);
    let h8 = with_remote_header(h7, remote, "Last-Modified"@);
    with_remote_header(h8, remote, "Etag"@)
}

/// Status and headers of a reply whose body is that of the remote answer.
pub struct ReplyHead {
    pub status: u16,
    pub headers: HeaderMap<HeaderValue>,
}

proof fn lemma_remote_room(headers: Contents, remote: Contents, name: Seq<char>, more: int)
    requires
        has_room(headers, more),
        more >= 1,
    ensures
        has_room(with_remote_header(headers, remote, name), more - 1),
{
    lemma_room_all(headers, name, values_of(remote, name), more);
}

/// Makes the reply to a fetched file.
pub fn on_remote(
    fetch: Fetch,
    status: u16,
    remote_headers: &HeaderMap<HeaderValue>,
) -> (head: ReplyHead)
    requires
        fetch.wf(),
    ensures
        head.status == reply_status(status),
        head.status == 200 <==> 200 <= status < 300,
        head.status == 304 <==> status == 304,
        head.status == 200 || head.status == 304 || head.status == 502,
        header_contents(head.headers) == remote_reply_headers(
            header_contents(fetch.headers),
            status,
            header_contents(*remote_headers),
        ),
{
    proof {
        lemma_names();
        lemma_copied_names();
        lemma_decimal_header(status as nat);
    }
    let mut headers = fetch.headers;
    let ghost remote = header_contents(*remote_headers);
    let ghost start = header_contents(headers);
    let text = decimal_text(status as u64);
    append_header(&mut headers, "X-Remote-Status", text.as_str());
    let ghost h0 = header_contents(headers);
    proof {
        lemma_room(start, "X-Remote-Status"@, encode_utf8(decimal(status as nat)), 11);
    }
    add_remote_header("Content-Length", &mut headers, remote_headers);
    let ghost h1 = header_contents(headers);
    proof {
        lemma_remote_room(h0, remote, "Content-Length"@, 10);
    }
    add_remote_header("Content-Range", &mut headers, remote_headers);
    let ghost h2 = header_contents(headers);
    proof {
        lemma_remote_room(h1, remote, "Content-Range"@, 9);
    }
    add_remote_header("Accept-Ranges", &mut headers, remote_headers);
    let ghost h3 = header_contents(headers);
    proof {
        lemma_remote_room(h2, remote, "Accept-Ranges"@, 8);
    }
    add_remote_header("Content-Disposition", &mut headers, remote_headers);
    let ghost h4 = header_contents(headers);
    proof {
        lemma_remote_room(h3, remote, "Content-Disposition"@, 7);
    }
    add_remote_header("Content-Security-Policy", &mut headers, remote_headers);
    let ghost h5 = header_contents(headers);
    proof {
        lemma_remote_room(h4, remote, "Content-Security-Policy"@, 6);
    }
    add_remote_header("Content-Type", &mut headers, remote_headers);
    let ghost h6 = header_contents(headers);
    proof {
        lemma_remote_room(h5, remote, "Content-Type"@, 5);
    }
    add_remote_header("Cache-Control", &mut headers, remote_headers);
    let ghost h7 = header_contents(headers);
    proof {
        lemma_remote_room(h6, remote, "Cache-Control"@, 4);
    }
    add_remote_header("Last-Modified", &mut headers, remote_headers);
    proof {
        lemma_remote_room(h7, remote, "Last-Modified"@, 3);
    }
    add_remote_header("Etag", &mut headers, remote_headers);
    let status: u16 = if 200 <= status && status < 300 {
        200
    } else if status == 304 {
        304
    } else {
        502
    };
    ReplyHead { status, headers }
}

/// The headers that a reply takes over from a remote answer.
pub open spec fn copied_names() -> Seq<Seq<char>> {
    seq![
        "Content-Length"@,
        "Content-Range"@,
        "Accept-Ranges"@,
        "Content-Disposition"@,
        "Content-Security-Policy"@,
        "Content-Type"@,
        "Cache-Control"@,
        "Last-Modified"@,
        "Etag"@,
    ]
}

/// The key of the header that tells whether the cache was hit.
pub open spec fn hit_key() -> Seq<char> {
    header_key("X-FileProxy-Hit"@)
}

pub(crate) proof fn lemma_copied_names()
    ensures
        header_name("Content-Length"@),
        header_name("Content-Range"@),
        header_name("Accept-Ranges"@),
        header_name("Content-Disposition"@),
        header_name("Content-Security-Policy"@),
        header_name("Content-Type"@),
        header_name("Cache-Control"@),
        header_name("Last-Modified"@),
        header_name("Etag"@),
        distinct_keys(copied_names()),
        header_key("X-Remote-Status"@) != hit_key(),
        forall|i: int|
            0 <= i < copied_names().len() ==> header_key(#[trigger] copied_names()[i])
                != header_key("X-Remote-Status"@) && header_key(copied_names()[i]) != hit_key(),
{
    reveal_strlit("Content-Length");
    reveal_strlit("Content-Range");
    reveal_strlit("Accept-Ranges");
    reveal_strlit("Content-Disposition");
    reveal_strlit("Content-Security-Policy");
    reveal_strlit("Content-Type");
    reveal_strlit("Cache-Control");
    reveal_strlit("Last-Modified");
    reveal_strlit("Etag");
    reveal_strlit("X-Remote-Status");
    reveal_strlit("X-FileProxy-Hit");
    let names = copied_names();
    lemma_key_differs("Content-Range"@, "Accept-Ranges"@, 0);
    lemma_key_differs("Content-Range"@, "Cache-Control"@, 1);
    lemma_key_differs("Content-Range"@, "Last-Modified"@, 0);
    lemma_key_differs("Accept-Ranges"@, "Cache-Control"@, 0);
    lemma_key_differs("Accept-Ranges"@, "Last-Modified"@, 0);
    lemma_key_differs("Cache-Control"@, "Last-Modified"@, 0);
    lemma_key_differs("X-Remote-Status"@, "X-FileProxy-Hit"@, 2);
    assert forall|i: int, j: int| 0 <= i < j < names.len() implies header_key(
        #[trigger] names[i],
    ) != header_key(#[trigger] names[j]) by {
        if names[i].len() != names[j].len() {
            lemma_key_differs(names[i], names[j], 0);
        }
    }
    assert forall|i: int| 0 <= i < names.len() implies header_key(#[trigger] names[i])
        != header_key("X-Remote-Status"@) && header_key(names[i]) != hit_key() by {
        lemma_key_differs(names[i], "X-Remote-Status"@, 0);
        lemma_key_differs(names[i], "X-FileProxy-Hit"@, 0);
    }
}

/// Replies at the root.
pub fn root_reply() -> (reply: Reply)
    ensures
        reply@ == bare_reply(204),
        reply.status == 204,
        reply.body is None,
{
    bare(204)
}

/// The reply to a ping: its outcome as JSON.
pub open spec fn ping_reply_of(ms: u64, ok: bool) -> ReplyView {
    ReplyView {
        status: 200,
        headers: appended_text(no_contents(), "Content-Type"@, "application/json"@),
        body: Some(ping_json_of(ms, ok)),
    }
}

/// Replies to a ping with its outcome.
pub fn ping_reply(status: &PingStatus) -> (reply: Reply)
    ensures
        reply@ == ping_reply_of(status.ms, status.ok),
        reply.status == 200,
        reply.body is Some,
{
    proof {
        lemma_names();
        reveal_strlit("application/json");
    }
    let mut headers = no_headers();
    append_header(&mut headers, "Content-Type", "application/json");
    Reply { status: 200, headers, body: Some(ping_json(status)) }
}

} // verus!
