//! What holds of a request for a file from beginning to end.

use vstd::prelude::*;
use vstd::string::*;
use vstd::utf8::*;

use crate::agent::{answer_of, law_lookup_names_the_path, lookup_of, LookupView};
use crate::headers::{
    appended_all, appended_text, ascii_text, distinct_keys, first_is_visible, header_contents,
    header_key, law_remote_values_are_copied, lemma_key_differs, no_contents, values_of,
    visible_byte, with_remote_header, Contents,
};
use crate::http::{
    after_agent, after_cache, after_file, after_parse, agent_failed, agent_failure, answer_view,
    bare_reply, copied_names, file_headers, file_url, hit_key, lemma_copied_names, opt_ref_view,
    parsed_view, ping_reply_of, remote_failure, remote_reply_headers, remote_request_headers,
    reply_status, thumbnail_location, type_id_of, unknown_file, with_forwarded, AfterAgent,
    AfterAgentView, AfterCache, AfterCacheView, AfterParse, AfterParseView, AgentNext,
    AgentNextView, CacheWrite, CacheWriteView, Fetch, FileText, FileTextView, Reply, ReplyView,
    ResponseJson, ResponseJsonView,
};
use crate::ping::law_ping_json;
use crate::request::{served, served_json, Site};
use crate::text::{
    decimal, law_percent_encoded_chars, law_percent_round_trip, lemma_encode_concat, lossy_text,
    percent_char, percent_decoded, percent_encoded, utf8_lossy,
};
use crate::wire::{
    law_request_round_trip, opt_view, request_at, request_frame, request_of, response_of,
    AgentResult, JobView, RequestJob, ResponseView,
};

verus! {

/// The keys of the two headers that tell one request from the next: whether the
/// cache was hit, and the event id.
pub open spec fn trace_keys() -> Set<Seq<char>> {
    set![hit_key(), header_key("X-EventId"@)]
}

/// An outcome without what tells one request from the next.
pub open spec fn same_file(outcome: AfterParseView) -> AfterParseView {
    match outcome {
        AfterParseView::Fetch(url, headers) => AfterParseView::Fetch(
            url,
            headers.remove_keys(trace_keys()),
        ),
        AfterParseView::Reply(reply) => AfterParseView::Reply(
            ReplyView { headers: reply.headers.remove_keys(trace_keys()), ..reply },
        ),
    }
}

proof fn lemma_append_without(
    a: Contents,
    b: Contents,
    keys: Set<Seq<char>>,
    name: Seq<char>,
    value: Seq<char>,
)
    requires
        a.remove_keys(keys) == b.remove_keys(keys),
        !keys.contains(header_key(name)),
    ensures
        appended_text(a, name, value).remove_keys(keys) == appended_text(
            b,
            name,
            value,
        ).remove_keys(keys),
{
    let k = header_key(name);
    assert(a.remove_keys(keys).contains_key(k) == a.contains_key(k));
    assert(b.remove_keys(keys).contains_key(k) == b.contains_key(k));
    if a.contains_key(k) {
        assert(a.remove_keys(keys)[k] == a[k]);
        assert(b.remove_keys(keys)[k] == b[k]);
    }
    assert(values_of(a, name) == values_of(b, name));
    let values = values_of(a, name).push(encode_utf8(value));
    assert(appended_text(a, name, value).remove_keys(keys) =~= a.remove_keys(keys).insert(
        k,
        values,
    ));
    assert(appended_text(b, name, value).remove_keys(keys) =~= b.remove_keys(keys).insert(
        k,
        values,
    ));
}

proof fn lemma_append_all_without(
    a: Contents,
    b: Contents,
    keys: Set<Seq<char>>,
    name: Seq<char>,
    values: Seq<Seq<u8>>,
)
    requires
        a.remove_keys(keys) == b.remove_keys(keys),
        !keys.contains(header_key(name)),
    ensures
        appended_all(a, name, values).remove_keys(keys) == appended_all(
            b,
            name,
            values,
        ).remove_keys(keys),
    decreases values.len(),
{
    if values.len() > 0 {
        let rest = values.drop_last();
        lemma_append_all_without(a, b, keys, name, rest);
        lemma_append_without(
            appended_all(a, name, rest),
            appended_all(b, name, rest),
            keys,
            name,
            lossy_text(values.last()),
        );
    }
}

proof fn lemma_file_headers_without(keys: Set<Seq<char>>, link: bool, url: Seq<char>)
    requires
        keys.contains(hit_key()),
        !keys.contains(header_key("X-Remote-Url"@)),
        !keys.contains(header_key("Vary"@)),
    ensures
        file_headers(true, link, url).remove_keys(keys) == file_headers(
            false,
            link,
            url,
        ).remove_keys(keys),
{
    let a = appended_text(no_contents(), "X-FileProxy-Hit"@, "true"@);
    let b = appended_text(no_contents(), "X-FileProxy-Hit"@, "false"@);
    assert(a.remove_keys(keys) =~= b.remove_keys(keys));
    if link {
        lemma_append_without(a, b, keys, "X-Remote-Url"@, url);
        lemma_append_without(
            appended_text(a, "X-Remote-Url"@, url),
            appended_text(b, "X-Remote-Url"@, url),
            keys,
            "Vary"@,
            "Origin"@,
        );
    } else {
        lemma_append_without(a, b, keys, "Vary"@, "Origin"@);
    }
}

proof fn lemma_trace_keys()
    ensures
        !trace_keys().contains(header_key("X-Remote-Url"@)),
        !trace_keys().contains(header_key("Vary"@)),
        !trace_keys().contains(header_key("Location"@)),
{
    reveal_strlit("X-FileProxy-Hit");
    reveal_strlit("X-EventId");
    reveal_strlit("X-Remote-Url");
    reveal_strlit("Vary");
    reveal_strlit("Location");
    lemma_key_differs("X-FileProxy-Hit"@, "X-Remote-Url"@, 0);
    lemma_key_differs("X-FileProxy-Hit"@, "Vary"@, 0);
    lemma_key_differs("X-FileProxy-Hit"@, "Location"@, 0);
    lemma_key_differs("X-EventId"@, "X-Remote-Url"@, 0);
    lemma_key_differs("X-EventId"@, "Vary"@, 0);
    lemma_key_differs("X-EventId"@, "Location"@, 0);
}

proof fn lemma_hit_leaves_file(
    site: Site,
    path: Seq<char>,
    json: Seq<char>,
    id1: Seq<char>,
    id2: Seq<char>,
)
    ensures
        same_file(served_json(site, path, FileTextView { json, redis_hit: true }, id1))
            == same_file(served_json(site, path, FileTextView { json, redis_hit: false }, id2)),
{
    if json.len() > 0 {
        match (site.parse)(json) {
            None => {
                let a = appended_text(no_contents(), "X-EventId"@, id1);
                let b = appended_text(no_contents(), "X-EventId"@, id2);
                assert(a.remove_keys(trace_keys()) =~= b.remove_keys(trace_keys()));
            },
            Some(file) => {
                if let Some(url) = file_url(path, file, site.local_media_url) {
                    lemma_trace_keys();
                    lemma_file_headers_without(trace_keys(), file.link, url);
                    lemma_append_without(
                        file_headers(true, file.link, url),
                        file_headers(false, file.link, url),
                        trace_keys(),
                        "Location"@,
                        thumbnail_location(site.media_proxy_url, url),
                    );
                }
            },
        }
    }
}

/// A file that the agent knows is served from the cache as it was served
/// without it: what the first request stores, under its own path, leads the
/// next one to the same outcome, but for the header that tells a hit and for
/// the event id. The next request asks no agent and stores nothing.
pub proof fn law_cache_serves_the_same_file(
    site: Site,
    path: Seq<char>,
    answer: ResponseView,
    later: Option<ResponseView>,
    id1: Seq<char>,
    id2: Seq<char>,
)
    requires
        site.has_cache,
        answer.status == 200,
    ensures
        ({
            let first = served(site, path, None, Some(answer), id1);
            &&& first.store matches Some(write)
            &&& write.key == path && write.ttl == site.ttl
            &&& {
                let second = served(site, path, Some(write.value), later, id2);
                second.store is None && same_file(second.outcome) == same_file(first.outcome)
            }
        }),
{
    let first = served(site, path, None, Some(answer), id1);
    let value = first.store.unwrap().value;
    lemma_hit_leaves_file(site, path, value, id2, id1);
}

/// Where the file is fetched, this goes on to the reply: the next request asks
/// the remote server at the same address and with the same headers, and where
/// that answers alike, the client gets the same headers, but for the one that
/// tells a hit. The status goes by that of the remote answer alone.
pub proof fn law_cache_serves_the_same_reply(
    site: Site,
    path: Seq<char>,
    answer: ResponseView,
    later: Option<ResponseView>,
    id1: Seq<char>,
    id2: Seq<char>,
    request: Contents,
    user_agent: Option<Seq<char>>,
    status: u16,
    remote: Contents,
)
    requires
        site.has_cache,
        answer.status == 200,
    ensures
        ({
            let first = served(site, path, None, Some(answer), id1);
            let second = served(site, path, Some(first.store.unwrap().value), later, id2);
            first.outcome matches AfterParseView::Fetch(url, h1) ==> {
                &&& second.outcome matches AfterParseView::Fetch(url2, h2)
                &&& url2 == url
                &&& remote_request_headers(request, h2, user_agent) == remote_request_headers(
                    request,
                    h1,
                    user_agent,
                )
                &&& remote_reply_headers(h2, status, remote).remove(hit_key())
                    == remote_reply_headers(h1, status, remote).remove(hit_key())
            }
        }),
{
    let first = served(site, path, None, Some(answer), id1);
    if first.outcome is Fetch {
        let json = first.store.unwrap().value;
        let file = (site.parse)(json).unwrap();
        let url = file_url(path, file, site.local_media_url).unwrap();
        let h1 = file_headers(false, file.link, url);
        let h2 = file_headers(true, file.link, url);
        law_conditions_are_not_forwarded(request, false, file.link, url, user_agent);
        law_conditions_are_not_forwarded(request, true, file.link, url, user_agent);
        lemma_hit_leaves_reply(file.link, url, status, remote);
        let r1 = remote_reply_headers(h1, status, remote);
        let r2 = remote_reply_headers(h2, status, remote);
        assert(r1.remove(hit_key()) =~= r1.remove_keys(set![hit_key()]));
        assert(r2.remove(hit_key()) =~= r2.remove_keys(set![hit_key()]));
    }
}

/// An answer without content fails the request that asked for it, and is kept:
/// the next request finds that there is nothing to serve.
pub proof fn law_empty_answer_is_kept(
    site: Site,
    path: Seq<char>,
    answer: ResponseView,
    later: Option<ResponseView>,
    id1: Seq<char>,
    id2: Seq<char>,
)
    requires
        site.has_cache,
        answer.status == 204,
    ensures
        ({
            let first = served(site, path, None, Some(answer), id1);
            &&& first.outcome == AfterParseView::Reply(agent_failure(204, id1))
            &&& first.store matches Some(write)
            &&& served(site, path, Some(write.value), later, id2).outcome == AfterParseView::Reply(
                bare_reply(204),
            )
        }),
{
}

/// Nothing is stored but answers of status 200 or 204, and nothing without a
/// cache or on a hit.
pub proof fn law_failures_are_not_stored(
    site: Site,
    path: Seq<char>,
    cached: Option<Seq<char>>,
    answer: Option<ResponseView>,
    event_id: Seq<char>,
)
    ensures
        served(site, path, cached, answer, event_id).store is Some <==> (site.has_cache
            && cached is None && answer is Some && (answer.unwrap().status == 200
            || answer.unwrap().status == 204)),
{
}

/// An agent that fails, or does not answer, never gets a file served: the reply
/// is 404 where it says so, 504 where it says nothing, else 502.
pub proof fn law_agent_failure_is_reported(
    site: Site,
    path: Seq<char>,
    answer: Option<ResponseView>,
    event_id: Seq<char>,
)
    requires
        answer matches Some(res) ==> res.status != 200,
    ensures
        served(site, path, None, answer, event_id).outcome matches AfterParseView::Reply(reply)
            && reply.status == (match answer {
            None => 504u16,
            Some(res) => if res.status == 404 {
                404u16
            } else {
                502u16
            },
        }),
{
}

/// A thumbnail is never fetched here. Where the file has an address, the reply
/// sends the client to the media proxy, and the parameter `url` in there ends
/// nowhere but at the next parameter and decodes to that address.
pub proof fn law_thumbnails_go_to_the_media_proxy(
    site: Site,
    path: Seq<char>,
    text: FileTextView,
    file: ResponseJsonView,
    event_id: Seq<char>,
)
    requires
        type_id_of(path) == 2,
        text.json.len() > 0,
        (site.parse)(text.json) == Some(file),
    ensures
        served_json(site, path, text, event_id) matches AfterParseView::Reply(reply)
            && match file_url(path, file, site.local_media_url) {
            None => reply == bare_reply(404),
            Some(url) => {
                let param = percent_encoded(encode_utf8(url));
                &&& reply.status == 301
                &&& values_of(reply.headers, "Location"@) == seq![
                    encode_utf8(
                        site.media_proxy_url + "static.webp?url="@ + param + "&static=1"@,
                    ),
                ]
                &&& percent_decoded(param) == encode_utf8(url)
                &&& !param.contains('&')
            },
        },
{
    if let Some(url) = file_url(path, file, site.local_media_url) {
        law_percent_round_trip(encode_utf8(url));
        law_percent_encoded_chars(encode_utf8(url));
        assert(!percent_char('&'));
        reveal_strlit("X-FileProxy-Hit");
        reveal_strlit("X-Remote-Url");
        reveal_strlit("Vary");
        reveal_strlit("Location");
        lemma_key_differs("X-FileProxy-Hit"@, "Location"@, 0);
        lemma_key_differs("X-Remote-Url"@, "Location"@, 0);
        lemma_key_differs("Vary"@, "Location"@, 0);
        let h = file_headers(text.redis_hit, file.link, url);
        assert(values_of(h, "Location"@) =~= Seq::empty());
        let location = encode_utf8(thumbnail_location(site.media_proxy_url, url));
        assert(Seq::<Seq<u8>>::empty().push(location) =~= seq![location]);
    }
}

/// No condition of the client reaches the remote server: the headers of a reply
/// about a file hold none, so a request is completed by the user agent alone.
pub proof fn law_conditions_are_not_forwarded(
    headers: Contents,
    redis_hit: bool,
    link: bool,
    url: Seq<char>,
    user_agent: Option<Seq<char>>,
)
    ensures
        remote_request_headers(headers, file_headers(redis_hit, link, url), user_agent) == (
        match user_agent {
            Some(agent) => appended_text(headers, "User-Agent"@, agent),
            None => headers,
        }),
{
    let source = file_headers(redis_hit, link, url);
    reveal_strlit("X-FileProxy-Hit");
    reveal_strlit("X-Remote-Url");
    reveal_strlit("Vary");
    reveal_strlit("If-Modified-Since");
    reveal_strlit("If-None-Match");
    reveal_strlit("Range");
    reveal_strlit("If-Range");
    assert forall|name: Seq<char>|
        name == "If-Modified-Since"@ || name == "If-None-Match"@ || name == "Range"@ || name
            == "If-Range"@ implies !#[trigger] first_is_visible(source, name) by {
        lemma_key_differs("X-FileProxy-Hit"@, name, 0);
        lemma_key_differs("X-Remote-Url"@, name, 0);
        lemma_key_differs("Vary"@, name, 0);
        assert(!source.contains_key(header_key(name)));
    }
    assert(!first_is_visible(source, "If-Modified-Since"@));
    assert(!first_is_visible(source, "If-None-Match"@));
    assert(!first_is_visible(source, "Range"@));
    assert(!first_is_visible(source, "If-Range"@));
}

/// A value of a remote answer as it is passed on: bytes that are not UTF-8 are
/// replaced.
pub open spec fn passed_on(value: Seq<u8>) -> Seq<u8> {
    encode_utf8(lossy_text(value))
}

proof fn lemma_appended_all(contents: Contents, name: Seq<char>, values: Seq<Seq<u8>>)
    ensures
        ({
            let after = appended_all(contents, name, values);
            &&& values_of(after, name) == values_of(contents, name) + values.map_values(
                |v: Seq<u8>| passed_on(v),
            )
            &&& forall|k: Seq<char>|
                k != header_key(name) ==> (#[trigger] after.contains_key(k)
                    == contents.contains_key(k) && (after.contains_key(k) ==> after[k]
                    == contents[k]))
        }),
    decreases values.len(),
{
    let of = |v: Seq<u8>| passed_on(v);
    let after = appended_all(contents, name, values);
    if values.len() == 0 {
        assert(values_of(contents, name) + values.map_values(of) =~= values_of(contents, name));
    } else {
        lemma_appended_all(contents, name, values.drop_last());
        let before = appended_all(contents, name, values.drop_last());
        assert(values_of(after, name) =~= values_of(before, name).push(of(values.last())));
        assert(values.map_values(of) =~= values.drop_last().map_values(of).push(
            of(values.last()),
        ));
        assert(values_of(after, name) =~= values_of(contents, name) + values.map_values(of));
    }
}

/// The headers with those of a remote answer under several names, one name
/// after another.
pub open spec fn with_remote_headers(
    contents: Contents,
    remote: Contents,
    names: Seq<Seq<char>>,
) -> Contents
    decreases names.len(),
{
    if names.len() == 0 {
        contents
    } else {
        with_remote_header(
            with_remote_headers(contents, remote, names.drop_last()),
            remote,
            names.last(),
        )
    }
}

proof fn lemma_with_remote_headers(
    contents: Contents,
    remote: Contents,
    names: Seq<Seq<char>>,
    name: Seq<char>,
)
    requires
        distinct_keys(names),
    ensures
        names.contains(name) ==> values_of(
            with_remote_headers(contents, remote, names),
            name,
        ) == values_of(contents, name) + values_of(remote, name).map_values(
            |v: Seq<u8>| passed_on(v),
        ),
        (forall|i: int|
            0 <= i < names.len() ==> header_key(#[trigger] names[i]) != header_key(name))
            ==> values_of(with_remote_headers(contents, remote, names), name) == values_of(
            contents,
            name,
        ),
    decreases names.len(),
{
    if names.len() > 0 {
        let rest = names.drop_last();
        let last = names.last();
        let before = with_remote_headers(contents, remote, rest);
        let after = with_remote_headers(contents, remote, names);
        assert(distinct_keys(rest)) by {
            assert forall|i: int, j: int| 0 <= i < j < rest.len() implies header_key(
                #[trigger] rest[i],
            ) != header_key(#[trigger] rest[j]) by {
                assert(rest[i] == names[i] && rest[j] == names[j]);
            }
        }
        lemma_with_remote_headers(contents, remote, rest, name);
        lemma_appended_all(before, last, values_of(remote, last));
        let k = header_key(name);
        if k != header_key(last) {
            assert(after.contains_key(k) == before.contains_key(k));
            assert(values_of(after, name) == values_of(before, name));
        }
        if names.contains(name) {
            let i = choose|i: int| 0 <= i < names.len() && names[i] == name;
            if i < names.len() - 1 {
                assert(rest[i] == name);
                assert(k != header_key(last));
            } else {
                assert forall|j: int| 0 <= j < rest.len() implies header_key(#[trigger] rest[j])
                    != k by {
                    assert(rest[j] == names[j]);
                    assert(names[names.len() - 1] == last);
                }
            }
        }
        if forall|i: int| 0 <= i < names.len() ==> header_key(#[trigger] names[i]) != k {
            assert(names[names.len() - 1] == last);
            assert forall|j: int| 0 <= j < rest.len() implies header_key(#[trigger] rest[j])
                != k by {
                assert(rest[j] == names[j]);
            }
        }
    }
}

proof fn lemma_reply_headers(headers: Contents, status: u16, remote: Contents)
    ensures
        remote_reply_headers(headers, status, remote) == with_remote_headers(
            appended_text(headers, "X-Remote-Status"@, decimal(status as nat)),
            remote,
            copied_names(),
        ),
{
    let names = copied_names();
    let start = appended_text(headers, "X-Remote-Status"@, decimal(status as nat));
    reveal_with_fuel(with_remote_headers, 10);
    assert(names.take(8) =~= names.drop_last());
    assert(names.take(7) =~= names.take(8).drop_last());
    assert(names.take(6) =~= names.take(7).drop_last());
    assert(names.take(5) =~= names.take(6).drop_last());
    assert(names.take(4) =~= names.take(5).drop_last());
    assert(names.take(3) =~= names.take(4).drop_last());
    assert(names.take(2) =~= names.take(3).drop_last());
    assert(names.take(1) =~= names.take(2).drop_last());
    assert(names.take(0) =~= names.take(1).drop_last());
    assert(with_remote_headers(start, remote, names.take(0)) == start);
}

proof fn lemma_remote_headers_without(
    a: Contents,
    b: Contents,
    keys: Set<Seq<char>>,
    remote: Contents,
    names: Seq<Seq<char>>,
)
    requires
        a.remove_keys(keys) == b.remove_keys(keys),
        forall|i: int| 0 <= i < names.len() ==> !keys.contains(header_key(#[trigger] names[i])),
    ensures
        with_remote_headers(a, remote, names).remove_keys(keys) == with_remote_headers(
            b,
            remote,
            names,
        ).remove_keys(keys),
    decreases names.len(),
{
    if names.len() > 0 {
        let rest = names.drop_last();
        assert forall|i: int| 0 <= i < rest.len() implies !keys.contains(
            header_key(#[trigger] rest[i]),
        ) by {
            assert(rest[i] == names[i]);
        }
        assert(names[names.len() - 1] == names.last());
        lemma_remote_headers_without(a, b, keys, remote, rest);
        lemma_append_all_without(
            with_remote_headers(a, remote, rest),
            with_remote_headers(b, remote, rest),
            keys,
            names.last(),
            values_of(remote, names.last()),
        );
    }
}

proof fn lemma_hit_leaves_reply(link: bool, url: Seq<char>, status: u16, remote: Contents)
    ensures
        remote_reply_headers(file_headers(true, link, url), status, remote).remove_keys(
            set![hit_key()],
        ) == remote_reply_headers(file_headers(false, link, url), status, remote).remove_keys(
            set![hit_key()],
        ),
{
    let keys = set![hit_key()];
    let a = file_headers(true, link, url);
    let b = file_headers(false, link, url);
    let text = decimal(status as nat);
    lemma_trace_keys();
    lemma_file_headers_without(keys, link, url);
    lemma_copied_names();
    lemma_reply_headers(a, status, remote);
    lemma_reply_headers(b, status, remote);
    lemma_append_without(a, b, keys, "X-Remote-Status"@, text);
    lemma_remote_headers_without(
        appended_text(a, "X-Remote-Status"@, text),
        appended_text(b, "X-Remote-Status"@, text),
        keys,
        remote,
        copied_names(),
    );
}

/// Each of the nine headers reaches the client with all the values that the
/// remote answer has under it, in their order, after what the reply had there.
pub proof fn law_remote_headers_are_passed_on(
    headers: Contents,
    status: u16,
    remote: Contents,
    name: Seq<char>,
)
    requires
        copied_names().contains(name),
    ensures
        values_of(remote_reply_headers(headers, status, remote), name) == values_of(headers, name)
            + values_of(remote, name).map_values(|v: Seq<u8>| passed_on(v)),
{
    lemma_copied_names();
    lemma_reply_headers(headers, status, remote);
    let start = appended_text(headers, "X-Remote-Status"@, decimal(status as nat));
    lemma_with_remote_headers(start, remote, copied_names(), name);
    assert(values_of(start, name) == values_of(headers, name));
}

/// No other header of the remote answer reaches the client: under any other
/// name but that of the remote status the reply keeps what it had.
pub proof fn law_no_other_header_is_passed_on(
    headers: Contents,
    status: u16,
    remote: Contents,
    name: Seq<char>,
)
    requires
        forall|i: int|
            0 <= i < copied_names().len() ==> header_key(#[trigger] copied_names()[i])
                != header_key(name),
        header_key(name) != header_key("X-Remote-Status"@),
    ensures
        values_of(remote_reply_headers(headers, status, remote), name) == values_of(headers, name),
{
    lemma_copied_names();
    lemma_reply_headers(headers, status, remote);
    let start = appended_text(headers, "X-Remote-Status"@, decimal(status as nat));
    lemma_with_remote_headers(start, remote, copied_names(), name);
    assert(values_of(start, name) == values_of(headers, name));
}

/// The client learns the status of the remote answer.
pub proof fn law_remote_status_is_passed_on(headers: Contents, status: u16, remote: Contents)
    ensures
        values_of(remote_reply_headers(headers, status, remote), "X-Remote-Status"@) == values_of(
            headers,
            "X-Remote-Status"@,
        ).push(encode_utf8(decimal(status as nat))),
{
    lemma_copied_names();
    lemma_reply_headers(headers, status, remote);
    let start = appended_text(headers, "X-Remote-Status"@, decimal(status as nat));
    lemma_with_remote_headers(start, remote, copied_names(), "X-Remote-Status"@);
}

/// Only published files and thumbnails are served: on any other path that is
/// not in the cache, the agent knows no such kind of request, and the client
/// gets a failure.
pub proof fn law_other_paths_fail(
    site: Site,
    path: Seq<char>,
    id: u32,
    source: Option<Seq<char>>,
    event_id: Seq<char>,
)
    requires
        type_id_of(path) == 4,
    ensures
        after_cache(path, None) matches AfterCacheView::Ask(job) && {
            let answer = response_of(answer_of(request_of(job, id), source));
            &&& served(site, path, None, Some(answer), event_id).outcome == AfterParseView::Reply(
                agent_failure(501, event_id),
            )
            &&& served(site, path, None, Some(answer), event_id).store is None
        },
{
}

/// What a path asks for goes by how it starts: with `webpublic-` a published
/// file, with `thumbnail-` a thumbnail, and any other path asks for neither.
pub proof fn law_kinds_of_paths(rest: Seq<char>, path: Seq<char>)
    ensures
        type_id_of("webpublic-"@ + rest) == 1,
        type_id_of("thumbnail-"@ + rest) == 2,
        type_id_of(path) == 1 ==> path == "webpublic-"@ + path.skip(10),
        type_id_of(path) == 2 ==> path == "thumbnail-"@ + path.skip(10),
        !"webpublic-"@.is_prefix_of(path) && !"thumbnail-"@.is_prefix_of(path) ==> type_id_of(path)
            == 4,
{
    reveal_strlit("webpublic-");
    reveal_strlit("thumbnail-");
    let w = "webpublic-"@ + rest;
    let t = "thumbnail-"@ + rest;
    assert(w.take(10) =~= "webpublic-"@);
    assert(t.take(10) =~= "thumbnail-"@);
    assert(t.take(10)[0] == 't');
    assert(!("webpublic-"@.is_prefix_of(t)));
    if type_id_of(path) == 1 {
        assert(path =~= "webpublic-"@ + path.skip(10));
    }
    if type_id_of(path) == 2 {
        assert(path =~= "thumbnail-"@ + path.skip(10));
    }
}

/// What the cache holds goes on as it is, as a hit. Without it the agent is
/// asked for the very path, under the type that its start calls for.
pub proof fn law_cache_comes_first(path: Seq<char>, json: Seq<char>)
    ensures
        after_cache(path, Some(json)) == AfterCacheView::Hit(
            FileTextView { json, redis_hit: true },
        ),
        after_cache(path, None) matches AfterCacheView::Ask(job) && job.localpath == Some(path)
            && job.type_id == (if "webpublic-"@.is_prefix_of(path) {
            1u8
        } else if "thumbnail-"@.is_prefix_of(path) {
            2u8
        } else {
            4u8
        }),
{
}

/// A published path or the path of a thumbnail is looked up in the database
/// under the very path of the request, over a connection on which anything may
/// follow. Any other path is turned down with status 501.
pub proof fn law_paths_reach_the_database(
    rest: Seq<char>,
    other: Seq<char>,
    id: u32,
    after: Seq<u8>,
)
    requires
        encode_utf8(rest).len() + 12 < 65536,
        !"webpublic-"@.is_prefix_of(other),
        !"thumbnail-"@.is_prefix_of(other),
        encode_utf8(other).len() + 2 < 65536,
    ensures
        after_cache("webpublic-"@ + rest, None) matches AfterCacheView::Ask(job) && (request_at(
            request_frame(job, id) + after,
        ) matches Ok((req, _)) && req.id == id && lookup_of(req) == LookupView::Webpublic(
            "webpublic-"@ + rest,
        )),
        after_cache("thumbnail-"@ + rest, None) matches AfterCacheView::Ask(job) && (request_at(
            request_frame(job, id) + after,
        ) matches Ok((req, _)) && req.id == id && lookup_of(req) == LookupView::Thumbnail(
            "thumbnail-"@ + rest,
        )),
        after_cache(other, None) matches AfterCacheView::Ask(job) && (request_at(
            request_frame(job, id) + after,
        ) matches Ok((req, _)) && lookup_of(req) == LookupView::Done(
            ResponseView { status: 501, id, json: None },
        )),
{
    law_kinds_of_paths(rest, other);
    lemma_encode_concat("webpublic-"@, rest);
    lemma_encode_concat("thumbnail-"@, rest);
    reveal_strlit("webpublic-");
    reveal_strlit("thumbnail-");
    is_ascii_chars_encode_utf8("webpublic-"@);
    is_ascii_chars_encode_utf8("thumbnail-"@);
    let published = JobView { type_id: 1, localpath: Some("webpublic-"@ + rest) };
    let thumbnail = JobView { type_id: 2, localpath: Some("thumbnail-"@ + rest) };
    law_request_round_trip(published, id, after);
    law_request_round_trip(thumbnail, id, after);
    law_request_round_trip(JobView { type_id: 4, localpath: Some(other) }, id, after);
    law_lookup_names_the_path(published, id, "webpublic-"@ + rest);
    law_lookup_names_the_path(thumbnail, id, "thumbnail-"@ + rest);
}

/// A path that is published or a thumbnail is looked up in the database under
/// the very path of the request.
pub proof fn law_paths_are_looked_up(path: Seq<char>, id: u32)
    requires
        type_id_of(path) != 4,
        encode_utf8(path).len() + 2 < 65536,
    ensures
        after_cache(path, None) matches AfterCacheView::Ask(job) && lookup_of(request_of(job, id))
            == (if type_id_of(path) == 1 {
            LookupView::Webpublic(path)
        } else {
            LookupView::Thumbnail(path)
        }),
{
    law_lookup_names_the_path(
        JobView { type_id: type_id_of(path), localpath: Some(path) },
        id,
        path,
    );
}

/// The headers in use are held under their names in lower case.
pub proof fn law_keys_of_headers()
    ensures
        header_key("X-AgentStatus"@) == "x-agentstatus"@,
        header_key("X-EventId"@) == "x-eventid"@,
        header_key("X-FileProxy-Hit"@) == "x-fileproxy-hit"@,
        header_key("X-Remote-Url"@) == "x-remote-url"@,
        header_key("X-Remote-Status"@) == "x-remote-status"@,
        header_key("Vary"@) == "vary"@,
        header_key("Location"@) == "location"@,
        header_key("Content-Type"@) == "content-type"@,
{
    reveal_strlit("X-AgentStatus");
    reveal_strlit("x-agentstatus");
    assert(header_key("X-AgentStatus"@) =~= "x-agentstatus"@);
    reveal_strlit("X-EventId");
    reveal_strlit("x-eventid");
    assert(header_key("X-EventId"@) =~= "x-eventid"@);
    reveal_strlit("X-FileProxy-Hit");
    reveal_strlit("x-fileproxy-hit");
    assert(header_key("X-FileProxy-Hit"@) =~= "x-fileproxy-hit"@);
    reveal_strlit("X-Remote-Url");
    reveal_strlit("x-remote-url");
    assert(header_key("X-Remote-Url"@) =~= "x-remote-url"@);
    reveal_strlit("X-Remote-Status");
    reveal_strlit("x-remote-status");
    assert(header_key("X-Remote-Status"@) =~= "x-remote-status"@);
    reveal_strlit("Vary");
    reveal_strlit("vary");
    assert(header_key("Vary"@) =~= "vary"@);
    reveal_strlit("Location");
    reveal_strlit("location");
    assert(header_key("Location"@) =~= "location"@);
    reveal_strlit("Content-Type");
    reveal_strlit("content-type");
    assert(header_key("Content-Type"@) =~= "content-type"@);
}

/// The headers of the remote answer and of a request to the remote server are
/// held under their names in lower case.
pub proof fn law_keys_of_remote_headers()
    ensures
        header_key("Content-Length"@) == "content-length"@,
        header_key("Content-Range"@) == "content-range"@,
        header_key("Accept-Ranges"@) == "accept-ranges"@,
        header_key("Content-Disposition"@) == "content-disposition"@,
        header_key("Content-Security-Policy"@) == "content-security-policy"@,
        header_key("Cache-Control"@) == "cache-control"@,
        header_key("Last-Modified"@) == "last-modified"@,
        header_key("Etag"@) == "etag"@,
        header_key("If-Modified-Since"@) == "if-modified-since"@,
        header_key("If-None-Match"@) == "if-none-match"@,
        header_key("Range"@) == "range"@,
        header_key("If-Range"@) == "if-range"@,
        header_key("User-Agent"@) == "user-agent"@,
{
    reveal_strlit("Content-Length");
    reveal_strlit("content-length");
    assert(header_key("Content-Length"@) =~= "content-length"@);
    reveal_strlit("Content-Range");
    reveal_strlit("content-range");
    assert(header_key("Content-Range"@) =~= "content-range"@);
    reveal_strlit("Accept-Ranges");
    reveal_strlit("accept-ranges");
    assert(header_key("Accept-Ranges"@) =~= "accept-ranges"@);
    reveal_strlit("Content-Disposition");
    reveal_strlit("content-disposition");
    assert(header_key("Content-Disposition"@) =~= "content-disposition"@);
    reveal_strlit("Content-Security-Policy");
    reveal_strlit("content-security-policy");
    assert(header_key("Content-Security-Policy"@) =~= "content-security-policy"@);
    reveal_strlit("Cache-Control");
    reveal_strlit("cache-control");
    assert(header_key("Cache-Control"@) =~= "cache-control"@);
    reveal_strlit("Last-Modified");
    reveal_strlit("last-modified");
    assert(header_key("Last-Modified"@) =~= "last-modified"@);
    reveal_strlit("Etag");
    reveal_strlit("etag");
    assert(header_key("Etag"@) =~= "etag"@);
    reveal_strlit("If-Modified-Since");
    reveal_strlit("if-modified-since");
    assert(header_key("If-Modified-Since"@) =~= "if-modified-since"@);
    reveal_strlit("If-None-Match");
    reveal_strlit("if-none-match");
    assert(header_key("If-None-Match"@) =~= "if-none-match"@);
    reveal_strlit("Range");
    reveal_strlit("range");
    assert(header_key("Range"@) =~= "range"@);
    reveal_strlit("If-Range");
    reveal_strlit("if-range");
    assert(header_key("If-Range"@) =~= "if-range"@);
    reveal_strlit("User-Agent");
    reveal_strlit("user-agent");
    assert(header_key("User-Agent"@) =~= "user-agent"@);
}

/// An answer of status 200 goes on with its own text, character for character,
/// or with an empty one where it has none. Status 404 is passed on, no answer is
/// reported as 504, and every other status as 502 under the event id. Each reply
/// shows the status of the agent.
pub proof fn law_agent_answers(
    path: Seq<char>,
    has_cache: bool,
    ttl: Option<u64>,
    answer: ResponseView,
    event_id: Seq<char>,
)
    ensures
        answer.status == 200 && answer.json is Some ==> after_agent(
            path,
            has_cache,
            ttl,
            Some(answer),
            event_id,
        ).next == AgentNextView::Json(FileTextView { json: answer.json->0, redis_hit: false }),
        answer.status == 200 && answer.json is None ==> after_agent(
            path,
            has_cache,
            ttl,
            Some(answer),
            event_id,
        ).next == AgentNextView::Json(FileTextView { json: Seq::empty(), redis_hit: false }),
        answer.status == 404 ==> after_agent(path, has_cache, ttl, Some(answer), event_id).next
            == AgentNextView::Reply(
            ReplyView {
                status: 404,
                headers: map!["x-agentstatus"@ => seq![encode_utf8("404"@)]],
                body: None,
            },
        ),
        answer.status != 200 && answer.status != 404 ==> after_agent(
            path,
            has_cache,
            ttl,
            Some(answer),
            event_id,
        ).next == AgentNextView::Reply(
            ReplyView {
                status: 502,
                headers: map![
                    "x-eventid"@ => seq![encode_utf8(event_id)],
                    "x-agentstatus"@ => seq![encode_utf8(decimal(answer.status as nat))],
                ],
                body: None,
            },
        ),
        after_agent(path, has_cache, ttl, None, event_id) == (AfterAgentView {
            store: None,
            next: AgentNextView::Reply(
                ReplyView { status: 504, headers: Map::empty(), body: Some(Seq::empty()) },
            ),
        }),
{
    law_keys_of_headers();
    reveal_strlit("x-eventid");
    reveal_strlit("x-agentstatus");
    reveal_strlit("404");
    reveal_with_fuel(decimal, 4);
    assert(decimal(404) =~= "404"@);
    assert("x-eventid"@.len() != "x-agentstatus"@.len());
    let none = Seq::<Seq<u8>>::empty();
    assert(none.push(encode_utf8(decimal(answer.status as nat))) =~= seq![
        encode_utf8(decimal(answer.status as nat)),
    ]);
    assert(none.push(encode_utf8(event_id)) =~= seq![encode_utf8(event_id)]);
    assert(unknown_file(404).headers =~= map!["x-agentstatus"@ => seq![encode_utf8("404"@)]]);
    assert(agent_failure(answer.status, event_id).headers =~= map![
        "x-eventid"@ => seq![encode_utf8(event_id)],
        "x-agentstatus"@ => seq![encode_utf8(decimal(answer.status as nat))],
    ]);
}

/// An event id is drawn for every answer but those of status 200 and 404, and for
/// none where the agent did not answer.
pub proof fn law_failures_get_an_event_id(answer: ResponseView)
    ensures
        agent_failed(Some(answer)) <==> answer.status != 200 && answer.status != 404,
        !agent_failed(None),
{
}

/// What is kept: with a cache, and for an answer of status 200 or 204, exactly
/// one text under the path of the request, for the time that is set. It is the
/// text of the answer, or an empty one for status 204 or where there is none.
pub proof fn law_answers_are_kept(
    path: Seq<char>,
    has_cache: bool,
    ttl: Option<u64>,
    answer: ResponseView,
    event_id: Seq<char>,
)
    ensures
        has_cache && answer.status == 200 && answer.json is Some ==> after_agent(
            path,
            has_cache,
            ttl,
            Some(answer),
            event_id,
        ).store == Some(CacheWriteView { key: path, value: answer.json->0, ttl }),
        has_cache && ((answer.status == 200 && answer.json is None) || answer.status == 204)
            ==> after_agent(path, has_cache, ttl, Some(answer), event_id).store == Some(
            CacheWriteView { key: path, value: Seq::empty(), ttl },
        ),
        !has_cache || (answer.status != 200 && answer.status != 204) ==> after_agent(
            path,
            has_cache,
            ttl,
            Some(answer),
            event_id,
        ).store is None,
{
}

/// The text that the agent gives of a file is what is parsed, and what is kept
/// where there is a cache: character for character, and not as a hit.
pub proof fn law_known_text_goes_on(
    site: Site,
    path: Seq<char>,
    answer: ResponseView,
    text: Seq<char>,
    event_id: Seq<char>,
)
    requires
        answer.status == 200,
        answer.json == Some(text),
    ensures
        ({
            let request = served(site, path, None, Some(answer), event_id);
            &&& request.outcome == served_json(
                site,
                path,
                FileTextView { json: text, redis_hit: false },
                event_id,
            )
            &&& site.has_cache ==> request.store == Some(
                CacheWriteView { key: path, value: text, ttl: site.ttl },
            )
            &&& text.len() > 0 ==> request.outcome == after_parse(
                path,
                false,
                (site.parse)(text),
                site.local_media_url,
                site.media_proxy_url,
                event_id,
            )
            &&& text.len() == 0 ==> request.outcome == AfterParseView::Reply(
                ReplyView { status: 204, headers: Map::empty(), body: None },
            )
        }),
{
    law_agent_answers(path, site.has_cache, site.ttl, answer, event_id);
    law_answers_are_kept(path, site.has_cache, site.ttl, answer, event_id);
}

/// What the cache holds is what is parsed, as a hit, whatever the agent would
/// answer, and nothing is written. An empty text is nothing to serve.
pub proof fn law_cached_text_goes_on(
    site: Site,
    path: Seq<char>,
    text: Seq<char>,
    answer: Option<ResponseView>,
    event_id: Seq<char>,
)
    ensures
        served(site, path, Some(text), answer, event_id).store is None,
        text.len() > 0 ==> served(site, path, Some(text), answer, event_id).outcome == after_parse(
            path,
            true,
            (site.parse)(text),
            site.local_media_url,
            site.media_proxy_url,
            event_id,
        ),
        text.len() == 0 ==> served(site, path, Some(text), answer, event_id).outcome
            == AfterParseView::Reply(ReplyView { status: 204, headers: Map::empty(), body: None }),
{
}

/// The headers of a reply about a file: whether the cache was hit, that it varies
/// by origin, and the address of a link, and nothing else.
pub proof fn law_headers_of_files(redis_hit: bool, url: Seq<char>)
    ensures
        file_headers(redis_hit, false, url) == map![
            "x-fileproxy-hit"@ => seq![encode_utf8(if redis_hit { "true"@ } else { "false"@ })],
            "vary"@ => seq![encode_utf8("Origin"@)],
        ],
        file_headers(redis_hit, true, url) == map![
            "x-fileproxy-hit"@ => seq![encode_utf8(if redis_hit { "true"@ } else { "false"@ })],
            "x-remote-url"@ => seq![encode_utf8(url)],
            "vary"@ => seq![encode_utf8("Origin"@)],
        ],
{
    law_keys_of_headers();
    reveal_strlit("x-fileproxy-hit");
    reveal_strlit("x-remote-url");
    reveal_strlit("vary");
    assert("x-fileproxy-hit"@.len() == 15);
    assert("x-remote-url"@.len() == 12);
    assert("vary"@.len() == 4);
    let none = Seq::<Seq<u8>>::empty();
    let hit = encode_utf8(if redis_hit { "true"@ } else { "false"@ });
    assert(none.push(hit) =~= seq![hit]);
    assert(none.push(encode_utf8(url)) =~= seq![encode_utf8(url)]);
    assert(none.push(encode_utf8("Origin"@)) =~= seq![encode_utf8("Origin"@)]);
    assert(file_headers(redis_hit, false, url) =~= map![
        "x-fileproxy-hit"@ => seq![hit],
        "vary"@ => seq![encode_utf8("Origin"@)],
    ]);
    assert(file_headers(redis_hit, true, url) =~= map![
        "x-fileproxy-hit"@ => seq![hit],
        "x-remote-url"@ => seq![encode_utf8(url)],
        "vary"@ => seq![encode_utf8("Origin"@)],
    ]);
}

/// A link is served from its own address, whatever the settings say.
pub proof fn law_links_are_served_from_their_address(
    rest: Seq<char>,
    path: Seq<char>,
    redis_hit: bool,
    uri: Seq<char>,
    local_media_url: Option<Seq<char>>,
    media_proxy_url: Seq<char>,
)
    requires
        !"thumbnail-"@.is_prefix_of(path),
    ensures
        ({
            let file = ResponseJsonView { uri, link: true };
            let param = percent_encoded(encode_utf8(uri));
            &&& after_file(path, redis_hit, file, local_media_url, media_proxy_url)
                == AfterParseView::Fetch(uri, file_headers(redis_hit, true, uri))
            &&& after_file(
                "thumbnail-"@ + rest,
                redis_hit,
                file,
                local_media_url,
                media_proxy_url,
            ) == AfterParseView::Reply(
                ReplyView {
                    status: 301,
                    headers: file_headers(redis_hit, true, uri).insert(
                        "location"@,
                        seq![
                            encode_utf8(
                                media_proxy_url + "static.webp?url="@ + param + "&static=1"@,
                            ),
                        ],
                    ),
                    body: Some(Seq::empty()),
                },
            )
            &&& percent_decoded(param) == encode_utf8(uri)
        }),
{
    lemma_not_a_thumbnail(path);
    law_kinds_of_paths(rest, path);
    law_percent_round_trip(encode_utf8(uri));
    lemma_location(redis_hit, true, uri, media_proxy_url);
}

/// A file that is no link is served from the local media server: from its
/// address followed by the path, whatever the path asks for. The parameter of a
/// thumbnail decodes to that. Without a local media server it is not found.
pub proof fn law_files_are_served_from_the_media_server(
    rest: Seq<char>,
    path: Seq<char>,
    redis_hit: bool,
    uri: Seq<char>,
    base: Seq<char>,
    media_proxy_url: Seq<char>,
)
    requires
        !"thumbnail-"@.is_prefix_of(path),
    ensures
        ({
            let file = ResponseJsonView { uri, link: false };
            let thumbnail = "thumbnail-"@ + rest;
            let param = percent_encoded(encode_utf8(base + thumbnail));
            &&& after_file(path, redis_hit, file, Some(base), media_proxy_url)
                == AfterParseView::Fetch(base + path, file_headers(redis_hit, false, base + path))
            &&& after_file(thumbnail, redis_hit, file, Some(base), media_proxy_url)
                == AfterParseView::Reply(
                ReplyView {
                    status: 301,
                    headers: file_headers(redis_hit, false, base + thumbnail).insert(
                        "location"@,
                        seq![
                            encode_utf8(
                                media_proxy_url + "static.webp?url="@ + param + "&static=1"@,
                            ),
                        ],
                    ),
                    body: Some(Seq::empty()),
                },
            )
            &&& percent_decoded(param) == encode_utf8(base + thumbnail)
            &&& after_file(path, redis_hit, file, None, media_proxy_url) == AfterParseView::Reply(
                ReplyView { status: 404, headers: Map::empty(), body: None },
            )
            &&& after_file(thumbnail, redis_hit, file, None, media_proxy_url)
                == AfterParseView::Reply(
                ReplyView { status: 404, headers: Map::empty(), body: None },
            )
        }),
{
    let thumbnail = "thumbnail-"@ + rest;
    lemma_not_a_thumbnail(path);
    law_kinds_of_paths(rest, path);
    law_percent_round_trip(encode_utf8(base + thumbnail));
    lemma_location(redis_hit, false, base + thumbnail, media_proxy_url);
}

proof fn lemma_not_a_thumbnail(path: Seq<char>)
    requires
        !"thumbnail-"@.is_prefix_of(path),
    ensures
        type_id_of(path) != 2,
{
    reveal_strlit("thumbnail-");
}

proof fn lemma_location(redis_hit: bool, link: bool, url: Seq<char>, media_proxy_url: Seq<char>)
    ensures
        appended_text(
            file_headers(redis_hit, link, url),
            "Location"@,
            thumbnail_location(media_proxy_url, url),
        ) == file_headers(redis_hit, link, url).insert(
            "location"@,
            seq![
                encode_utf8(
                    media_proxy_url + "static.webp?url="@ + percent_encoded(encode_utf8(url))
                        + "&static=1"@,
                ),
            ],
        ),
{
    law_keys_of_headers();
    law_headers_of_files(redis_hit, url);
    reveal_strlit("x-fileproxy-hit");
    reveal_strlit("x-remote-url");
    reveal_strlit("vary");
    reveal_strlit("location");
    assert("x-fileproxy-hit"@.len() == 15);
    assert("x-remote-url"@.len() == 12);
    assert("vary"@.len() == 4);
    assert("location"@.len() == 8);
    let location = encode_utf8(thumbnail_location(media_proxy_url, url));
    assert(values_of(file_headers(redis_hit, link, url), "Location"@) =~= Seq::empty());
    assert(Seq::<Seq<u8>>::empty().push(location) =~= seq![location]);
}

/// Where the text is not understood, the client gets a failure under the event
/// id; where it is, what becomes of the file does not depend on that id.
pub proof fn law_parsed_files_go_on(
    path: Seq<char>,
    redis_hit: bool,
    file: ResponseJsonView,
    local_media_url: Option<Seq<char>>,
    media_proxy_url: Seq<char>,
    event_id: Seq<char>,
)
    ensures
        after_parse(path, redis_hit, None, local_media_url, media_proxy_url, event_id)
            == AfterParseView::Reply(
            ReplyView {
                status: 502,
                headers: map!["x-eventid"@ => seq![encode_utf8(event_id)]],
                body: None,
            },
        ),
        after_parse(path, redis_hit, Some(file), local_media_url, media_proxy_url, event_id)
            == after_file(path, redis_hit, file, local_media_url, media_proxy_url),
{
    law_keys_of_headers();
    let none = Seq::<Seq<u8>>::empty();
    assert(none.push(encode_utf8(event_id)) =~= seq![encode_utf8(event_id)]);
    assert(appended_text(no_contents(), "X-EventId"@, event_id) =~= map![
        "x-eventid"@ => seq![encode_utf8(event_id)],
    ]);
}

/// Replies that hang on nothing: at the root, to a failed request to the remote
/// server, and to a ping.
pub proof fn law_fixed_replies(message: Seq<char>, ms: u64, ok: bool)
    ensures
        bare_reply(204) == (ReplyView { status: 204, headers: Map::empty(), body: None }),
        remote_failure(message) == (ReplyView {
            status: 502,
            headers: Map::empty(),
            body: Some(message),
        }),
        ping_reply_of(ms, ok) == (ReplyView {
            status: 200,
            headers: map!["content-type"@ => seq![encode_utf8("application/json"@)]],
            body: Some(
                "{\"ms\":"@ + decimal(ms as nat) + (if ok {
                    ",\"ok\":true}"@
                } else {
                    ",\"ok\":false}"@
                }),
            ),
        }),
{
    law_keys_of_headers();
    law_ping_json(ms, ok);
    let none = Seq::<Seq<u8>>::empty();
    let json = encode_utf8("application/json"@);
    assert(none.push(json) =~= seq![json]);
    assert(ping_reply_of(ms, ok).headers =~= map!["content-type"@ => seq![json]]);
}

/// The status of a reply to a fetched file is 200 exactly where the remote status
/// is a success, 304 exactly where that is 304, and 502 otherwise.
pub proof fn law_reply_status(status: u16)
    ensures
        reply_status(status) == 200 <==> 200 <= status <= 299,
        reply_status(status) == 304 <==> status == 304,
        reply_status(status) == 502 <==> status < 200 || (status > 299 && status != 304),
{
}

/// Under each of the nine names that are copied, in lower case, the client gets
/// what the reply had and then every value of the remote answer, in order. A value
/// that is UTF-8 comes unchanged. The remote status is the last value under its
/// own name. Under every other name the reply keeps what it had.
pub proof fn law_remote_answer_is_relayed(
    headers: Contents,
    status: u16,
    remote: Contents,
    key: Seq<char>,
)
    ensures
        ({
            let reply = remote_reply_headers(headers, status, remote);
            let had = if headers.contains_key(key) {
                headers[key]
            } else {
                Seq::empty()
            };
            let n = had.len() as int;
            let copied = key == "content-length"@ || key == "content-range"@ || key
                == "accept-ranges"@ || key == "content-disposition"@ || key
                == "content-security-policy"@ || key == "content-type"@ || key == "cache-control"@
                || key == "last-modified"@ || key == "etag"@;
            &&& copied && remote.contains_key(key) && remote[key].len() > 0 ==> {
                &&& reply.contains_key(key)
                &&& reply[key].len() == n + remote[key].len()
                &&& reply[key].take(n) == had
                &&& forall|i: int|
                    0 <= i < remote[key].len() ==> reply[key][n + i] == (if valid_utf8(
                        #[trigger] remote[key][i],
                    ) {
                        remote[key][i]
                    } else {
                        encode_utf8(utf8_lossy(remote[key][i]))
                    })
            }
            &&& key == "x-remote-status"@ ==> reply.contains_key(key) && reply[key] == had.push(
                encode_utf8(decimal(status as nat)),
            )
            &&& !copied && key != "x-remote-status"@ ==> reply.contains_key(key)
                == headers.contains_key(key)
            &&& !(copied && remote.contains_key(key)) && key != "x-remote-status"@
                && headers.contains_key(key) ==> reply.contains_key(key) && reply[key]
                == headers[key]
        }),
{
    law_keys_of_headers();
    law_keys_of_remote_headers();
    lemma_copied_names();
    let start = appended_text(headers, "X-Remote-Status"@, decimal(status as nat));
    lemma_reply_headers(headers, status, remote);
    let names = copied_names();
    assert(header_key(names[0]) == "content-length"@);
    assert(header_key(names[1]) == "content-range"@);
    assert(header_key(names[2]) == "accept-ranges"@);
    assert(header_key(names[3]) == "content-disposition"@);
    assert(header_key(names[4]) == "content-security-policy"@);
    assert(header_key(names[5]) == "content-type"@);
    assert(header_key(names[6]) == "cache-control"@);
    assert(header_key(names[7]) == "last-modified"@);
    assert(header_key(names[8]) == "etag"@);
    lemma_relayed(start, remote, names, key);
}

proof fn lemma_relayed(contents: Contents, remote: Contents, names: Seq<Seq<char>>, key: Seq<char>)
    requires
        distinct_keys(names),
    ensures
        ({
            let reply = with_remote_headers(contents, remote, names);
            let had = if contents.contains_key(key) {
                contents[key]
            } else {
                Seq::empty()
            };
            let n = had.len() as int;
            let copied = exists|j: int| 0 <= j < names.len() && header_key(#[trigger] names[j])
                == key;
            &&& copied && remote.contains_key(key) && remote[key].len() > 0 ==> {
                &&& reply.contains_key(key)
                &&& reply[key].len() == n + remote[key].len()
                &&& reply[key].take(n) == had
                &&& forall|i: int|
                    0 <= i < remote[key].len() ==> reply[key][n + i] == (if valid_utf8(
                        #[trigger] remote[key][i],
                    ) {
                        remote[key][i]
                    } else {
                        encode_utf8(utf8_lossy(remote[key][i]))
                    })
            }
            &&& !(copied && remote.contains_key(key)) ==> reply.contains_key(key)
                == contents.contains_key(key) && (contents.contains_key(key) ==> reply[key]
                == contents[key])
        }),
    decreases names.len(),
{
    if names.len() > 0 {
        let rest = names.drop_last();
        let last = names.last();
        let before = with_remote_headers(contents, remote, rest);
        assert(names[names.len() - 1] == last);
        assert forall|i: int, j: int| 0 <= i < j < rest.len() implies header_key(
            #[trigger] rest[i],
        ) != header_key(#[trigger] rest[j]) by {
            assert(rest[i] == names[i] && rest[j] == names[j]);
        }
        assert forall|j: int| 0 <= j < rest.len() implies rest[j] == #[trigger] names[j] by {}
        lemma_relayed(contents, remote, rest, key);
        let other = header_key(last).push('-');
        if header_key(last) == key {
            assert forall|j: int| 0 <= j < rest.len() implies header_key(#[trigger] rest[j])
                != key by {
                assert(rest[j] == names[j]);
            }
            assert(other.len() != key.len());
            law_remote_values_are_copied(before, remote, last, other);
        } else {
            law_remote_values_are_copied(before, remote, last, key);
            if exists|j: int| 0 <= j < names.len() && header_key(#[trigger] names[j]) == key {
                let j = choose|j: int|
                    0 <= j < names.len() && header_key(#[trigger] names[j]) == key;
                assert(rest[j] == names[j]);
            }
            if exists|j: int| 0 <= j < rest.len() && header_key(#[trigger] rest[j]) == key {
                let j = choose|j: int|
                    0 <= j < rest.len() && header_key(#[trigger] rest[j]) == key;
                assert(names[j] == rest[j]);
            }
        }
    }
}

/// Bytes that are visible throughout, or blanks and tabs, are the UTF-8 form of
/// the text that they show.
proof fn lemma_visible_bytes(bytes: Seq<u8>)
    requires
        forall|i: int|
            0 <= i < bytes.len() ==> (#[trigger] bytes[i] == 9 || 32 <= bytes[i] <= 126),
    ensures
        encode_utf8(ascii_text(bytes)) == bytes,
{
    let text = ascii_text(bytes);
    assert(is_ascii_chars(text)) by {
        assert forall|i: int| 0 <= i < text.len() implies 0 <= #[trigger] text[i] as nat <= 127 by {
            assert(text[i] == bytes[i] as char);
        }
    }
    is_ascii_chars_encode_utf8(text);
    assert forall|i: int| 0 <= i < bytes.len() implies encode_utf8(text)[i]
        == #[trigger] bytes[i] by {
        assert(text[i] == bytes[i] as char);
        assert(text[i] as u8 == encode_utf8(text)[i]);
    }
    assert(encode_utf8(text) =~= bytes);
}

proof fn lemma_forwarded(headers: Contents, source: Contents, name: Seq<char>, key: Seq<char>)
    ensures
        ({
            let after = with_forwarded(headers, source, name);
            let had = if headers.contains_key(key) {
                headers[key]
            } else {
                Seq::empty()
            };
            let forwarded = key == header_key(name) && source.contains_key(key)
                && source[key].len() > 0 && forall|i: int|
                0 <= i < source[key][0].len() ==> (#[trigger] source[key][0][i] == 9 || 32
                    <= source[key][0][i] <= 126);
            if forwarded {
                after.contains_key(key) && after[key] == had.push(source[key][0])
            } else {
                after.contains_key(key) == headers.contains_key(key) && (headers.contains_key(key)
                    ==> after[key] == headers[key])
            }
        }),
{
    if first_is_visible(source, name) {
        let bytes = values_of(source, name)[0];
        assert forall|i: int| 0 <= i < bytes.len() implies (#[trigger] bytes[i] == 9 || 32
            <= bytes[i] <= 126) by {
            assert(visible_byte(bytes[i]));
        }
        lemma_visible_bytes(bytes);
    } else if key == header_key(name) && source.contains_key(key) && source[key].len() > 0 {
        let bytes = source[key][0];
        let i = choose|i: int| 0 <= i < bytes.len() && !visible_byte(#[trigger] bytes[i]);
        assert(!(bytes[i] == 9 || 32 <= bytes[i] <= 126));
    }
}

/// A request to the remote server takes four conditions from the headers of the
/// reply so far: behind what it has under such a name, in lower case, comes the
/// first value that is there, byte for byte, where all of it is visible. The user
/// agent is added where one is set. Nothing else is touched.
pub proof fn law_request_headers(
    headers: Contents,
    source: Contents,
    user_agent: Option<Seq<char>>,
    key: Seq<char>,
)
    ensures
        ({
            let request = remote_request_headers(headers, source, user_agent);
            let had = if headers.contains_key(key) {
                headers[key]
            } else {
                Seq::empty()
            };
            let condition = key == "if-modified-since"@ || key == "if-none-match"@ || key
                == "range"@ || key == "if-range"@;
            let forwarded = condition && source.contains_key(key) && source[key].len() > 0
                && forall|i: int|
                0 <= i < source[key][0].len() ==> (#[trigger] source[key][0][i] == 9 || 32
                    <= source[key][0][i] <= 126);
            if forwarded {
                request.contains_key(key) && request[key] == had.push(source[key][0])
            } else if key == "user-agent"@ && user_agent is Some {
                request.contains_key(key) && request[key] == had.push(encode_utf8(user_agent->0))
            } else {
                request.contains_key(key) == headers.contains_key(key) && (headers.contains_key(
                    key,
                ) ==> request[key] == headers[key])
            }
        }),
{
    law_keys_of_remote_headers();
    reveal_strlit("if-modified-since");
    reveal_strlit("if-none-match");
    reveal_strlit("range");
    reveal_strlit("if-range");
    reveal_strlit("user-agent");
    assert("if-modified-since"@.len() == 17);
    assert("if-none-match"@.len() == 13);
    assert("range"@.len() == 5);
    assert("if-range"@.len() == 8);
    assert("user-agent"@.len() == 10);
    let h1 = with_forwarded(headers, source, "If-Modified-Since"@);
    let h2 = with_forwarded(h1, source, "If-None-Match"@);
    let h3 = with_forwarded(h2, source, "Range"@);
    lemma_forwarded(headers, source, "If-Modified-Since"@, key);
    lemma_forwarded(h1, source, "If-None-Match"@, key);
    lemma_forwarded(h2, source, "Range"@, key);
    lemma_forwarded(h3, source, "If-Range"@, key);
}

/// The contents of what is decided on the way are all that is in it.
pub proof fn law_views_show_all(
    reply: Reply,
    file: ResponseJson,
    text: FileText,
    job: RequestJob,
    fetch: Fetch,
    store: Option<CacheWrite>,
    answer: AgentResult,
    name: String,
)
    ensures
        reply@.status == reply.status,
        reply@.headers == header_contents(reply.headers),
        reply.body matches Some(body) ==> reply@.body == Some(body@),
        reply.body is None ==> reply@.body is None,
        file@.uri == file.uri@,
        file@.link == file.link,
        AfterCache::Hit(text)@ == AfterCacheView::Hit(text@),
        AfterCache::Ask(job)@ == AfterCacheView::Ask(job@),
        (AfterAgent { store, next: AgentNext::Json(text) })@.next == AgentNextView::Json(text@),
        (AfterAgent { store, next: AgentNext::Reply(reply) })@.next == AgentNextView::Reply(reply@),
        match store {
            Some(write) => (AfterAgent { store, next: AgentNext::Json(text) })@.store == Some(
                CacheWriteView { key: write.key@, value: write.value@, ttl: write.ttl },
            ),
            None => (AfterAgent { store, next: AgentNext::Json(text) })@.store is None,
        },
        AfterParse::Fetch(fetch)@ == AfterParseView::Fetch(
            fetch.url@,
            header_contents(fetch.headers),
        ),
        AfterParse::Reply(reply)@ == AfterParseView::Reply(reply@),
        answer_view(Some(answer)) == Some(answer@),
        answer_view(None) is None,
        parsed_view(Some(file)) == Some(file@),
        parsed_view(None) is None,
        opt_view(Some(name)) == Some(name@),
        opt_view(None) is None,
        opt_ref_view(Some(&name)) == Some(name@),
        opt_ref_view(None) is None,
{
}

} // verus!
