//! A request for a file from beginning to end, as one value that goes from
//! stage to stage and holds the path on its way.

use vstd::prelude::*;

use crate::headers::header_text;
use crate::http::{
    addresses_are_header_text, after_agent, after_cache, after_parse, agent_failed, answer_json,
    answer_view, bare_reply, can_address, file_address, file_url, on_agent, on_cache, on_json,
    on_parse, opt_ref_view, parsed_view, AfterAgentView, AfterCache, AfterCacheView, AfterJson,
    AfterParse, AfterParseView, AgentNext, AgentNextView, CacheWrite, CacheWriteView, FileText,
    FileTextView, Reply, ReplyView, ResponseJson, ResponseJsonView,
};
use crate::text::is_event_id;
use crate::wire::{opt_view, AgentResult, RequestJob, ResponseView};

verus! {

/// What the deployment fixes of every request.
pub struct Site {
    pub has_cache: bool,
    pub ttl: Option<u64>,
    pub local_media_url: Option<Seq<char>>,
    pub media_proxy_url: Seq<char>,
    pub parse: spec_fn(Seq<char>) -> Option<ResponseJsonView>,
}

/// What becomes of a request up to where a file is fetched or a reply made.
pub struct Served {
    pub store: Option<CacheWriteView>,
    pub outcome: AfterParseView,
}

/// What becomes of the text known of a file.
pub open spec fn served_json(
    site: Site,
    path: Seq<char>,
    text: FileTextView,
    event_id: Seq<char>,
) -> AfterParseView {
    if text.json.len() == 0 {
        AfterParseView::Reply(bare_reply(204))
    } else {
        after_parse(
            path,
            text.redis_hit,
            (site.parse)(text.json),
            site.local_media_url,
            site.media_proxy_url,
            event_id,
        )
    }
}

/// What becomes of a request for a path, from what the cache holds and what
/// the agent would answer.
pub open spec fn served(
    site: Site,
    path: Seq<char>,
    cached: Option<Seq<char>>,
    answer: Option<ResponseView>,
    event_id: Seq<char>,
) -> Served {
    match after_cache(path, cached) {
        AfterCacheView::Hit(text) => Served {
            store: None,
            outcome: served_json(site, path, text, event_id),
        },
        AfterCacheView::Ask(_) => {
            let after = after_agent(path, site.has_cache, site.ttl, answer, event_id);
            Served {
                store: after.store,
                outcome: match after.next {
                    AgentNextView::Json(text) => served_json(site, path, text, event_id),
                    AgentNextView::Reply(reply) => AfterParseView::Reply(reply),
                },
            }
        },
    }
}

/// The settings that bear on a request for a file.
pub struct Deployment {
    pub has_cache: bool,
    pub ttl: Option<u64>,
    pub local_media_url: Option<String>,
    pub media_proxy_url: String,
}

impl Site {
    /// The site has the settings of a deployment.
    pub open spec fn is_of(self, deployment: Deployment) -> bool {
        &&& self.has_cache == deployment.has_cache
        &&& self.ttl == deployment.ttl
        &&& self.local_media_url == opt_view(deployment.local_media_url)
        &&& self.media_proxy_url == deployment.media_proxy_url@
    }
}

/// A request for a file, before the cache was asked.
pub struct FileRequest<'a> {
    path: String,
    deployment: &'a Deployment,
}

/// A request that the cache holds nothing for, and that the agent is asked for.
pub struct AskedFile<'a> {
    path: String,
    deployment: &'a Deployment,
}

/// What a request is for, and under which settings.
#[verifier::ext_equal]
pub struct FileRequestView {
    pub path: Seq<char>,
    pub deployment: Deployment,
}

impl<'a> View for FileRequest<'a> {
    type V = FileRequestView;

    closed spec fn view(&self) -> FileRequestView {
        FileRequestView { path: self.path@, deployment: *self.deployment }
    }
}

impl<'a> View for AskedFile<'a> {
    type V = FileRequestView;

    closed spec fn view(&self) -> FileRequestView {
        FileRequestView { path: self.path@, deployment: *self.deployment }
    }
}

/// A request for a file of which a text is known. It is remembered what the
/// cache held and what the agent answered.
pub struct KnownFile<'a> {
    path: String,
    deployment: &'a Deployment,
    text: FileText,
    cached: Ghost<Option<Seq<char>>>,
    answer: Ghost<Option<ResponseView>>,
}

/// The contents of a [`KnownFile`].
#[verifier::ext_equal]
pub struct KnownFileView {
    pub request: FileRequestView,
    pub text: FileTextView,
    pub cached: Option<Seq<char>>,
    pub answer: Option<ResponseView>,
}

impl<'a> View for KnownFile<'a> {
    type V = KnownFileView;

    closed spec fn view(&self) -> KnownFileView {
        KnownFileView {
            request: FileRequestView { path: self.path@, deployment: *self.deployment },
            text: self.text@,
            cached: self.cached@,
            answer: self.answer@,
        }
    }
}

/// Where a request stands once its text was sought: a text is known, or the
/// reply is.
#[verifier::ext_equal]
pub enum TextView {
    Known(FileTextView),
    Reply(ReplyView),
}

/// Where a request stands with a text: an empty one says that there is nothing
/// to serve.
pub open spec fn sought(text: FileTextView) -> TextView {
    if text.json.len() == 0 {
        TextView::Reply(bare_reply(204))
    } else {
        TextView::Known(text)
    }
}

/// Where a request stands once the agent was asked.
pub open spec fn sought_from_agent(after: AfterAgentView) -> TextView {
    match after.next {
        AgentNextView::Json(text) => sought(text),
        AgentNextView::Reply(reply) => TextView::Reply(reply),
    }
}

/// The text of a request is what the cache held, or else what the agent
/// answered, and there is something in it.
pub open spec fn text_is_known(known: KnownFileView) -> bool {
    &&& known.text.json.len() > 0
    &&& match known.cached {
        Some(json) => known.text == (FileTextView { json, redis_hit: true }),
        None => known.answer matches Some(res) && res.status == 200 && known.text == (
        FileTextView { json: answer_json(res).unwrap(), redis_hit: false }),
    }
}

/// On every site of a deployment, whatever its parser, the request is served
/// with `reply` once the cache and the agent were asked.
pub open spec fn served_reply(
    request: FileRequestView,
    cached: Option<Seq<char>>,
    answer: Option<ResponseView>,
    event_id: Seq<char>,
    reply: ReplyView,
) -> bool {
    forall|site: Site|
        site.is_of(request.deployment) ==> (#[trigger] served(
            site,
            request.path,
            cached,
            answer,
            event_id,
        )).outcome == AfterParseView::Reply(reply)
}

/// On every site of a deployment, the request is served with `outcome` where
/// the parser of the site makes `parsed` of its text.
pub open spec fn served_outcome(
    known: KnownFileView,
    parsed: Option<ResponseJsonView>,
    event_id: Seq<char>,
    outcome: AfterParseView,
) -> bool {
    forall|site: Site|
        site.is_of(known.request.deployment) && (site.parse)(known.text.json) == parsed
            ==> (#[trigger] served(
            site,
            known.request.path,
            known.cached,
            known.answer,
            event_id,
        )).outcome == outcome
}

/// On every site of a deployment, `store` is written to the cache.
pub open spec fn served_store(
    request: FileRequestView,
    answer: Option<ResponseView>,
    event_id: Seq<char>,
    store: Option<CacheWriteView>,
) -> bool {
    forall|site: Site|
        site.is_of(request.deployment) ==> (#[trigger] served(
            site,
            request.path,
            None,
            answer,
            event_id,
        )).store == store
}

/// Where a request stands once the cache was asked.
pub enum CacheStep<'a> {
    Known(KnownFile<'a>),
    Ask(AskedFile<'a>, RequestJob),
    Reply(Reply),
}

/// Where a request stands once the agent was asked, with what is to be written
/// to the cache first.
pub struct AgentStep<'a> {
    pub store: Option<CacheWrite>,
    pub next: TextStep<'a>,
}

/// Where a request stands once its text was sought.
pub enum TextStep<'a> {
    Known(KnownFile<'a>),
    Reply(Reply),
}

impl<'a> TextStep<'a> {
    /// The step without what it remembers.
    pub open spec fn reached(self) -> TextView {
        match self {
            TextStep::Known(known) => TextView::Known(known@.text),
            TextStep::Reply(reply) => TextView::Reply(reply@),
        }
    }
}

impl<'a> FileRequest<'a> {
    /// A request for a path.
    pub fn new(path: String, deployment: &'a Deployment) -> (request: FileRequest<'a>)
        ensures
            request@ == (FileRequestView { path: path@, deployment: *deployment }),
    {
        FileRequest { path, deployment }
    }

    /// The path, under which the cache is asked.
    pub fn path(&self) -> (path: &str)
        ensures
            path@ == self@.path,
    {
        self.path.as_str()
    }

    /// Goes on with what the cache held.
    pub fn on_cached(self, cached: Option<String>) -> (step: CacheStep<'a>)
        ensures
            match cached {
                None => step matches CacheStep::Ask(asked, job) && asked@ == self@ && after_cache(
                    self@.path,
                    None,
                ) == AfterCacheView::Ask(job@),
                Some(json) => if json@.len() == 0 {
                    step matches CacheStep::Reply(reply) && forall|
                        answer: Option<ResponseView>,
                        event_id: Seq<char>,
                    | #[trigger]
                        served_reply(self@, Some(json@), answer, event_id, reply@)
                } else {
                    step matches CacheStep::Known(known) && text_is_known(known@) && known@ == (
                    KnownFileView {
                        request: self@,
                        text: FileTextView { json: json@, redis_hit: true },
                        cached: Some(json@),
                        answer: None,
                    })
                },
            },
    {
        let ghost held = opt_view(cached);
        match on_cache(self.path.as_str(), cached) {
            AfterCache::Ask(job) => CacheStep::Ask(
                AskedFile { path: self.path, deployment: self.deployment },
                job,
            ),
            AfterCache::Hit(text) => match on_json(text) {
                AfterJson::Reply(reply) => CacheStep::Reply(reply),
                AfterJson::Parse(text) => CacheStep::Known(
                    KnownFile {
                        path: self.path,
                        deployment: self.deployment,
                        text,
                        cached: Ghost(held),
                        answer: Ghost(None),
                    },
                ),
            },
        }
    }
}

impl<'a> AskedFile<'a> {
    /// Goes on with what the agent answered, if it did in time. A failure gets a
    /// fresh event id.
    pub fn on_answer(self, answer: Option<AgentResult>) -> (step: AgentStep<'a>)
        ensures
            exists|event_id: Seq<char>|
                (agent_failed(answer_view(answer)) ==> is_event_id(event_id))
                    && #[trigger] step.follows(self@, answer_view(answer), event_id),
            step.next is Known <==> (answer matches Some(res) && res.status == 200 && (
            res.json matches Some(json) && json@.len() > 0)),
            step.next matches TextStep::Known(known) ==> known@.text.json == answer->0.json->0@
                && !known@.text.redis_hit,
            step.next matches TextStep::Reply(reply) ==> reply.status == (match answer {
                None => 504u16,
                Some(res) => if res.status == 200 {
                    204u16
                } else if res.status == 404 {
                    404u16
                } else {
                    502u16
                },
            }),
            step.store is Some <==> self@.deployment.has_cache && (answer matches Some(res) && (
            res.status == 200 || res.status == 204)),
            step.store matches Some(write) ==> write.key@ == self@.path && write.ttl
                == self@.deployment.ttl,
            step.store matches Some(write) ==> match step.next {
                TextStep::Known(known) => write.value@ == known@.text.json,
                TextStep::Reply(_) => write.value@.len() == 0,
            },
    {
        let ghost answered = answer_view(answer);
        let ghost request = self@;
        let after = on_agent(
            self.path.as_str(),
            self.deployment.has_cache,
            self.deployment.ttl,
            answer,
        );
        let ghost decided = after@;
        let next = match after.next {
            AgentNext::Reply(reply) => TextStep::Reply(reply),
            AgentNext::Json(text) => match on_json(text) {
                AfterJson::Reply(reply) => TextStep::Reply(reply),
                AfterJson::Parse(text) => TextStep::Known(
                    KnownFile {
                        path: self.path,
                        deployment: self.deployment,
                        text,
                        cached: Ghost(None),
                        answer: Ghost(answered),
                    },
                ),
            },
        };
        let step = AgentStep { store: after.store, next };
        proof {
            let event_id = choose|event_id: Seq<char>|
                (agent_failed(answered) ==> is_event_id(event_id)) && decided
                    == #[trigger] after_agent(
                    request.path,
                    request.deployment.has_cache,
                    request.deployment.ttl,
                    answered,
                    event_id,
                );
            assert(step.stored() == decided.store);
            assert(step.follows(request, answered, event_id));
        }
        step
    }
}

impl<'a> AgentStep<'a> {
    /// The contents of what is written to the cache.
    pub open spec fn stored(self) -> Option<CacheWriteView> {
        match self.store {
            Some(w) => Some(CacheWriteView { key: w.key@, value: w.value@, ttl: w.ttl }),
            None => None,
        }
    }

    /// The step is where a request goes from an answer, under an event id: the
    /// write to the cache and the reply are those that it is served with, and a
    /// text that is known comes from the answer.
    pub open spec fn follows(
        self,
        request: FileRequestView,
        answer: Option<ResponseView>,
        event_id: Seq<char>,
    ) -> bool {
        let after = after_agent(
            request.path,
            request.deployment.has_cache,
            request.deployment.ttl,
            answer,
            event_id,
        );
        &&& self.stored() == after.store
        &&& served_store(request, answer, event_id, self.stored())
        &&& self.next.reached() == sought_from_agent(after)
        &&& match self.next {
            TextStep::Known(known) => text_is_known(known@) && known@ == (KnownFileView {
                request,
                text: known@.text,
                cached: None,
                answer,
            }),
            TextStep::Reply(reply) => served_reply(request, None, answer, event_id, reply@),
        }
    }
}

impl<'a> KnownFile<'a> {
    #[verifier::type_invariant]
    spec fn inv(self) -> bool {
        text_is_known(self@)
    }

    /// The text to parse.
    pub fn json(&self) -> (text: &str)
        ensures
            text@ == self@.text.json,
    {
        self.text.json()
    }

    /// The address of the file, if it has one.
    pub fn address(&self, file: &ResponseJson) -> (url: Option<String>)
        ensures
            opt_view(url) == file_url(
                self@.request.path,
                file@,
                opt_view(self@.request.deployment.local_media_url),
            ),
            file.link ==> (url matches Some(address) && address@ == file.uri@),
            !file.link ==> match self@.request.deployment.local_media_url {
                Some(base) => url matches Some(address) && address@ == base@ + self@.request.path,
                None => url is None,
            },
    {
        file_address(self.path.as_str(), file, self.deployment.local_media_url.as_ref())
    }

    /// Whether the addresses of the file can stand in the headers that they go
    /// into.
    pub fn can_serve(&self, file: &ResponseJson) -> (r: bool)
        ensures
            r == servable(self@.request, file@),
            r <==> (file.link ==> header_text(file.uri@)) && ("thumbnail-"@.is_prefix_of(
                self@.request.path,
            ) && (file.link || self@.request.deployment.local_media_url is Some) ==> header_text(
                self@.request.deployment.media_proxy_url@,
            )),
    {
        can_address(
            self.path.as_str(),
            file,
            self.deployment.local_media_url.as_ref(),
            self.deployment.media_proxy_url.as_str(),
        )
    }

    /// Goes on with what was parsed of the text, if it could be. A failure gets
    /// a fresh event id.
    pub fn on_parsed(self, parsed: Option<ResponseJson>) -> (next: AfterParse)
        requires
            parsed matches Some(file) ==> servable(self@.request, file@),
        ensures
            exists|event_id: Seq<char>|
                {
                    &&& parsed is None ==> is_event_id(event_id)
                    &&& next@ == #[trigger] after_parse(
                        self@.request.path,
                        self@.text.redis_hit,
                        parsed_view(parsed),
                        opt_view(self@.request.deployment.local_media_url),
                        self@.request.deployment.media_proxy_url@,
                        event_id,
                    )
                    &&& served_outcome(self@, parsed_view(parsed), event_id, next@)
                },
            next matches AfterParse::Fetch(fetch) ==> fetch.wf(),
            next is Fetch <==> (parsed matches Some(file) && (file.link
                || self@.request.deployment.local_media_url is Some)
                && !"thumbnail-"@.is_prefix_of(self@.request.path)),
            next matches AfterParse::Fetch(fetch) ==> fetch.url@ == (if parsed->0.link {
                parsed->0.uri@
            } else {
                self@.request.deployment.local_media_url->0@ + self@.request.path
            }),
            next matches AfterParse::Reply(reply) ==> reply.status == (match parsed {
                None => 502u16,
                Some(file) => if file.link || self@.request.deployment.local_media_url is Some {
                    301u16
                } else {
                    404u16
                },
            }),
    {
        proof {
            use_type_invariant(&self);
        }
        let ghost known = self@;
        let ghost found = parsed_view(parsed);
        let local_media_url = self.deployment.local_media_url.as_ref();
        let next = on_parse(
            self.path.as_str(),
            &self.text,
            parsed,
            local_media_url,
            self.deployment.media_proxy_url.as_str(),
        );
        proof {
            let event_id = choose|event_id: Seq<char>|
                (found is None ==> is_event_id(event_id)) && next@ == #[trigger] after_parse(
                    known.request.path,
                    known.text.redis_hit,
                    found,
                    opt_ref_view(local_media_url),
                    known.request.deployment.media_proxy_url@,
                    event_id,
                );
            assert(served_outcome(known, found, event_id, next@));
        }
        next
    }
}

/// What goes into a header for a file can stand there.
pub open spec fn servable(request: FileRequestView, file: ResponseJsonView) -> bool {
    addresses_are_header_text(
        request.path,
        file,
        opt_view(request.deployment.local_media_url),
        request.deployment.media_proxy_url@,
    )
}

} // verus!
