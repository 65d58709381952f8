//! The agent: it takes requests off a connection, looks files up in the
//! database and sends responses back.

use vstd::prelude::*;
use vstd::slice::slice_subrange;
use vstd::string::*;
use vstd::utf8::*;

use crate::text::{
    decimal, decimal_text, json_chars, json_decoded, json_object, json_object_text, law_json_object,
    law_json_round_trip, law_plain_text_is_json, law_utf8_text_is_read, lossy_text,
    text_from_utf8_lossy, utf8_lossy,
};
use crate::wire::{
    law_request_round_trip, law_response_round_trip, path_fits, request_at, request_frame,
    request_of, response_at, response_frame, text_fits, write_response, JobView, Request,
    RequestView, Response, ResponseView,
};

verus! {

/// The settings of the agent.
#[derive(Debug)]
pub struct ConfigFile {
    pub pg_user: String,
    pub pg_pass: String,
    pub pg_host: String,
    pub pg_port: u16,
    pub pg_database: String,
    pub tcp_host: String,
    pub tcp_port: u16,
}

/// A row of the table of files.
#[derive(Debug)]
#[allow(non_snake_case)]
pub struct DriveFile {
    pub thumbnailAccessKey: String,
    pub webpublicAccessKey: String,
    pub src: Option<String>,
}

/// What the agent says of a file.
#[derive(Debug)]
pub struct ResponseJson {
    pub uri: String,
}

impl From<DriveFile> for ResponseJson {
    fn from(value: DriveFile) -> (json: ResponseJson)
        ensures
            json.uri@ == source_of(value.src),
            value.src matches Some(src) ==> json.uri@ == src@,
            value.src is None ==> json.uri@.len() == 0,
    {
        ResponseJson {
            uri: match value.src {
                Some(src) => src,
                None => String::new(),
            },
        }
    }
}

// What `from` gives is known by its characters alone, so its own contract says
// it, and not a value of the type.
impl vstd::std_specs::convert::FromSpecImpl<DriveFile> for ResponseJson {
    open spec fn obeys_from_spec() -> bool {
        false
    }

    open spec fn from_spec(value: DriveFile) -> ResponseJson {
        choose|json: ResponseJson| json.uri@ == source_of(value.src)
    }
}

/// The address of a file, empty where it has none.
pub open spec fn source_of(src: Option<String>) -> Seq<char> {
    match src {
        Some(src) => src@,
        None => Seq::empty(),
    }
}

/// What a request asks for: a file by its published key, a file by the key of
/// its thumbnail, or nothing that the database is needed for.
pub enum Lookup {
    Webpublic(String),
    Thumbnail(String),
    Done(Response),
}

/// The contents of a [`Lookup`].
#[verifier::ext_equal]
pub enum LookupView {
    Webpublic(Seq<char>),
    Thumbnail(Seq<char>),
    Done(ResponseView),
}

impl View for Lookup {
    type V = LookupView;

    open spec fn view(&self) -> LookupView {
        match self {
            Lookup::Webpublic(name) => LookupView::Webpublic(name@),
            Lookup::Thumbnail(name) => LookupView::Thumbnail(name@),
            Lookup::Done(res) => LookupView::Done(res@),
        }
    }
}

/// The key that a request names: its body after the length of the key.
pub open spec fn requested_name(req: RequestView) -> Seq<char> {
    lossy_text(req.body.skip(2))
}

/// A request that names a key has room for the length of it.
pub open spec fn names_key(req: RequestView) -> bool {
    (req.request_type == 1 || req.request_type == 2) ==> req.body.len() >= 2
}

/// What a request asks for: type 1 is a published key, type 2 the key of a
/// thumbnail, type 3 a ping, and no other type is known.
pub open spec fn lookup_of(req: RequestView) -> LookupView {
    if req.request_type == 1 {
        LookupView::Webpublic(requested_name(req))
    } else if req.request_type == 2 {
        LookupView::Thumbnail(requested_name(req))
    } else if req.request_type == 3 {
        LookupView::Done(ResponseView { status: 204, id: req.id, json: None })
    } else {
        LookupView::Done(ResponseView { status: 501, id: req.id, json: None })
    }
}

/// The key that a request names.
fn body_name(body: &Vec<u8>) -> (name: String)
    requires
        body@.len() >= 2,
    ensures
        name@ == lossy_text(body@.skip(2)),
{
    let rest = slice_subrange(body.as_slice(), 2, body.len());
    assert(rest@ =~= body@.skip(2));
    text_from_utf8_lossy(rest)
}

/// Whether a request that names a key has room for the length of it.
pub fn has_key(req: &Request) -> (r: bool)
    ensures
        r == names_key(req@),
        r == !((req.request_type == 1 || req.request_type == 2) && req.body@.len() < 2),
{
    !(req.request_type == 1 || req.request_type == 2) || req.body.len() >= 2
}

/// Decides what a request asks for.
pub fn lookup(req: &Request) -> (what: Lookup)
    requires
        names_key(req@),
    ensures
        what@ == lookup_of(req@),
        req.request_type == 1 <==> what is Webpublic,
        req.request_type == 2 <==> what is Thumbnail,
        what matches Lookup::Webpublic(name) ==> forall|key: Seq<char>|
            req.body@.skip(2) == #[trigger] encode_utf8(key) ==> name@ == key,
        what matches Lookup::Thumbnail(name) ==> forall|key: Seq<char>|
            req.body@.skip(2) == #[trigger] encode_utf8(key) ==> name@ == key,
        what matches Lookup::Webpublic(name) ==> !valid_utf8(req.body@.skip(2)) ==> name@
            == utf8_lossy(req.body@.skip(2)),
        what matches Lookup::Thumbnail(name) ==> !valid_utf8(req.body@.skip(2)) ==> name@
            == utf8_lossy(req.body@.skip(2)),
        what matches Lookup::Done(res) ==> res.id == req.id && res.json is None && res.status == (
        if req.request_type == 3 {
            204u16
        } else {
            501u16
        }),
{
    proof {
        assert forall|key: Seq<char>| req.body@.skip(2) == #[trigger] encode_utf8(key) implies
            requested_name(req@) == key by {
            law_utf8_text_is_read(key, req.body@.skip(2));
        }
        law_utf8_text_is_read(Seq::empty(), req.body@.skip(2));
    }
    match req.request_type {
        1 => Lookup::Webpublic(body_name(&req.body)),
        2 => Lookup::Thumbnail(body_name(&req.body)),
        3 => Lookup::Done(Response { status: 204, id: req.id, json: None }),
        _ => Lookup::Done(Response { status: 501, id: req.id, json: None }),
    }
}

/// The address of the file that was found, if one was.
pub open spec fn found_source(file: Option<DriveFile>) -> Option<Seq<char>> {
    match file {
        Some(file) => Some(source_of(file.src)),
        None => None,
    }
}

/// The response to a lookup: the address of the file as JSON, or status 500
/// where the database gave none.
pub open spec fn found_response(id: u32, source: Option<Seq<char>>) -> ResponseView {
    match source {
        Some(uri) => ResponseView { status: 200, id, json: Some(json_object("uri"@, uri)) },
        None => ResponseView { status: 500, id, json: None },
    }
}

/// Responds to a lookup.
pub fn found(id: u32, file: Option<DriveFile>) -> (res: Response)
    ensures
        res@ == found_response(id, found_source(file)),
        res.id == id,
        file is Some <==> res.status == 200,
        file is None <==> res.status == 500,
        file is None ==> res.json is None,
        file matches Some(row) ==> (res.json matches Some(text) && text@ == "{\"uri\":\""@
            + json_chars(
            match row.src {
                Some(src) => src@,
                None => Seq::empty(),
            },
        ) + "\"}"@),
{
    proof {
        if file is Some {
            law_found_files(id, file, found_source(file).unwrap());
        }
    }
    match file {
        Some(file) => {
            let json = ResponseJson::from(file);
            Response { status: 200, id, json: json_object_text("uri", json.uri.as_str()) }
        },
        None => Response { status: 500, id, json: None },
    }
}

/// What the reading side of a connection does next: hand a request on, or end,
/// and have the writing side end with it.
pub enum ReadNext {
    Forward(Request),
    End(Response),
}

/// Decides what the reading side does with a request, or where there is none
/// to be read any more.
pub fn on_read(read: Option<Request>) -> (next: ReadNext)
    ensures
        match read {
            Some(req) => next == ReadNext::Forward(req),
            None => next matches ReadNext::End(res) && res@ == (ResponseView {
                status: 0,
                id: 0,
                json: None,
            }),
        },
{
    match read {
        Some(req) => ReadNext::Forward(req),
        None => ReadNext::End(Response { status: 0, id: 0, json: None }),
    }
}

/// What the writing side of a connection does next.
pub enum WriteNext {
    Write(Vec<u8>),
    End,
    Wait,
}

/// Decides what the writing side does with what its queue gave it. Status 0
/// ends the connection.
pub fn on_response(received: Option<Response>) -> (next: WriteNext)
    ensures
        match received {
            Some(res) => if res.status == 0 {
                next == WriteNext::End
            } else {
                next matches WriteNext::Write(frame) && frame@ == response_frame(res@)
            },
            None => next == WriteNext::Wait,
        },
{
    match received {
        Some(res) => if res.status == 0 {
            WriteNext::End
        } else {
            WriteNext::Write(write_response(&res))
        },
        None => WriteNext::Wait,
    }
}

/// Decides what the writing side does once a frame was written, or was not: a
/// failure ends the connection.
pub fn on_written(written: bool) -> (next: WriteNext)
    ensures
        next == (if written {
            WriteNext::Wait
        } else {
            WriteNext::End
        }),
{
    if written {
        WriteNext::Wait
    } else {
        WriteNext::End
    }
}

impl ConfigFile {
    /// The address of the database.
    pub fn database_url(&self) -> (url: String)
        ensures
            url@ == "postgresql://"@ + self.pg_user@ + ":"@ + self.pg_pass@ + "@"@ + self.pg_host@
                + ":"@ + decimal(self.pg_port as nat) + "/"@ + self.pg_database@,
    {
        "postgresql://".to_owned().concat(self.pg_user.as_str()).concat(":").concat(
            self.pg_pass.as_str(),
        ).concat("@").concat(self.pg_host.as_str()).concat(":").concat(
            decimal_text(self.pg_port as u64).as_str(),
        ).concat("/").concat(self.pg_database.as_str())
    }

    /// The address of the proxy.
    pub fn proxy_address(&self) -> (address: String)
        ensures
            address@ == self.tcp_host@ + ":"@ + decimal(self.tcp_port as nat),
    {
        self.tcp_host.clone().concat(":").concat(decimal_text(self.tcp_port as u64).as_str())
    }
}

/// What the agent sends back to a request: what it decides itself, or what the
/// database gives, where `source` is the address of the file it finds.
pub open spec fn answer_of(req: RequestView, source: Option<Seq<char>>) -> ResponseView {
    match lookup_of(req) {
        LookupView::Done(res) => res,
        _ => found_response(req.id, source),
    }
}

/// Every request is answered under its own id, with status 200, 204, 500 or
/// 501, so that no answer ends the connection. There is a text exactly at
/// status 200, and it is not empty.
pub proof fn law_answers_keep_id_and_connection(req: RequestView, source: Option<Seq<char>>)
    ensures
        ({
            let answer = answer_of(req, source);
            &&& answer.id == req.id
            &&& answer.status == 200 || answer.status == 204 || answer.status == 500
                || answer.status == 501
            &&& answer.json is Some <==> answer.status == 200
            &&& answer.json matches Some(json) ==> json.len() > 0
        }),
{
}

/// The database is asked for the path that the proxy was asked for.
pub proof fn law_lookup_names_the_path(job: JobView, id: u32, path: Seq<char>)
    requires
        path_fits(job),
        job.localpath == Some(path),
    ensures
        names_key(request_of(job, id)),
        requested_name(request_of(job, id)) == path,
        job.type_id == 1 ==> lookup_of(request_of(job, id)) == LookupView::Webpublic(path),
        job.type_id == 2 ==> lookup_of(request_of(job, id)) == LookupView::Thumbnail(path),
{
    let body = request_of(job, id).body;
    assert(body.skip(2) =~= encode_utf8(path));
    encode_utf8_valid_utf8(path);
    encode_utf8_decode_utf8(path);
}

/// From the queue of the proxy to its result: a job goes out as a frame, comes
/// back as a frame, and the result bears its id and what the agent answered,
/// whatever follows either frame on its connection.
pub proof fn law_job_to_result(
    job: JobView,
    id: u32,
    source: Option<Seq<char>>,
    after_request: Seq<u8>,
    after_response: Seq<u8>,
)
    requires
        path_fits(job),
        text_fits(answer_of(request_of(job, id), source)),
    ensures
        request_at(request_frame(job, id) + after_request) matches Ok((req, _)) && {
            let answer = answer_of(req, source);
            &&& response_at(response_frame(answer) + after_response) matches Ok((res, _))
            &&& res.id == id
            &&& res.status == answer.status
            &&& res.json == answer.json
        },
{
    law_request_round_trip(job, id, after_request);
    let answer = answer_of(request_of(job, id), source);
    law_response_round_trip(answer, after_response);
    assert(answer.json matches Some(json) ==> json.len() > 0);
}

/// A request that holds a key behind two bytes asks for that very key: under
/// type 1 for the published file, under type 2 for the thumbnail. Type 3 is
/// answered with 204 and any other type with 501, whatever the request holds.
pub proof fn law_requests_ask_for_their_key(req: RequestView, len: Seq<u8>, key: Seq<char>)
    requires
        len.len() == 2,
        req.body == len + encode_utf8(key),
    ensures
        req.request_type == 1 ==> lookup_of(req) == LookupView::Webpublic(key),
        req.request_type == 2 ==> lookup_of(req) == LookupView::Thumbnail(key),
        req.request_type == 3 ==> lookup_of(req) == LookupView::Done(
            ResponseView { status: 204, id: req.id, json: None },
        ),
        req.request_type == 0 || req.request_type > 3 ==> lookup_of(req) == LookupView::Done(
            ResponseView { status: 501, id: req.id, json: None },
        ),
{
    assert(req.body.skip(2) =~= encode_utf8(key));
    law_utf8_text_is_read(key, req.body);
}

/// A request whose key is not UTF-8 asks for what `String::from_utf8_lossy` makes
/// of it.
pub proof fn law_unreadable_keys_are_replaced(req: RequestView)
    requires
        req.body.len() >= 2,
        !valid_utf8(req.body.skip(2)),
    ensures
        req.request_type == 1 ==> lookup_of(req) == LookupView::Webpublic(
            utf8_lossy(req.body.skip(2)),
        ),
        req.request_type == 2 ==> lookup_of(req) == LookupView::Thumbnail(
            utf8_lossy(req.body.skip(2)),
        ),
{
    law_utf8_text_is_read(Seq::empty(), req.body.skip(2));
}

/// Whenever the database gives a row, the response has status 200 and the
/// address of the row, empty where it has none, as the string `uri` of a JSON
/// object: the string decodes to the address, and is the address itself where
/// nothing in there needs an escape. Status 500 comes where there is no row.
pub proof fn law_found_files(id: u32, file: Option<DriveFile>, src: Seq<char>)
    requires
        file matches Some(row) ==> match row.src {
            Some(text) => src == text@,
            None => src.len() == 0,
        },
    ensures
        found_response(id, found_source(file)).id == id,
        file is None ==> found_response(id, found_source(file)).status == 500,
        file is None ==> found_response(id, found_source(file)).json is None,
        file is Some ==> found_response(id, found_source(file)).status == 200,
        file is Some ==> found_response(id, found_source(file)).json == Some(
            "{\"uri\":\""@ + json_chars(src) + "\"}"@,
        ),
        json_decoded(json_chars(src)) == src,
        (forall|i: int|
            0 <= i < src.len() ==> (#[trigger] src[i]) as u32 >= 32 && src[i] != '"' && src[i]
                != '\\') ==> json_chars(src) == src,
{
    law_json_object("uri"@, src);
    law_json_round_trip(src);
    reveal_strlit("uri");
    law_plain_text_is_json("uri"@);
    reveal_strlit("{\"");
    reveal_strlit("\":\"");
    reveal_strlit("{\"uri\":\"");
    assert("{\""@ + "uri"@ + "\":\""@ =~= "{\"uri\":\""@);
    if forall|i: int|
        0 <= i < src.len() ==> (#[trigger] src[i]) as u32 >= 32 && src[i] != '"' && src[i]
            != '\\' {
        law_plain_text_is_json(src);
    }
    if let Some(row) = file {
        assert(source_of(row.src) =~= src);
    }
}

/// The contents of a lookup are all that is in it.
pub proof fn law_lookup_view_shows_all(name: String, res: Response)
    ensures
        Lookup::Webpublic(name)@ == LookupView::Webpublic(name@),
        Lookup::Thumbnail(name)@ == LookupView::Thumbnail(name@),
        Lookup::Done(res)@ == LookupView::Done(res@),
{
}

} // verus!
