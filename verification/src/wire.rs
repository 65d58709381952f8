//! The frames that the proxy and its agent exchange over TCP.
//!
//! A request is one byte of kind, one reserved byte, a 32-bit id, a 16-bit body
//! length and the body. A response is a 16-bit status, a 32-bit id, a 16-bit
//! text length and the text. All numbers are big-endian.

use vstd::prelude::*;
use vstd::slice::{slice_subrange, slice_to_vec};
use vstd::string::*;
use vstd::utf8::*;

use crate::text::text_from_utf8;

verus! {

/// A request as the agent receives it.
pub struct Request {
    pub request_type: u8,
    pub _reserved: [u8; 1],
    pub id: u32,
    pub body: Vec<u8>,
}

/// A response as the agent sends it. Status 0 is never sent: it asks the
/// sending side to end the connection.
pub struct Response {
    pub status: u16,
    pub id: u32,
    pub json: Option<String>,
}

/// A request as the proxy queues it.
pub struct RequestJob {
    pub type_id: u8,
    pub localpath: Option<String>,
}

/// A response as the proxy receives it.
#[derive(Debug)]
pub struct AgentResult {
    pub id: u32,
    pub status: u16,
    pub json: Option<String>,
}

/// The input ends before the frame does. The frame cannot be told from fewer
/// than `needed` bytes.
pub struct UnexpectedEof {
    pub needed: usize,
}

/// The contents of a [`Request`].
#[verifier::ext_equal]
pub struct RequestView {
    pub request_type: u8,
    pub reserved: u8,
    pub id: u32,
    pub body: Seq<u8>,
}

/// The contents of a [`Response`] or an [`AgentResult`].
#[verifier::ext_equal]
pub struct ResponseView {
    pub status: u16,
    pub id: u32,
    pub json: Option<Seq<char>>,
}

/// The contents of a [`RequestJob`].
#[verifier::ext_equal]
pub struct JobView {
    pub type_id: u8,
    pub localpath: Option<Seq<char>>,
}

/// The characters of an optional string.
pub open spec fn opt_view(s: Option<String>) -> Option<Seq<char>> {
    match s {
        Some(t) => Some(t@),
        None => None,
    }
}

impl View for Request {
    type V = RequestView;

    open spec fn view(&self) -> RequestView {
        RequestView {
            request_type: self.request_type,
            reserved: self._reserved@[0],
            id: self.id,
            body: self.body@,
        }
    }
}

impl View for Response {
    type V = ResponseView;

    open spec fn view(&self) -> ResponseView {
        ResponseView { status: self.status, id: self.id, json: opt_view(self.json) }
    }
}

impl View for AgentResult {
    type V = ResponseView;

    open spec fn view(&self) -> ResponseView {
        ResponseView { status: self.status, id: self.id, json: opt_view(self.json) }
    }
}

impl View for RequestJob {
    type V = JobView;

    open spec fn view(&self) -> JobView {
        JobView { type_id: self.type_id, localpath: opt_view(self.localpath) }
    }
}

/// Two bytes, the more significant one first.
pub open spec fn be16(n: int) -> Seq<u8> {
    seq![(n / 256) as u8, (n % 256) as u8]
}

/// Four bytes, the most significant one first.
pub open spec fn be32(n: int) -> Seq<u8> {
    be16(n / 65536) + be16(n % 65536)
}

/// The 16-bit number at `i`.
pub open spec fn be16_at(s: Seq<u8>, i: int) -> int {
    s[i] * 256 + s[i + 1]
}

/// The 32-bit number at `i`.
pub open spec fn be32_at(s: Seq<u8>, i: int) -> int {
    be16_at(s, i) * 65536 + be16_at(s, i + 2)
}

/// The length that a 16-bit length field shows of `n` bytes.
pub open spec fn len16(n: int) -> int {
    n % 65536
}

/// The part of a request frame that follows the id: a length alone where there
/// is no path, else the length of what follows, and the path after its own
/// length. Both lengths are cut to 16 bits; the path is not.
pub open spec fn request_tail(localpath: Option<Seq<char>>) -> Seq<u8> {
    match localpath {
        Some(path) => {
            let bytes = encode_utf8(path);
            be16(len16(bytes.len() as int) + 2) + be16(len16(bytes.len() as int)) + bytes
        },
        None => be16(0),
    }
}

/// The frame of a job under an id.
pub open spec fn request_frame(job: JobView, id: u32) -> Seq<u8> {
    seq![job.type_id, 0u8] + be32(id as int) + request_tail(job.localpath)
}

/// The length field of a request frame, path and inner length together, does
/// not overflow.
pub open spec fn request_fits(job: JobView) -> bool {
    job.localpath matches Some(path) ==> len16(encode_utf8(path).len() as int) + 2 < 65536
}

/// What the start of `s` says as a request frame: the request and the length of
/// the frame, or how many bytes must be there before more can be said.
pub open spec fn request_at(s: Seq<u8>) -> Result<(RequestView, int), int> {
    if s.len() < 8 {
        Err(8)
    } else {
        let end = 8 + be16_at(s, 6);
        if s.len() < end {
            Err(end)
        } else {
            Ok(
                (
                    RequestView {
                        request_type: s[0],
                        reserved: s[1],
                        id: be32_at(s, 2) as u32,
                        body: s.subrange(8, end),
                    },
                    end,
                ),
            )
        }
    }
}

/// The frame of a response. The text follows its length, cut to 16 bits; the
/// text itself is not cut.
pub open spec fn response_frame(res: ResponseView) -> Seq<u8> {
    let bytes = match res.json {
        Some(json) => encode_utf8(json),
        None => Seq::empty(),
    };
    be16(res.status as int) + be32(res.id as int) + be16(len16(bytes.len() as int)) + bytes
}

/// The text that the bytes of a response carry: none where there are no bytes
/// or where they are not UTF-8.
pub open spec fn response_text(bytes: Seq<u8>) -> Option<Seq<char>> {
    if bytes.len() > 0 && valid_utf8(bytes) {
        Some(decode_utf8(bytes))
    } else {
        None
    }
}

/// What the start of `s` says as a response frame.
pub open spec fn response_at(s: Seq<u8>) -> Result<(ResponseView, int), int> {
    if s.len() < 8 {
        Err(8)
    } else {
        let end = 8 + be16_at(s, 6);
        if s.len() < end {
            Err(end)
        } else {
            Ok(
                (
                    ResponseView {
                        status: be16_at(s, 0) as u16,
                        id: be32_at(s, 2) as u32,
                        json: response_text(s.subrange(8, end)),
                    },
                    end,
                ),
            )
        }
    }
}

fn put_u16(out: &mut Vec<u8>, n: u16)
    ensures
        final(out)@ == old(out)@ + be16(n as int),
{
    out.push((n / 256) as u8);
    out.push((n % 256) as u8);
}

fn put_u32(out: &mut Vec<u8>, n: u32)
    ensures
        final(out)@ == old(out)@ + be32(n as int),
{
    put_u16(out, (n / 65536) as u16);
    put_u16(out, (n % 65536) as u16);
}

fn put_bytes(out: &mut Vec<u8>, bytes: &[u8])
    ensures
        final(out)@ == old(out)@ + bytes@,
{
    out.extend_from_slice(bytes);
}

fn get_u16(s: &[u8], i: usize) -> (n: u16)
    requires
        i + 2 <= s.len(),
    ensures
        n == be16_at(s@, i as int),
{
    (s[i] as u16) * 256 + (s[i + 1] as u16)
}

fn get_u32(s: &[u8], i: usize) -> (n: u32)
    requires
        i + 4 <= s.len(),
    ensures
        n == be32_at(s@, i as int),
{
    (get_u16(s, i) as u32) * 65536 + (get_u16(s, i + 2) as u32)
}

/// Whether the length field of the frame of a job does not overflow.
pub fn job_fits(job: &RequestJob) -> (r: bool)
    ensures
        r == request_fits(job@),
        r == (match job.localpath {
            Some(path) => encode_utf8(path@).len() % 65536 <= 65533,
            None => true,
        }),
{
    match &job.localpath {
        Some(path) => path.as_str().as_bytes().len() % 65536 < 65534,
        None => true,
    }
}

/// Writes the frame of a job under an id.
pub fn req(job: &RequestJob, id: u32) -> (frame: Vec<u8>)
    requires
        request_fits(job@),
    ensures
        frame@ == request_frame(job@, id),
{
    let mut frame: Vec<u8> = Vec::new();
    frame.push(job.type_id);
    frame.push(0);
    put_u32(&mut frame, id);
    match &job.localpath {
        Some(path) => {
            let bytes = path.as_str().as_bytes();
            let len: u16 = (bytes.len() % 65536) as u16;
            put_u16(&mut frame, len + 2);
            put_u16(&mut frame, len);
            put_bytes(&mut frame, bytes);
        },
        None => {
            put_u16(&mut frame, 0);
        },
    }
    assert(frame@ =~= request_frame(job@, id));
    frame
}

/// Reads the request frame at the start of `input`.
pub fn read_request(input: &[u8]) -> (r: Result<(Request, usize), UnexpectedEof>)
    ensures
        match request_at(input@) {
            Ok((req, n)) => r matches Ok((q, m)) && q@ == req && m == n,
            Err(needed) => r matches Err(e) && e.needed == needed,
        },
{
    if input.len() < 8 {
        return Err(UnexpectedEof { needed: 8 });
    }
    let end: usize = 8 + get_u16(input, 6) as usize;
    if input.len() < end {
        return Err(UnexpectedEof { needed: end });
    }
    let body = slice_to_vec(slice_subrange(input, 8, end));
    let request = Request {
        request_type: input[0],
        _reserved: [input[1]],
        id: get_u32(input, 2),
        body,
    };
    Ok((request, end))
}

/// Writes the frame of a response.
pub fn write_response(res: &Response) -> (frame: Vec<u8>)
    ensures
        frame@ == response_frame(res@),
{
    let mut frame: Vec<u8> = Vec::new();
    put_u16(&mut frame, res.status);
    put_u32(&mut frame, res.id);
    match &res.json {
        Some(json) => {
            let bytes = json.as_str().as_bytes();
            put_u16(&mut frame, (bytes.len() % 65536) as u16);
            put_bytes(&mut frame, bytes);
        },
        None => {
            put_u16(&mut frame, 0);
        },
    }
    assert(frame@ =~= response_frame(res@));
    frame
}

/// Reads the response frame at the start of `input`.
pub fn res(input: &[u8]) -> (r: Result<(AgentResult, usize), UnexpectedEof>)
    ensures
        match response_at(input@) {
            Ok((res, n)) => r matches Ok((q, m)) && q@ == res && m == n,
            Err(needed) => r matches Err(e) && e.needed == needed,
        },
{
    if input.len() < 8 {
        return Err(UnexpectedEof { needed: 8 });
    }
    let end: usize = 8 + get_u16(input, 6) as usize;
    if input.len() < end {
        return Err(UnexpectedEof { needed: end });
    }
    let json = if end > 8 {
        text_from_utf8(slice_to_vec(slice_subrange(input, 8, end)))
    } else {
        None
    };
    let result = AgentResult { id: get_u32(input, 2), status: get_u16(input, 0), json };
    Ok((result, end))
}

/// The body that the agent sees of a job: empty without a path, else the path
/// after its length.
pub open spec fn request_body(localpath: Option<Seq<char>>) -> Seq<u8> {
    match localpath {
        Some(path) => be16(len16(encode_utf8(path).len() as int)) + encode_utf8(path),
        None => Seq::empty(),
    }
}

/// The request that the agent sees of a job.
pub open spec fn request_of(job: JobView, id: u32) -> RequestView {
    RequestView {
        request_type: job.type_id,
        reserved: 0,
        id,
        body: request_body(job.localpath),
    }
}

/// The path and its length fit the 16-bit length field of a request.
pub open spec fn path_fits(job: JobView) -> bool {
    job.localpath matches Some(path) ==> encode_utf8(path).len() + 2 < 65536
}

/// The text fits the 16-bit length field of a response.
pub open spec fn text_fits(res: ResponseView) -> bool {
    res.json matches Some(json) ==> encode_utf8(json).len() < 65536
}

/// A response as it arrives: an empty text arrives as none.
pub open spec fn response_of(res: ResponseView) -> ResponseView {
    ResponseView {
        json: match res.json {
            Some(json) => if json.len() == 0 {
                None
            } else {
                Some(json)
            },
            None => None,
        },
        ..res
    }
}

proof fn lemma_be16(n: int, s: Seq<u8>, i: int)
    requires
        0 <= n < 65536,
        0 <= i,
        i + 2 <= s.len(),
        s.subrange(i, i + 2) == be16(n),
    ensures
        be16_at(s, i) == n,
{
    assert(s[i] == s.subrange(i, i + 2)[0]);
    assert(s[i + 1] == s.subrange(i, i + 2)[1]);
}

proof fn lemma_be32(n: int, s: Seq<u8>, i: int)
    requires
        0 <= n <= u32::MAX,
        0 <= i,
        i + 4 <= s.len(),
        s.subrange(i, i + 4) == be32(n),
    ensures
        be32_at(s, i) == n,
{
    let w = s.subrange(i, i + 4);
    assert(s.subrange(i, i + 2) =~= w.subrange(0, 2));
    assert(s.subrange(i + 2, i + 4) =~= w.subrange(2, 4));
    assert(w.subrange(0, 2) =~= be16(n / 65536));
    assert(w.subrange(2, 4) =~= be16(n % 65536));
    lemma_be16(n / 65536, s, i);
    lemma_be16(n % 65536, s, i + 2);
}

proof fn lemma_encode_empty(chars: Seq<char>)
    ensures
        encode_utf8(chars).len() == 0 <==> chars.len() == 0,
{
    encode_utf8_decode_utf8(chars);
    if encode_utf8(chars).len() == 0 {
        assert(encode_utf8(chars) =~= Seq::empty());
        assert(decode_utf8(encode_utf8(chars)) =~= Seq::empty());
    }
}

/// What the proxy frames, the agent reads: kind, id and path come through
/// unchanged, whatever follows the frame, and exactly the frame is consumed.
pub proof fn law_request_round_trip(job: JobView, id: u32, rest: Seq<u8>)
    requires
        path_fits(job),
    ensures
        request_at(request_frame(job, id) + rest) == Ok::<(RequestView, int), int>(
            (request_of(job, id), request_frame(job, id).len() as int),
        ),
{
    let frame = request_frame(job, id);
    let s = frame + rest;
    let tail = request_tail(job.localpath);
    let body = request_body(job.localpath);
    assert(s.subrange(2, 6) =~= be32(id as int));
    lemma_be32(id as int, s, 2);
    assert(tail =~= be16(body.len() as int) + body);
    assert(s.subrange(6, 8) =~= be16(body.len() as int));
    lemma_be16(body.len() as int, s, 6);
    assert(s.subrange(8, 8 + body.len() as int) =~= body);
    assert(s[0] == job.type_id && s[1] == 0);
}

/// What the agent frames, the proxy reads: status, id and text come through
/// unchanged, but for an empty text, which arrives as none.
pub proof fn law_response_round_trip(res: ResponseView, rest: Seq<u8>)
    requires
        text_fits(res),
    ensures
        response_at(response_frame(res) + rest) == Ok::<(ResponseView, int), int>(
            (response_of(res), response_frame(res).len() as int),
        ),
{
    let s = response_frame(res) + rest;
    let bytes = match res.json {
        Some(json) => encode_utf8(json),
        None => Seq::empty(),
    };
    assert(s.subrange(0, 2) =~= be16(res.status as int));
    lemma_be16(res.status as int, s, 0);
    assert(s.subrange(2, 6) =~= be32(res.id as int));
    lemma_be32(res.id as int, s, 2);
    assert(s.subrange(6, 8) =~= be16(bytes.len() as int));
    lemma_be16(bytes.len() as int, s, 6);
    assert(s.subrange(8, 8 + bytes.len() as int) =~= bytes);
    if let Some(json) = res.json {
        lemma_encode_empty(json);
        encode_utf8_valid_utf8(json);
        encode_utf8_decode_utf8(json);
    }
}

/// A frame that is there in full reads the same whatever follows it, and one
/// that is not always asks for more bytes than there are, and for no more than
/// a frame can hold.
pub proof fn law_request_read_is_stable(s: Seq<u8>, rest: Seq<u8>)
    ensures
        request_at(s) matches Ok((req, n)) ==> 8 <= n <= s.len() && request_at(s + rest) == Ok::<
            (RequestView, int),
            int,
        >((req, n)),
        request_at(s) matches Err(needed) ==> s.len() < needed <= 8 + 65535,
{
    if s.len() >= 8 {
        let t = s + rest;
        let end = 8 + be16_at(s, 6);
        assert(be16_at(t, 6) == be16_at(s, 6));
        assert(be32_at(t, 2) == be32_at(s, 2));
        if s.len() >= end {
            assert(t.subrange(8, end) =~= s.subrange(8, end));
        }
    }
}

/// The same of responses.
pub proof fn law_response_read_is_stable(s: Seq<u8>, rest: Seq<u8>)
    ensures
        response_at(s) matches Ok((res, n)) ==> 8 <= n <= s.len() && response_at(s + rest) == Ok::<
            (ResponseView, int),
            int,
        >((res, n)),
        response_at(s) matches Err(needed) ==> s.len() < needed <= 8 + 65535,
{
    if s.len() >= 8 {
        let t = s + rest;
        let end = 8 + be16_at(s, 6);
        assert(be16_at(t, 6) == be16_at(s, 6));
        assert(be16_at(t, 0) == be16_at(s, 0));
        assert(be32_at(t, 2) == be32_at(s, 2));
        if s.len() >= end {
            assert(t.subrange(8, end) =~= s.subrange(8, end));
        }
    }
}

/// The bytes of a connection over which jobs were sent one after another.
pub open spec fn request_stream(jobs: Seq<(JobView, u32)>) -> Seq<u8>
    decreases jobs.len(),
{
    if jobs.len() == 0 {
        Seq::empty()
    } else {
        request_frame(jobs[0].0, jobs[0].1) + request_stream(jobs.drop_first())
    }
}

/// The requests read off a connection, one frame after another, up to where
/// the bytes end or stop within a frame.
pub open spec fn requests_in(s: Seq<u8>) -> Seq<RequestView>
    decreases s.len(),
{
    match request_at(s) {
        Ok((req, n)) => if 0 < n <= s.len() {
            seq![req] + requests_in(s.skip(n))
        } else {
            Seq::empty()
        },
        Err(_) => Seq::empty(),
    }
}

/// The bytes of a connection over which responses were sent one after another.
pub open spec fn response_stream(responses: Seq<ResponseView>) -> Seq<u8>
    decreases responses.len(),
{
    if responses.len() == 0 {
        Seq::empty()
    } else {
        response_frame(responses[0]) + response_stream(responses.drop_first())
    }
}

/// The responses read off a connection.
pub open spec fn responses_in(s: Seq<u8>) -> Seq<ResponseView>
    decreases s.len(),
{
    match response_at(s) {
        Ok((res, n)) => if 0 < n <= s.len() {
            seq![res] + responses_in(s.skip(n))
        } else {
            Seq::empty()
        },
        Err(_) => Seq::empty(),
    }
}

/// A connection keeps its requests apart and in order.
pub proof fn law_request_stream(jobs: Seq<(JobView, u32)>)
    requires
        forall|i: int| 0 <= i < jobs.len() ==> path_fits(#[trigger] jobs[i].0),
    ensures
        requests_in(request_stream(jobs)) == jobs.map_values(
            |j: (JobView, u32)| request_of(j.0, j.1),
        ),
    decreases jobs.len(),
{
    let of = |j: (JobView, u32)| request_of(j.0, j.1);
    let s = request_stream(jobs);
    if jobs.len() == 0 {
        assert(requests_in(s) =~= jobs.map_values(of));
    } else {
        let rest = jobs.drop_first();
        let frame = request_frame(jobs[0].0, jobs[0].1);
        law_request_stream(rest);
        law_request_round_trip(jobs[0].0, jobs[0].1, request_stream(rest));
        assert(s.skip(frame.len() as int) =~= request_stream(rest));
        assert(jobs.map_values(of) =~= seq![of(jobs[0])] + rest.map_values(of));
    }
}

/// A connection keeps its responses apart and in order.
pub proof fn law_response_stream(responses: Seq<ResponseView>)
    requires
        forall|i: int| 0 <= i < responses.len() ==> text_fits(#[trigger] responses[i]),
    ensures
        responses_in(response_stream(responses)) == responses.map_values(
            |r: ResponseView| response_of(r),
        ),
    decreases responses.len(),
{
    let of = |r: ResponseView| response_of(r);
    let s = response_stream(responses);
    if responses.len() == 0 {
        assert(responses_in(s) =~= responses.map_values(of));
    } else {
        let rest = responses.drop_first();
        let frame = response_frame(responses[0]);
        law_response_stream(rest);
        law_response_round_trip(responses[0], response_stream(rest));
        assert(s.skip(frame.len() as int) =~= response_stream(rest));
        assert(responses.map_values(of) =~= seq![of(responses[0])] + rest.map_values(of));
    }
}

/// The bytes of a request frame, place by place: the type, a zero, the id, the
/// length of what follows, and then, where there is a path, its length and its
/// UTF-8 form to the end.
pub proof fn law_request_frame_bytes(job: JobView, id: u32)
    requires
        request_fits(job),
    ensures
        ({
            let f = request_frame(job, id);
            &&& f[0] == job.type_id
            &&& f[1] == 0
            &&& f[2] * 0x100_0000 + f[3] * 0x1_0000 + f[4] * 0x100 + f[5] == id
            &&& match job.localpath {
                None => f.len() == 8 && f[6] == 0 && f[7] == 0,
                Some(path) => {
                    let n = encode_utf8(path).len();
                    &&& f.len() == 10 + n
                    &&& f[6] * 256 + f[7] == n % 65536 + 2
                    &&& f[8] * 256 + f[9] == n % 65536
                    &&& f.skip(10) == encode_utf8(path)
                },
            }
        }),
{
    let f = request_frame(job, id);
    let tail = request_tail(job.localpath);
    assert(f.skip(6) =~= tail);
    assert(f[6] == tail[0] && f[7] == tail[1]);
    if let Some(path) = job.localpath {
        assert(f[8] == tail[2] && f[9] == tail[3]);
        assert(f.skip(10) =~= encode_utf8(path));
    }
}

/// The bytes of a response frame, place by place: the status, the id, the length
/// of the text, and its UTF-8 form to the end.
pub proof fn law_response_frame_bytes(res: ResponseView)
    ensures
        ({
            let f = response_frame(res);
            &&& f[0] * 256 + f[1] == res.status
            &&& f[2] * 0x100_0000 + f[3] * 0x1_0000 + f[4] * 0x100 + f[5] == res.id
            &&& match res.json {
                None => f.len() == 8 && f[6] == 0 && f[7] == 0,
                Some(json) => {
                    let n = encode_utf8(json).len();
                    &&& f.len() == 8 + n
                    &&& f[6] * 256 + f[7] == n % 65536
                    &&& f.skip(8) == encode_utf8(json)
                },
            }
        }),
{
    let f = response_frame(res);
    if let Some(json) = res.json {
        assert(f.skip(8) =~= encode_utf8(json));
    }
}

/// What a request is read from, place by place. It is read exactly where its
/// eight bytes and the body that they announce are there.
pub proof fn law_request_fields(s: Seq<u8>)
    ensures
        s.len() < 8 ==> request_at(s) == Err::<(RequestView, int), int>(8),
        s.len() >= 8 ==> ({
            let end = 8 + s[6] * 256 + s[7];
            if s.len() < end {
                request_at(s) == Err::<(RequestView, int), int>(end)
            } else {
                &&& request_at(s) matches Ok((req, n))
                &&& n == end
                &&& req.request_type == s[0]
                &&& req.reserved == s[1]
                &&& req.id == s[2] * 0x100_0000 + s[3] * 0x1_0000 + s[4] * 0x100 + s[5]
                &&& req.body == s.subrange(8, end)
            }
        }),
{
}

/// What a response is read from, place by place. It has the text `text` exactly
/// where that is not empty and its bytes are the UTF-8 form of it.
pub proof fn law_response_fields(s: Seq<u8>, text: Seq<char>)
    ensures
        s.len() < 8 ==> response_at(s) == Err::<(ResponseView, int), int>(8),
        s.len() >= 8 ==> ({
            let end = 8 + s[6] * 256 + s[7];
            if s.len() < end {
                response_at(s) == Err::<(ResponseView, int), int>(end)
            } else {
                &&& response_at(s) matches Ok((res, n))
                &&& n == end
                &&& res.status == s[0] * 256 + s[1]
                &&& res.id == s[2] * 0x100_0000 + s[3] * 0x1_0000 + s[4] * 0x100 + s[5]
                &&& res.json == Some(text) <==> text.len() > 0 && s.subrange(8, end)
                    == encode_utf8(text)
            }
        }),
{
    if s.len() >= 8 {
        let end = 8 + s[6] * 256 + s[7];
        if s.len() >= end {
            let bytes = s.subrange(8, end);
            lemma_encode_empty(text);
            encode_utf8_valid_utf8(text);
            encode_utf8_decode_utf8(text);
            if valid_utf8(bytes) {
                decode_utf8_encode_utf8(bytes);
            }
        }
    }
}

/// The contents of the values that go over a connection are all that is in them.
pub proof fn law_views_show_all(job: RequestJob, req: Request, res: Response, result: AgentResult)
    ensures
        job@.type_id == job.type_id,
        job.localpath matches Some(path) ==> job@.localpath == Some(path@),
        job.localpath is None ==> job@.localpath is None,
        req@.request_type == req.request_type,
        req@.reserved == req._reserved@[0],
        req@.id == req.id,
        req@.body == req.body@,
        res@.status == res.status,
        res@.id == res.id,
        res.json matches Some(json) ==> res@.json == Some(json@),
        res.json is None ==> res@.json is None,
        result@.status == result.status,
        result@.id == result.id,
        result.json matches Some(json) ==> result@.json == Some(json@),
        result.json is None ==> result@.json is None,
{
}

} // verus!
