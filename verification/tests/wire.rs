use files_proxy::wire::{
    job_fits, read_request, req, res, write_response, AgentResult, Request, RequestJob, Response,
};

fn job(type_id: u8, path: Option<&str>) -> RequestJob {
    RequestJob { type_id, localpath: path.map(|p| p.to_string()) }
}

fn parse_request(bytes: &[u8]) -> (Request, usize) {
    match read_request(bytes) {
        Ok(r) => r,
        Err(_) => panic!("incomplete"),
    }
}

fn parse_response(bytes: &[u8]) -> (AgentResult, usize) {
    match res(bytes) {
        Ok(r) => r,
        Err(_) => panic!("incomplete"),
    }
}

#[test]
fn request_frame_with_path() {
    let frame = req(&job(1, Some("ab")), 0x01020304);
    assert_eq!(frame, vec![1, 0, 1, 2, 3, 4, 0, 4, 0, 2, b'a', b'b']);
}

#[test]
fn request_frame_without_path() {
    let frame = req(&job(3, None), 0xFFFFFFFF);
    assert_eq!(frame, vec![3, 0, 255, 255, 255, 255, 0, 0]);
}

#[test]
fn request_frame_of_empty_path() {
    let frame = req(&job(2, Some("")), 5);
    assert_eq!(frame, vec![2, 0, 0, 0, 0, 5, 0, 2, 0, 0]);
}

#[test]
fn long_path_keeps_its_bytes_and_cuts_its_length() {
    let path = "x".repeat(65536 + 3);
    let frame = req(&job(1, Some(&path)), 9);
    assert_eq!(&frame[6..10], &[0, 5, 0, 3]);
    assert_eq!(frame.len(), 10 + 65536 + 3);
}

#[test]
fn job_fits_up_to_the_length_field() {
    assert!(job_fits(&job(1, None)));
    assert!(job_fits(&job(1, Some(&"x".repeat(65533)))));
    assert!(!job_fits(&job(1, Some(&"x".repeat(65534)))));
    assert!(!job_fits(&job(1, Some(&"x".repeat(65535)))));
    assert!(job_fits(&job(1, Some(&"x".repeat(65536)))));
}

#[test]
fn request_round_trip_with_rest() {
    let mut bytes = req(&job(2, Some("thumbnail-\u{e9}")), 77);
    let len = bytes.len();
    bytes.extend_from_slice(&[9, 9, 9]);
    let (request, n) = parse_request(&bytes);
    assert_eq!(n, len);
    assert_eq!(request.request_type, 2);
    assert_eq!(request._reserved, [0]);
    assert_eq!(request.id, 77);
    assert_eq!(&request.body[..2], &[0, 12]);
    assert_eq!(&request.body[2..], "thumbnail-\u{e9}".as_bytes());
}

#[test]
fn longest_path_round_trip() {
    let path = "y".repeat(65533);
    let (request, n) = parse_request(&req(&job(1, Some(&path)), 1));
    assert_eq!(n, 8 + 65535);
    assert_eq!(&request.body[2..], path.as_bytes());
}

#[test]
fn incomplete_request_says_what_is_needed() {
    let frame = req(&job(1, Some("abc")), 1);
    for i in 0..frame.len() {
        match read_request(&frame[..i]) {
            Ok(_) => panic!("complete at {}", i),
            Err(e) => assert_eq!(e.needed, if i < 8 { 8 } else { frame.len() }),
        }
    }
}

#[test]
fn request_stream_keeps_order() {
    let mut bytes = req(&job(1, Some("one")), 1);
    bytes.extend(req(&job(3, None), 2));
    bytes.extend(req(&job(2, Some("three")), 3));
    let mut ids = Vec::new();
    let mut at = 0;
    while let Ok((request, n)) = read_request(&bytes[at..]) {
        ids.push((request.id, request.request_type));
        at += n;
    }
    assert_eq!(at, bytes.len());
    assert_eq!(ids, vec![(1, 1), (2, 3), (3, 2)]);
}

#[test]
fn reserved_byte_is_kept() {
    let (request, _) = parse_request(&[7, 42, 0, 0, 0, 1, 0, 0]);
    assert_eq!(request._reserved, [42]);
    assert_eq!(request.request_type, 7);
    assert!(request.body.is_empty());
}

#[test]
fn response_frame_bytes() {
    let frame = write_response(&Response { status: 200, id: 258, json: Some("{}".to_string()) });
    assert_eq!(frame, vec![0, 200, 0, 0, 1, 2, 0, 2, b'{', b'}']);
    let frame = write_response(&Response { status: 501, id: 1, json: None });
    assert_eq!(frame, vec![1, 245, 0, 0, 0, 1, 0, 0]);
}

#[test]
fn response_round_trip() {
    let text = "{\"uri\":\"http://example.com/\u{3042}\"}";
    let frame = write_response(&Response { status: 200, id: 9, json: Some(text.to_string()) });
    let (result, n) = parse_response(&frame);
    assert_eq!(n, frame.len());
    assert_eq!((result.id, result.status), (9, 200));
    assert_eq!(result.json.as_deref(), Some(text));
}

#[test]
fn empty_text_arrives_as_none() {
    let frame = write_response(&Response { status: 200, id: 9, json: Some(String::new()) });
    let (result, _) = parse_response(&frame);
    assert!(result.json.is_none());
}

#[test]
fn text_that_is_not_utf8_arrives_as_none() {
    let (result, n) = parse_response(&[0, 200, 0, 0, 0, 1, 0, 2, 0xC3, 0x28]);
    assert_eq!(n, 10);
    assert_eq!(result.status, 200);
    assert!(result.json.is_none());
}

#[test]
fn long_text_cuts_its_length() {
    let frame = write_response(&Response { status: 200, id: 0, json: Some("z".repeat(65537)) });
    assert_eq!(&frame[6..8], &[0, 1]);
    assert_eq!(frame.len(), 8 + 65537);
}

#[test]
fn incomplete_response_says_what_is_needed() {
    match res(&[0, 200, 0]) {
        Ok(_) => panic!("complete"),
        Err(e) => assert_eq!(e.needed, 8),
    }
    match res(&[0, 200, 0, 0, 0, 1, 1, 0]) {
        Ok(_) => panic!("complete"),
        Err(e) => assert_eq!(e.needed, 8 + 256),
    }
}

#[test]
fn response_stream_keeps_order() {
    let mut bytes = write_response(&Response { status: 204, id: 4, json: None });
    bytes.extend(write_response(&Response { status: 200, id: 5, json: Some("x".to_string()) }));
    let (first, n) = parse_response(&bytes);
    let (second, m) = parse_response(&bytes[n..]);
    assert_eq!((first.id, second.id), (4, 5));
    assert_eq!(n + m, bytes.len());
}
