use files_proxy::ping::{
    cli, ping_job, ping_json, ping_line, ping_status, ping_verdict, Command, Fetched, PingNext,
    PingStatus, PingWait, PollResult,
};

fn run(timeout: u32, poll: u32, polled: Vec<PollResult>) -> (bool, u32) {
    let mut wait = PingWait::start(timeout, poll);
    let mut pauses = 0;
    for p in polled {
        match wait.next() {
            PingNext::Poll => {
                if wait.on_poll(p) {
                    pauses += 1;
                }
            }
            PingNext::Stop(_) => break,
        }
    }
    match wait.next() {
        PingNext::Stop(ok) => (ok, pauses),
        PingNext::Poll => panic!("still waiting"),
    }
}

fn empties(n: usize) -> Vec<PollResult> {
    (0..n).map(|_| PollResult::Empty).collect()
}

#[test]
fn answer_at_once() {
    assert_eq!(run(100, 10, vec![PollResult::Answer]), (true, 0));
}

#[test]
fn answer_at_the_last_look() {
    let mut polled = empties(9);
    polled.push(PollResult::Answer);
    assert_eq!(run(100, 10, polled), (true, 9));
}

#[test]
fn answer_after_the_last_look_is_too_late() {
    let mut polled = empties(10);
    polled.push(PollResult::Answer);
    assert_eq!(run(100, 10, polled), (false, 10));
}

#[test]
fn closed_channel_stops_the_wait() {
    assert_eq!(run(100, 10, vec![PollResult::Empty, PollResult::Disconnected]), (false, 1));
}

#[test]
fn timeout_below_one_poll_never_looks() {
    assert_eq!(run(9, 10, vec![PollResult::Answer]), (false, 0));
    assert_eq!(run(0, 1, vec![]), (false, 0));
}

#[test]
fn silent_channel_is_looked_at_throughout() {
    for (timeout, poll) in [(100, 10), (105, 10), (99, 10), (7, 7), (1000, 1)] {
        let (ok, pauses) = run(timeout, poll, empties(2000));
        assert!(!ok);
        assert_eq!(pauses, timeout / poll);
        assert!(timeout - pauses * poll < poll);
    }
}

#[test]
fn ping_job_is_type_three() {
    let job = ping_job();
    assert_eq!(job.type_id, 3);
    assert!(job.localpath.is_none());
}

#[test]
fn status_keeps_64_bits() {
    let status = ping_status(17, true);
    assert_eq!((status.ms, status.ok), (17, true));
    let status = ping_status((1u128 << 64) + 5, false);
    assert_eq!((status.ms, status.ok), (5, false));
}

#[test]
fn report_lines() {
    assert_eq!(ping_line(&PingStatus { ms: 12, ok: true }), "LastAgentPing 12ms ok");
    assert_eq!(ping_line(&PingStatus { ms: 0, ok: false }), "LastAgentPing 0ms error");
}

#[test]
fn commands() {
    match cli(&"ping".to_string(), "0.0.0.0:8080") {
        Command::Ping(url) => assert_eq!(url, "http://0.0.0.0:8080/ping"),
        Command::Nothing => panic!("nothing"),
    }
    assert!(matches!(cli(&"pong".to_string(), "x"), Command::Nothing));
    assert!(matches!(cli(&String::new(), "x"), Command::Nothing));
}

#[test]
fn verdicts() {
    let failed = "{\"ms\":0,\"ok\":false}";
    let v = ping_verdict(Fetched::NoAnswer);
    assert_eq!((v.exit_code, v.print.as_str()), (1, failed));
    let v = ping_verdict(Fetched::NoBody);
    assert_eq!((v.exit_code, v.print.as_str()), (2, failed));
    let v = ping_verdict(Fetched::NoReport);
    assert_eq!((v.exit_code, v.print.as_str()), (3, failed));
    let v = ping_verdict(Fetched::Report(PingStatus { ms: 3, ok: true }));
    assert_eq!((v.exit_code, v.print.as_str()), (0, "{\"ms\":3,\"ok\":true}"));
    let v = ping_verdict(Fetched::Report(PingStatus { ms: 4, ok: false }));
    assert_eq!((v.exit_code, v.print.as_str()), (4, "{\"ms\":4,\"ok\":false}"));
}

#[test]
fn outcomes_as_json() {
    assert_eq!(ping_json(&PingStatus { ms: 12, ok: false }), "{\"ms\":12,\"ok\":false}");
    for (ms, ok) in [(0, true), (1000, false), (u64::MAX, true)] {
        let mut object = serde_json::Map::new();
        object.insert("ms".to_string(), serde_json::Value::from(ms));
        object.insert("ok".to_string(), serde_json::Value::from(ok));
        let expected = serde_json::to_string(&object).unwrap();
        assert_eq!(ping_json(&PingStatus { ms, ok }), expected);
    }
}
