use files_proxy::session::{
    on_written, AfterWrite, AgentSession, Delivery, QueueEvent, QueueNext,
};
use files_proxy::wire::{AgentResult, RequestJob};

fn job() -> RequestJob {
    RequestJob { type_id: 1, localpath: Some("webpublic-a".to_string()) }
}

fn result(id: u32) -> AgentResult {
    AgentResult { id, status: 200, json: Some(format!("r{}", id)) }
}

#[test]
fn result_finds_its_waiter() {
    let mut session = AgentSession::new();
    let frame = session.submit(&job(), Some("first"));
    assert_eq!(&frame[2..6], &[0, 0, 0, 0]);
    let frame = session.submit(&job(), Some("second"));
    assert_eq!(&frame[2..6], &[0, 0, 0, 1]);
    match session.deliver(result(1)) {
        Delivery::Send(waiter, res) => {
            assert_eq!(waiter, "second");
            assert_eq!(res.json.as_deref(), Some("r1"));
        }
        Delivery::Drop(_) => panic!("dropped"),
    }
    match session.deliver(result(0)) {
        Delivery::Send(waiter, _) => assert_eq!(waiter, "first"),
        Delivery::Drop(_) => panic!("dropped"),
    }
}

#[test]
fn result_is_taken_once() {
    let mut session = AgentSession::new();
    session.submit(&job(), Some(1u8));
    assert!(matches!(session.deliver(result(0)), Delivery::Send(1, _)));
    assert!(matches!(session.deliver(result(0)), Delivery::Drop(0)));
    for _ in 0..50 {
        session.submit(&job(), Some(2u8));
        assert!(matches!(session.deliver(result(0)), Delivery::Drop(0)));
    }
    assert!(matches!(session.deliver(result(50)), Delivery::Send(2, _)));
}

#[test]
fn result_leaves_other_waiters() {
    let mut session = AgentSession::new();
    session.submit(&job(), Some('a'));
    session.submit(&job(), Some('b'));
    session.submit(&job(), Some('c'));
    assert!(matches!(session.deliver(result(1)), Delivery::Send('b', _)));
    assert!(matches!(session.deliver(result(2)), Delivery::Send('c', _)));
    assert!(matches!(session.deliver(result(0)), Delivery::Send('a', _)));
}

#[test]
fn result_without_waiter_is_dropped() {
    let mut session: AgentSession<u8> = AgentSession::new();
    session.submit(&job(), None);
    assert!(matches!(session.deliver(result(0)), Delivery::Drop(0)));
    assert!(matches!(session.deliver(result(42)), Delivery::Drop(42)));
}

#[test]
fn ids_count_jobs_with_and_without_waiter() {
    let mut session: AgentSession<u8> = AgentSession::new();
    for i in 0..300u32 {
        let frame = session.submit(&job(), None);
        assert_eq!(&frame[2..6], &i.to_be_bytes());
    }
}

#[test]
fn many_waiters_get_their_own() {
    let mut session = AgentSession::new();
    for i in 0..100u32 {
        session.submit(&job(), Some(i * 7));
    }
    for i in (0..100u32).rev() {
        match session.deliver(result(i)) {
            Delivery::Send(waiter, _) => assert_eq!(waiter, i * 7),
            Delivery::Drop(_) => panic!("dropped"),
        }
    }
}

#[test]
fn queue_events() {
    let mut session = AgentSession::new();
    assert!(matches!(session.on_queue(QueueEvent::Empty), QueueNext::Sleep));
    assert!(matches!(session.on_queue(QueueEvent::Disconnected), QueueNext::Exit));
    match session.on_queue(QueueEvent::Job(job(), Some(5u8))) {
        QueueNext::Write(frame) => assert_eq!(
            frame,
            [vec![1, 0, 0, 0, 0, 0, 0, 13, 0, 11], b"webpublic-a".to_vec()].concat()
        ),
        _ => panic!("no frame"),
    }
    assert!(matches!(session.deliver(result(0)), Delivery::Send(5, _)));
}

#[test]
fn failure_closes_the_session() {
    let mut session = AgentSession::new();
    session.submit(&job(), Some(1u8));
    assert!(session.is_open());
    session.fail();
    assert!(!session.is_open());
    session.submit(&job(), None);
    assert!(!session.is_open());
    assert!(matches!(session.deliver(result(0)), Delivery::Send(1, _)));
}

#[test]
fn failed_write_shuts_the_connection_down() {
    assert!(matches!(on_written(true), AfterWrite::Proceed));
    assert!(matches!(on_written(false), AfterWrite::Shutdown));
}
