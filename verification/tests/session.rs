use p2p::proto::{Proto, ReadError};
use p2p::session::{Role, Session, SessionAction, SessionError, SessionEvent, Stage};

/// Runs a session through events and shows what it does.
fn run(start: (Session, SessionAction), events: Vec<SessionEvent>) -> Vec<String> {
    let (mut session, first) = start;
    let mut shown = vec![format!("{:?}", first)];
    for event in events {
        shown.push(format!("{:?}", session.resume(event)));
    }
    shown
}

fn go_on() -> SessionEvent {
    SessionEvent::Stop(false)
}

fn got(message: Proto) -> SessionEvent {
    SessionEvent::Received(Ok(message))
}

fn sent() -> SessionEvent {
    SessionEvent::Sent(Ok(()))
}

fn unsent(text: &str) -> SessionEvent {
    SessionEvent::Sent(Err(text.to_string()))
}

fn closed() -> SessionEvent {
    SessionEvent::Closed(Ok(()))
}

#[test]
fn a_file_is_shared_chunk_by_chunk() {
    let shown = run(
        Session::serve_sharing(),
        vec![
            go_on(),
            got(Proto::Request(3)),
            SessionEvent::Chunk(Ok(Some(vec![1, 2]))),
            sent(),
            go_on(),
            got(Proto::Request(4)),
            SessionEvent::Chunk(Ok(None)),
            sent(),
            go_on(),
            got(Proto::Fin),
            sent(),
            closed(),
        ],
    );
    assert_eq!(
        shown,
        vec![
            "CheckStop",
            "Read",
            "FetchChunk(3)",
            "Send(Data(Some([1, 2])))",
            "CheckStop",
            "Read",
            "FetchChunk(4)",
            "Send(Data(None))",
            "CheckStop",
            "Read",
            "Send(Fin)",
            "Close",
            "Finish(Ok(()))",
        ]
    );
}

#[test]
fn a_file_is_downloaded_chunk_by_chunk() {
    let shown = run(
        Session::serve_downloading(&[10, 255]),
        vec![
            sent(),
            go_on(),
            got(Proto::Data(None)),
            SessionEvent::Absent(Some(7)),
            sent(),
            go_on(),
            got(Proto::Data(Some(vec![5]))),
            SessionEvent::Filled(Ok(())),
            SessionEvent::Absent(None),
            sent(),
            closed(),
        ],
    );
    assert_eq!(
        shown,
        vec![
            "Send(Init([10, 255]))",
            "CheckStop",
            "Read",
            "PickAbsent",
            "Send(Request(7))",
            "CheckStop",
            "Read",
            "FillChunk([5])",
            "PickAbsent",
            "Send(Fin)",
            "Close",
            "Finish(Ok(()))",
        ]
    );
}

#[test]
fn a_node_that_stops_announces_the_end() {
    let events = || vec![SessionEvent::Stop(true), sent(), closed()];
    let shown = run(Session::serve_sharing(), events());
    assert_eq!(shown, vec!["CheckStop", "Send(Fin)", "Close", "Finish(Ok(()))"]);
    let (mut session, _) = Session::serve_downloading(&[]);
    let first = session.resume(sent());
    let shown = run((session, first), events());
    assert_eq!(shown, vec!["CheckStop", "Send(Fin)", "Close", "Finish(Ok(()))"]);
}

#[test]
fn error_messages_are_passed_over() {
    let shown = run(
        Session::serve_sharing(),
        vec![go_on(), got(Proto::Error("x".to_string())), go_on()],
    );
    assert_eq!(shown, vec!["CheckStop", "Read", "CheckStop", "Read"]);
}

#[test]
fn unexpected_messages_are_answered() {
    let shown = run(
        Session::serve_sharing(),
        vec![go_on(), got(Proto::Data(Some(vec![1, 20]))), sent()],
    );
    assert_eq!(shown[2], "Send(Error(\"unexpected message Data(Some([1, 20]))\"))");
    assert_eq!(shown[3], "Send(Fin)");

    let shown = run(Session::serve_sharing(), vec![go_on(), got(Proto::Init(vec![0]))]);
    assert_eq!(shown[2], "Send(Error(\"unexpected message Init([0])\"))");

    let shown = run(
        Session::serve_downloading(&[]),
        vec![sent(), go_on(), got(Proto::Request(1234567890)), sent(), sent(), closed()],
    );
    assert_eq!(shown[3], "Send(Error(\"unexpected message Request(1234567890)\"))");
    assert_eq!(shown[4], "Send(Fin)");
    assert_eq!(shown[6], "Finish(Ok(()))");

    let shown = run(
        Session::serve_downloading(&[]),
        vec![sent(), go_on(), got(Proto::Init(vec![])), unsent("gone")],
    );
    assert_eq!(shown[3], "Send(Error(\"unexpected message Init([])\"))");
    assert_eq!(shown[4], "Finish(Err(Write(\"gone\")))");
}

#[test]
fn unreadable_messages_are_answered() {
    for (error, text) in [
        (ReadError::Receive, "failed to read a proto message"),
        (ReadError::Deserialize, "serde failed to deserialized a proto message"),
    ] {
        let shown = run(
            Session::serve_sharing(),
            vec![go_on(), SessionEvent::Received(Err(error)), unsent("gone"), sent()],
        );
        assert_eq!(
            shown[2],
            format!("Send(Error(\"failed to deserialize a message: {}\"))", text)
        );
        assert_eq!(shown[3], "Send(Fin)");
        assert_eq!(shown[4], format!("Finish(Err(Read({:?})))", error));
    }
    let shown = run(
        Session::serve_sharing(),
        vec![go_on(), SessionEvent::Received(Err(ReadError::Receive)), sent(), unsent("gone")],
    );
    assert_eq!(shown[4], "Finish(Err(Write(\"gone\")))");
}

#[test]
fn a_chunk_that_cannot_be_had_is_answered() {
    let shown = run(
        Session::serve_sharing(),
        vec![
            go_on(),
            got(Proto::Request(12)),
            SessionEvent::Chunk(Err("bad seek".to_string())),
            unsent("gone"),
            sent(),
            closed(),
        ],
    );
    assert_eq!(
        shown[3],
        "Send(Error(\"error occurred while trying to get a chunk undex 12 index: bad seek\"))"
    );
    assert_eq!(shown[4], "Send(Fin)");
    assert_eq!(shown[6], "Finish(Ok(()))");
}

#[test]
fn a_chunk_that_cannot_be_sent_ends_the_sharing() {
    let shown = run(
        Session::serve_sharing(),
        vec![go_on(), got(Proto::Request(0)), SessionEvent::Chunk(Ok(None)), unsent("gone")],
    );
    assert_eq!(shown[4], "Send(Fin)");
}

#[test]
fn a_chunk_that_cannot_be_used_is_answered() {
    let start = || {
        vec![
            sent(),
            go_on(),
            got(Proto::Data(Some(vec![1]))),
            SessionEvent::Filled(Err("no piece".to_string())),
            unsent("gone"),
        ]
    };
    let mut events = start();
    events.push(sent());
    let shown = run(Session::serve_downloading(&[]), events);
    assert_eq!(
        shown[4],
        "Send(Error(\"an error happened when trying to fill a chunk of data: no piece\"))"
    );
    assert_eq!(shown[5], "Send(Fin)");
    assert_eq!(shown[6], "PickAbsent");

    let mut events = start();
    events.push(unsent("gone"));
    let shown = run(Session::serve_downloading(&[]), events);
    assert_eq!(shown[6], "Finish(Err(Write(\"gone\")))");
}

#[test]
fn failures_end_a_session() {
    let shown = run(Session::serve_downloading(&[1]), vec![unsent("gone")]);
    assert_eq!(shown[1], "Finish(Err(Init(\"gone\")))");

    let shown = run(
        Session::serve_downloading(&[1]),
        vec![sent(), go_on(), got(Proto::Data(None)), SessionEvent::Absent(Some(2)), unsent("gone")],
    );
    assert_eq!(shown[5], "Finish(Err(Write(\"gone\")))");

    let shown = run(Session::serve_sharing(), vec![SessionEvent::Stop(true), unsent("gone")]);
    assert_eq!(shown[2], "Finish(Err(Write(\"gone\")))");

    let shown = run(
        Session::serve_sharing(),
        vec![SessionEvent::Stop(true), sent(), SessionEvent::Closed(Err("torn".to_string()))],
    );
    assert_eq!(shown[3], "Finish(Err(Close(\"torn\")))");
}

#[test]
fn failures_have_texts() {
    assert_eq!(
        SessionError::Init("gone".to_string()).text(),
        "failed to send Init proto message"
    );
    assert_eq!(SessionError::Read(ReadError::Receive).text(), "failed to read a proto message");
    assert_eq!(
        SessionError::Read(ReadError::Deserialize).text(),
        "serde failed to deserialized a proto message"
    );
    assert_eq!(SessionError::Write("gone".to_string()).text(), "gone");
    assert_eq!(SessionError::Close("torn".to_string()).text(), "torn");
}

#[test]
fn a_session_keeps_its_role() {
    let (mut session, _) = Session::serve_downloading(&[1]);
    assert_eq!(session.role, Role::Downloading);
    session.resume(sent());
    session.resume(go_on());
    assert_eq!(session.role, Role::Downloading);
    assert!(matches!(session.stage, Stage::Reading));
}

#[test]
fn messages_are_shown_as_the_formatter_shows_them() {
    for message in [
        Proto::Init(vec![0, 9, 10, 99, 100, 255]),
        Proto::Init(Vec::new()),
        Proto::Request(0),
        Proto::Request(usize::MAX),
        Proto::Data(None),
        Proto::Data(Some(vec![1])),
        Proto::Data(Some(Vec::new())),
        Proto::Error("a \"b\"\n\u{e9}\u{7}".to_string()),
        Proto::Error(String::new()),
        Proto::Fin,
    ] {
        assert_eq!(message.debug(), format!("{:?}", message));
    }
    assert_eq!(Proto::Error("a \"b\"\n".to_string()).debug(), "Error(\"a \\\"b\\\"\\n\")");
}

#[test]
fn messages_are_sent_as_json() {
    for (message, json) in [
        (Proto::Init(vec![1, 20, 255]), "{\"Init\":[1,20,255]}"),
        (Proto::Init(Vec::new()), "{\"Init\":[]}"),
        (Proto::Request(70), "{\"Request\":70}"),
        (Proto::Data(Some(vec![9])), "{\"Data\":[9]}"),
        (Proto::Data(Some(Vec::new())), "{\"Data\":[]}"),
        (Proto::Data(None), "{\"Data\":null}"),
        (Proto::Error("a \"b\"\n\u{1}\u{e9}".to_string()), "{\"Error\":\"a \\\"b\\\"\\n\\u0001\u{e9}\"}"),
        (Proto::Fin, "\"Fin\""),
    ] {
        assert_eq!(String::from_utf8(message.into_json()).unwrap(), json);
    }
}
