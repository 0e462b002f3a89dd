use kintri::agent_protocol::{ClientFrame, MessageView, OnlineAgent, ServerFrame, SessionRegistered};
use kintri::credentials::Credentials;
use kintri::daemon::{
    bind_failure, bind_plan, ended, found_memories, online_agents, origin_of, query_of, run,
    stale_socket, started, stopping, BindStep, Daemon, Joining, Options, Step, NO_SESSION,
};
use kintri::failure::Failure;
use kintri::inbox::{Inbox, INBOX_CAPACITY};
use kintri::ipc::Request;
use kintri::json::{parse, Json};
use kintri::link::{backoff, jitter_ms, jitter_of, opening, react, Link, LinkEvent, LinkStep};
use kintri::model::{AgentMessageId, AgentSessionId};
use kintri::time::Timestamp;
use kintri::workspace::Checkout;

const EPOCH: Timestamp = Timestamp { seconds: 0, nanos: 0 };

fn options() -> Options {
    Options {
        config_dir: "/c".to_owned(),
        initial: None,
        github_login: Some("pj".to_owned()),
        display_name: None,
    }
}

fn secret() -> Credentials {
    Credentials {
        gateway_url: "https://g/".to_owned(),
        workspace_url: None,
        workspace: None,
        token: "emt_x".to_owned(),
    }
}

fn daemon() -> Daemon {
    started(&secret(), options(), EPOCH).daemon
}

fn joining(id: &str, cwd: &str) -> Joining {
    Joining {
        client_session_id: id.to_owned(),
        client: "agent".to_owned(),
        cwd: cwd.to_owned(),
        checkout: Checkout {
            repository: Some("klik/nova".to_owned()),
            branch: Some("main".to_owned()),
            project: Some("nova".to_owned()),
            email: None,
        },
    }
}

fn join(daemon: &mut Daemon, id: &str, number: u128, cwd: &str, at: i64) -> Option<u64> {
    daemon
        .take_in(
            joining(id, cwd),
            SessionRegistered {
                session_id: AgentSessionId(number),
                expires_at: EPOCH,
                heartbeat_interval_secs: 30,
            },
            Timestamp { seconds: at, nanos: 0 },
        )
        .heartbeat_secs
}

fn serial(daemon: &Daemon, id: &str) -> u64 {
    daemon.sessions[daemon.find(id).unwrap()].serial
}

fn message(id: u128) -> MessageView {
    MessageView {
        id: AgentMessageId(id),
        content: format!("m{id}"),
        from: Some("pj".to_owned()),
        from_session_id: None,
        created_at: EPOCH,
    }
}

fn ids(messages: &[MessageView]) -> Vec<u128> {
    messages.iter().map(|m| m.id.0).collect()
}

fn names(daemon: &Daemon, dir: Option<&str>) -> Vec<String> {
    daemon
        .sessions_for(dir)
        .into_iter()
        .map(|i| daemon.sessions[i].client_session_id.clone())
        .collect()
}

fn answer(step: Step) -> Json {
    match step {
        Step::Answer(value) => value,
        other => panic!("{other:?}"),
    }
}

#[test]
fn a_message_that_arrives_twice_waits_once() {
    let mut inbox = Inbox::new();
    inbox.push(message(1));
    inbox.push(message(2));
    inbox.push(message(1));
    assert_eq!(inbox.len(), 2);
    assert_eq!(ids(&inbox.drain(2)), vec![1, 2]);
    assert_eq!(inbox.len(), 0);
}

#[test]
fn a_full_inbox_drops_the_oldest() {
    let mut inbox = Inbox::new();
    inbox.push_all((0..INBOX_CAPACITY as u128 + 2).map(message).collect());
    assert_eq!(inbox.len(), 500);
    assert_eq!(ids(&inbox.drain(2)), vec![2, 3]);
}

#[test]
fn a_daemon_starts_empty_and_knows_its_socket() {
    let s = run(&secret(), options());
    assert_eq!(s.socket, "/c/daemon.sock");
    assert_eq!(s.daemon.sessions.len(), 0);
    assert_eq!(s.daemon.gateway.base, "https://g");
    assert!(s.initial.is_none());
    assert!(stale_socket(true, false));
    assert!(!stale_socket(true, true));
    assert!(!stale_socket(false, false));
    assert_eq!(
        bind_failure("/c/daemon.sock", "in use").full(),
        "bind /c/daemon.sock. Is a daemon already running?: in use"
    );
}

#[test]
fn registering_again_changes_nothing() {
    let mut d = daemon();
    assert_eq!(join(&mut d, "a", 1, "/x", 1), Some(30));
    assert_eq!(join(&mut d, "a", 2, "/y", 2), None);
    assert_eq!(d.sessions.len(), 1);
    assert_eq!(d.sessions[0].session_id, AgentSessionId(1));
    assert_eq!(d.registered("a").unwrap(), d.sessions[0].describe());
    assert!(d.registered("b").is_none());
}

#[test]
fn a_heartbeat_is_due_once_a_second_at_most() {
    let mut d = daemon();
    let joined = d.register(
        joining("a", "/x"),
        SessionRegistered {
            session_id: AgentSessionId(1),
            expires_at: EPOCH,
            heartbeat_interval_secs: 0,
        },
    );
    assert_eq!(joined.heartbeat_secs, Some(1));
    assert_eq!(joined.description.text_at("cwd"), Some("/x"));
}

#[test]
fn the_gateway_is_told_what_the_table_says_and_no_more() {
    let call = daemon().registration(&joining("a", "/x"));
    assert_eq!(call.path, "/v1/sessions");
    assert_eq!(
        call.body.unwrap().to_text(),
        "{\"branch\":\"main\",\"client\":\"agent\",\"client_session_id\":\"a\",\
         \"client_version\":\"0.1.1\",\"display_name\":null,\"email\":null,\
         \"github_login\":\"pj\",\"project\":\"nova\",\"repository\":\"klik/nova\"}"
    );
    assert_eq!(
        Daemon::not_registered(Failure::because("POST /v1/sessions", "down")).full(),
        "register this session with the gateway: POST /v1/sessions: down"
    );
}

#[test]
fn ending_one_session_leaves_the_others() {
    let mut d = daemon();
    join(&mut d, "a", 1, "/x", 1);
    join(&mut d, "b", 2, "/x", 2);
    let over = d.unregister("a").unwrap();
    assert_eq!(over.serial, 0);
    assert_eq!(
        over.call.path,
        "/v1/sessions/00000000-0000-0000-0000-000000000001/end"
    );
    assert_eq!(names(&d, None), vec!["b"]);
    assert!(d.unregister("a").is_none());
    assert_eq!(d.shutdown().len(), 1);
    assert_eq!(d.sessions.len(), 0);
}

#[test]
fn a_directory_finds_its_sessions_newest_first() {
    let mut d = daemon();
    join(&mut d, "old", 1, "/x", 1);
    join(&mut d, "new", 2, "/x", 3);
    join(&mut d, "other", 3, "/y", 2);
    assert_eq!(names(&d, Some("/x/")), vec!["new", "old"]);
    assert_eq!(names(&d, Some("/y")), vec!["other"]);
    assert_eq!(names(&d, Some("/z")), vec!["new", "other", "old"]);
    assert_eq!(names(&d, None), vec!["new", "other", "old"]);
    assert_eq!(d.session_for(Some("/y")), Some(2));
    assert_eq!(d.session_for(Some("/z")), Some(1));
    assert_eq!(daemon().session_for(None), None);
}

#[test]
fn sessions_of_one_instant_keep_the_order_of_registration() {
    let mut d = daemon();
    join(&mut d, "a", 1, "/x", 1);
    join(&mut d, "b", 2, "/x", 1);
    assert_eq!(names(&d, None), vec!["a", "b"]);
}

#[test]
fn the_status_lists_the_newest_first() {
    let mut d = daemon();
    let empty = answer(d.dispatch(Request::Status, None));
    assert_eq!(
        empty.to_text(),
        "{\"connected\":false,\"pending_messages\":0,\"session_id\":null,\"sessions\":[],\
         \"started_at\":\"1970-01-01T00:00:00Z\",\"version\":\"0.1.1\"}"
    );
    join(&mut d, "a", 1, "/x", 1);
    join(&mut d, "b", 2, "/y", 2);
    d.deliver(serial(&d, "a"), message(1));
    d.set_connected(serial(&d, "a"), true);
    let report = answer(d.dispatch(Request::Status, None));
    assert_eq!(
        report.text_at("session_id"),
        Some("00000000-0000-0000-0000-000000000002")
    );
    assert_eq!(report.at("connected"), Json::Bool(false));
    assert_eq!(report.at("pending_messages"), Json::Unsigned(1));
    let listed = report.items_at("sessions");
    assert_eq!(listed[0].text_at("client_session_id"), Some("b"));
    assert_eq!(listed[1].at("connected"), Json::Bool(true));
    assert_eq!(listed[1].at("pending_messages"), Json::Unsigned(1));
    d.set_connected(serial(&d, "b"), true);
    d.set_connected(77, true);
    assert_eq!(d.status().at("connected"), Json::Bool(true));
}

#[test]
fn a_session_registers_once_over_the_socket() {
    let mut d = daemon();
    let request = || Request::Register {
        client_session_id: "a".to_owned(),
        client: "agent".to_owned(),
        cwd: "/x".to_owned(),
    };
    match d.dispatch(request(), None) {
        Step::Register {
            client_session_id,
            client,
            cwd,
        } => {
            assert_eq!(client_session_id, "a");
            assert_eq!(client, "agent");
            assert_eq!(cwd, "/x");
        }
        other => panic!("{other:?}"),
    }
    join(&mut d, "a", 1, "/x", 1);
    assert_eq!(answer(d.dispatch(request(), None)), d.sessions[0].describe());
}

#[test]
fn ending_over_the_socket_says_whether_there_was_one() {
    let mut d = daemon();
    join(&mut d, "a", 1, "/x", 1);
    let request = || Request::Unregister {
        client_session_id: "a".to_owned(),
    };
    match d.dispatch(request(), None) {
        Step::End {
            client_session_id,
            ended,
        } => {
            assert_eq!(client_session_id, "a");
            assert_eq!(ended.serial, 0);
            assert!(ended.call.path.ends_with("/end"));
        }
        other => panic!("{other:?}"),
    }
    assert_eq!(answer(d.dispatch(request(), None)), ended(false));
    assert_eq!(ended(true).to_text(), "{\"ended\":true}");
}

#[test]
fn a_request_needs_a_session_to_speak_as() {
    let mut d = daemon();
    for request in [Request::Remember(Json::object()), Request::Message(Json::object())] {
        match d.dispatch(request, None) {
            Step::Refuse(e) => assert_eq!(e.full(), NO_SESSION),
            other => panic!("{other:?}"),
        }
    }
}

#[test]
fn what_is_sent_names_the_session_and_not_the_directory() {
    let mut d = daemon();
    join(&mut d, "a", 1, "/x", 1);
    join(&mut d, "b", 2, "/y", 2);
    let body = || parse("{\"content\":\"c\",\"cwd\":\"/x\",\"session_id\":\"forged\"}").unwrap();
    let request = Request::Remember(body());
    assert_eq!(origin_of(&request).as_deref(), Some("/x"));
    match d.dispatch(request, Some("/x")) {
        Step::Forward(call) => {
            assert_eq!(call.path, "/v1/memories");
            assert_eq!(
                call.body.unwrap().to_text(),
                "{\"content\":\"c\",\"session_id\":\"00000000-0000-0000-0000-000000000001\"}"
            );
        }
        other => panic!("{other:?}"),
    }
    match d.dispatch(Request::Message(body()), Some("/nowhere")) {
        Step::Forward(call) => {
            assert_eq!(call.path, "/v1/messages");
            assert!(call.body.unwrap().to_text().contains("000000000002"));
        }
        other => panic!("{other:?}"),
    }
}

#[test]
fn a_search_becomes_a_query() {
    let body = parse(
        "{\"limit\":5,\"q\":\"x\",\"files\":[\"a\",1,\"b\"],\"project\":null,\
         \"repository\":\"\",\"technologies\":true,\"cwd\":\"/x\"}",
    )
    .unwrap();
    let pair = |k: &str, v: &str| (k.to_owned(), v.to_owned());
    assert_eq!(
        query_of(&body),
        vec![
            pair("q", "x"),
            pair("files", "a,b"),
            pair("technologies", "true"),
            pair("limit", "5")
        ]
    );
    assert_eq!(query_of(&Json::Null), vec![]);
    let odd = parse("{\"q\":{\"a\":[1]},\"limit\":-1,\"project\":1.5}").unwrap();
    assert_eq!(
        query_of(&odd),
        vec![pair("q", "{\"a\":[1]}"), pair("project", "1.5"), pair("limit", "-1")]
    );
    let mut d = daemon();
    match d.dispatch(Request::Search(body), None) {
        Step::Search(call) => assert_eq!(call.query.len(), 4),
        other => panic!("{other:?}"),
    }
}

#[test]
fn what_the_gateway_found_is_wrapped() {
    assert_eq!(found_memories(Json::array()).to_text(), "{\"memories\":[]}");
    assert_eq!(stopping().to_text(), "{\"stopping\":true}");
    let agents = vec![OnlineAgent {
        session_id: AgentSessionId(1),
        developer: Some("pj".to_owned()),
        repository: None,
        branch: None,
        last_seen_at: EPOCH,
    }];
    assert_eq!(
        online_agents(&agents).to_text(),
        "{\"agents\":[{\"branch\":null,\"developer\":\"pj\",\
         \"last_seen_at\":\"1970-01-01T00:00:00Z\",\"repository\":null,\
         \"session_id\":\"00000000-0000-0000-0000-000000000001\"}]}"
    );
    let mut d = daemon();
    assert!(matches!(d.dispatch(Request::Shutdown, None), Step::Stop));
    assert!(matches!(d.dispatch(Request::Online, None), Step::Online(_)));
}

#[test]
fn exactly_what_is_handed_over_is_acknowledged() {
    let mut d = daemon();
    join(&mut d, "a", 1, "/x", 1);
    join(&mut d, "b", 2, "/x", 2);
    d.deliver(serial(&d, "b"), message(10));
    d.deliver(serial(&d, "b"), message(11));
    d.deliver(serial(&d, "a"), message(20));
    let mut run = match d.dispatch(
        Request::Inbox {
            limit: Some(3),
            cwd: None,
        },
        None,
    ) {
        Step::Inbox(run) => run,
        other => panic!("{other:?}"),
    };
    assert_eq!(run.take, 3);
    assert_eq!(
        run.poll(&d.gateway).unwrap().query,
        vec![
            (
                "session_id".to_owned(),
                "00000000-0000-0000-0000-000000000002".to_owned()
            ),
            ("limit".to_owned(), "3".to_owned())
        ]
    );
    let acks = d.collect(&mut run, Some(vec![message(11)]));
    assert_eq!(
        acks.iter().map(|c| c.path.clone()).collect::<Vec<_>>(),
        vec![
            "/v1/messages/00000000-0000-0000-0000-00000000000a/ack",
            "/v1/messages/00000000-0000-0000-0000-00000000000b/ack"
        ]
    );
    assert_eq!(run.waiting.len(), 1);
    let acks = d.collect(&mut run, Some(vec![message(21), message(22)]));
    assert_eq!(acks.len(), 1);
    assert!(acks[0].body.as_ref().unwrap().to_text().contains("000000000001"));
    assert_eq!(ids(&run.taken), vec![10, 11, 20]);
    assert!(run.poll(&d.gateway).is_none());
    assert_eq!(d.sessions[0].inbox.len(), 2);
    assert_eq!(run.answer().items_at("messages").len(), 3);
}

#[test]
fn a_gateway_that_does_not_answer_leaves_what_is_buffered() {
    let mut d = daemon();
    join(&mut d, "a", 1, "/x", 1);
    d.deliver(serial(&d, "a"), message(1));
    let mut run = d.handover(None, Some("/x"));
    assert_eq!(run.take, 50);
    assert_eq!(d.collect(&mut run, None).len(), 1);
    assert_eq!(ids(&run.taken), vec![1]);
    let mut again = d.handover(None, Some("/x"));
    assert_eq!(d.collect(&mut again, None).len(), 0);
    assert_eq!(again.answer().to_text(), "{\"messages\":[]}");
    assert_eq!(d.handovers, 2);
    assert_eq!(d.conclude(again).to_text(), "{\"messages\":[]}");
    assert_eq!(d.conclude(run).items_at("messages").len(), 1);
    assert_eq!(d.handovers, 0);
}

#[test]
fn taking_nothing_asks_one_session() {
    let mut d = daemon();
    join(&mut d, "a", 1, "/x", 1);
    join(&mut d, "b", 2, "/x", 2);
    let mut run = d.handover(Some(0), None);
    assert_eq!(d.collect(&mut run, Some(vec![message(1)])).len(), 0);
    assert!(run.poll(&d.gateway).is_none());
    assert_eq!(d.sessions[1].inbox.len(), 1);
}

#[test]
fn a_session_that_ended_meanwhile_is_handed_over_all_the_same() {
    let mut d = daemon();
    join(&mut d, "a", 1, "/x", 1);
    d.deliver(0, message(1));
    let mut run = d.handover(None, None);
    let _ = d.unregister("a");
    assert_eq!(d.sessions.len(), 0);
    d.deliver(0, message(2));
    let acks = d.collect(&mut run, Some(vec![message(3), message(2)]));
    assert_eq!(acks.len(), 3);
    assert!(acks[0].body.as_ref().unwrap().to_text().contains("000000000001"));
    assert_eq!(ids(&run.taken), vec![1, 2, 3]);
    assert_eq!(d.departed.len(), 1);
    assert_eq!(d.conclude(run).items_at("messages").len(), 3);
    assert_eq!(d.departed.len(), 0);
}

#[test]
fn a_session_that_ends_in_between_is_not_kept() {
    let mut d = daemon();
    join(&mut d, "a", 1, "/x", 1);
    let _ = d.unregister("a");
    assert_eq!(d.departed.len(), 0);
    d.deliver(0, message(1));
    join(&mut d, "a", 2, "/x", 2);
    assert_eq!(serial(&d, "a"), 1);
    assert_eq!(d.sessions[0].inbox.len(), 0);
}

#[test]
fn a_session_registered_again_is_another() {
    let mut d = daemon();
    join(&mut d, "a", 1, "/x", 1);
    d.deliver(0, message(1));
    let mut run = d.handover(None, None);
    let _ = d.unregister("a");
    join(&mut d, "a", 2, "/x", 2);
    d.deliver(1, message(10));
    d.set_connected(1, true);
    // The old link goes down late.
    d.set_connected(0, false);
    assert!(d.sessions[0].connected);
    assert!(d.keep_alive(1).is_none());
    assert!(d.keep_alive(0).unwrap().path.contains("000000000001"));
    assert_eq!(d.collect(&mut run, None).len(), 1);
    assert_eq!(ids(&run.taken), vec![1]);
    let _ = d.conclude(run);
    assert_eq!(d.sessions[0].inbox.len(), 1);
    assert!(d.keep_alive(0).is_none());
}

#[test]
fn a_daemon_that_stops_keeps_what_is_being_handed_over() {
    let mut d = daemon();
    join(&mut d, "a", 1, "/x", 1);
    d.deliver(0, message(1));
    let mut run = d.handover(None, None);
    assert_eq!(d.shutdown().len(), 1);
    assert_eq!(d.collect(&mut run, None).len(), 1);
    let _ = d.conclude(run);
    assert_eq!(d.departed.len(), 0);
}

#[test]
fn the_socket_is_restricted_before_it_is_served() {
    let plan = bind_plan("/c");
    let shown: Vec<String> = plan.iter().map(|step| format!("{step:?}")).collect();
    assert_eq!(
        shown,
        vec![
            "CreateDirectory(\"/c\")",
            "ClearStale(\"/c/daemon.sock\")",
            "Listen(\"/c/daemon.sock\")",
            "Restrict(\"/c/daemon.sock\", 384)",
            "Serve(\"/c/daemon.sock\")"
        ]
    );
    let said = |step: &BindStep| step.failure("no").map(|e| e.full());
    assert_eq!(said(&plan[0]).unwrap(), "create config directory: no");
    assert!(said(&plan[1]).is_none());
    assert_eq!(
        said(&plan[2]).unwrap(),
        "bind /c/daemon.sock. Is a daemon already running?: no"
    );
    assert_eq!(
        said(&plan[3]).unwrap(),
        "restrict the daemon socket to this user: no"
    );
    assert!(said(&plan[4]).is_none());
}

#[test]
fn a_link_that_stays_down_waits_longer() {
    let mut link = Link::new();
    let waits: Vec<u64> = (0..8).map(|_| link.down(false)).collect();
    assert_eq!(waits, vec![1, 2, 5, 10, 30, 60, 60, 60]);
    assert_eq!(link.down(true), 1);
    assert_eq!(link.down(false), 2);
    assert_eq!(backoff(1000), 60);
    let mut link = Link::new();
    let wait = link.retry_after(false);
    assert!((1000..=1250).contains(&wait));
}

#[test]
fn jitter_is_a_quarter_at_most() {
    assert_eq!(jitter_of(0, 1), 0);
    assert_eq!(jitter_of(250, 1), 250);
    assert_eq!(jitter_of(251, 1), 0);
    assert_eq!(jitter_of(999_999_999, 60), 999_999_999 % 15_001);
    assert!(jitter_ms(60) <= 15_000);
    assert_eq!(jitter_ms(0), 0);
}

#[test]
fn a_connection_is_bound_to_its_session_first() {
    match opening(AgentSessionId(1)) {
        ClientFrame::Connect {
            session_id,
            client_version,
        } => {
            assert_eq!(session_id, AgentSessionId(1));
            assert_eq!(client_version.as_deref(), Some("0.1.1"));
        }
        other => panic!("{other:?}"),
    }
}

#[test]
fn only_a_fatal_error_ends_a_connection() {
    let error = |fatal: bool| {
        LinkEvent::Frame(Ok(ServerFrame::Error {
            message: "x".to_owned(),
            fatal,
        }))
    };
    assert!(matches!(react(error(true)), LinkStep::Close));
    assert!(matches!(react(error(false)), LinkStep::Stay));
    assert!(matches!(
        react(LinkEvent::Frame(Err("?".to_owned()))),
        LinkStep::Stay
    ));
    assert!(matches!(react(LinkEvent::Stopped), LinkStep::Close));
    assert!(matches!(react(LinkEvent::Ended), LinkStep::Close));
    assert!(matches!(react(LinkEvent::Closed), LinkStep::Close));
    assert!(matches!(react(LinkEvent::Other), LinkStep::Stay));
}

#[test]
fn a_connection_answers_what_it_is_asked() {
    assert!(matches!(
        react(LinkEvent::HeartbeatDue),
        LinkStep::Send(ClientFrame::Heartbeat)
    ));
    assert!(matches!(
        react(LinkEvent::Frame(Ok(ServerFrame::Ping))),
        LinkStep::Send(ClientFrame::Pong)
    ));
    match react(LinkEvent::Ping(vec![1, 2])) {
        LinkStep::Pong(payload) => assert_eq!(payload, vec![1, 2]),
        other => panic!("{other:?}"),
    }
    match react(LinkEvent::Frame(Ok(ServerFrame::Message(message(3))))) {
        LinkStep::Deliver(m) => assert_eq!(m.id, AgentMessageId(3)),
        other => panic!("{other:?}"),
    }
    match react(LinkEvent::Unreadable("reset".to_owned())) {
        LinkStep::Fail(e) => assert_eq!(e.full(), "read from the agent connection: reset"),
        other => panic!("{other:?}"),
    }
    assert!(matches!(
        react(LinkEvent::Frame(Ok(ServerFrame::HeartbeatAck { expires_at: EPOCH }))),
        LinkStep::Stay
    ));
}

#[test]
fn presence_is_kept_alive_while_the_link_is_down() {
    let mut d = daemon();
    join(&mut d, "a", 1, "/x", 1);
    assert!(d.keep_alive(0).unwrap().path.ends_with("/heartbeat"));
    d.set_connected(0, true);
    assert!(d.keep_alive(0).is_none());
    assert!(d.keep_alive(1).is_none());
}
