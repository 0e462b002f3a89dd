use kintri::client::{decode, Gateway, REJECTED};
use kintri::credentials::Credentials;
use kintri::failure::Failure;
use kintri::http::{HttpCall, Method};
use kintri::ipc::{call, socket_path, unreachable_daemon, ConnectError, Response};
use kintri::json::{parse, Json};
use kintri::model::{AgentMessageId, AgentSessionId};

const ZERO: &str = "00000000-0000-0000-0000-000000000000";

fn gateway(url: &str) -> Gateway {
    Gateway::new(&Credentials {
        gateway_url: url.to_owned(),
        workspace_url: None,
        workspace: None,
        token: "emt_x".to_owned(),
    })
}

fn said(call: &HttpCall) -> (Method, String, Option<String>) {
    (
        call.method,
        call.path.clone(),
        call.body.as_ref().map(|b| b.to_text()),
    )
}

#[test]
fn an_error_response_becomes_an_error() {
    let r = Response::Error("no".to_owned());
    assert!(r.into_result().is_err());
}

#[test]
fn an_answer_is_handed_on() {
    assert_eq!(
        Response::Done(Json::Bool(true)).into_result(),
        Ok(Json::Bool(true))
    );
    assert_eq!(
        Response::from_result(Ok(Json::Null)),
        Response::Done(Json::Null)
    );
    assert_eq!(
        Response::from_result(Err(Failure::because("a", "b"))),
        Response::Error("a: b".to_owned())
    );
    assert_eq!(
        Response::unparseable("eof"),
        Response::Error("unparseable request: eof".to_owned())
    );
}

#[test]
fn a_daemon_that_cannot_be_reached_is_a_sentence() {
    assert_eq!(socket_path("/c"), "/c/daemon.sock");
    assert_eq!(
        unreachable_daemon("/c", ConnectError::Missing).full(),
        "the kintri daemon is not running. Start it with `kintri daemon start`"
    );
    assert_eq!(
        unreachable_daemon("/c", ConnectError::Refused).full(),
        "the kintri daemon is not running (stale socket at /c/daemon.sock). \
         Start it with `kintri daemon start`"
    );
    assert_eq!(
        unreachable_daemon("/c", ConnectError::Other("denied".to_owned())).full(),
        "connect to the kintri daemon: denied"
    );
}

#[test]
fn a_silent_daemon_is_told_apart_from_a_garbled_one() {
    assert_eq!(
        call(" \n", Ok(Response::Done(Json::Null))).unwrap_err().full(),
        "the daemon closed the connection without answering"
    );
    assert_eq!(
        call("x", Err("bad".to_owned())).unwrap_err().full(),
        "the daemon's answer was not understood: bad"
    );
    assert_eq!(
        call("x", Ok(Response::Error("no".to_owned())))
            .unwrap_err()
            .full(),
        "no"
    );
    assert_eq!(call("x", Ok(Response::Done(Json::Null))), Ok(Json::Null));
}

#[test]
fn a_secure_gateway_has_a_secure_websocket() {
    let g = gateway("https://agent.kintri.ai/");
    assert_eq!(g.base, "https://agent.kintri.ai");
    assert_eq!(g.websocket_url(), "wss://agent.kintri.ai/v1/agent");
    assert_eq!(
        gateway("http://localhost:1").websocket_url(),
        "ws://localhost:1/v1/agent"
    );
    assert_eq!(g.authorization(), "Bearer emt_x");
}

#[test]
fn every_call_goes_where_the_gateway_expects_it() {
    let g = gateway("https://g");
    let id = AgentSessionId(0);
    let body = || Json::object().entry("k", Json::Bool(true));
    let text = Some("{\"k\":true}".to_owned());
    let empty = Some("{}".to_owned());
    assert_eq!(
        said(&g.register_session(body())),
        (Method::Post, "/v1/sessions".to_owned(), text.clone())
    );
    assert_eq!(
        said(&g.remember(body())),
        (Method::Post, "/v1/memories".to_owned(), text.clone())
    );
    assert_eq!(
        said(&g.send_message(body())),
        (Method::Post, "/v1/messages".to_owned(), text)
    );
    assert_eq!(
        said(&g.heartbeat(id)),
        (
            Method::Post,
            format!("/v1/sessions/{ZERO}/heartbeat"),
            empty.clone()
        )
    );
    assert_eq!(
        said(&g.end_session(id)),
        (Method::Post, format!("/v1/sessions/{ZERO}/end"), empty)
    );
    assert_eq!(
        said(&g.acknowledge(AgentMessageId(0), id)),
        (
            Method::Post,
            format!("/v1/messages/{ZERO}/ack"),
            Some(format!("{{\"session_id\":\"{ZERO}\"}}"))
        )
    );
    assert_eq!(
        said(&g.online()),
        (Method::Get, "/v1/sessions".to_owned(), None)
    );
    let inbox = g.inbox(id, 50);
    assert_eq!(
        said(&inbox),
        (Method::Get, "/v1/messages/inbox".to_owned(), None)
    );
    assert_eq!(
        inbox.query,
        vec![
            ("session_id".to_owned(), ZERO.to_owned()),
            ("limit".to_owned(), "50".to_owned())
        ]
    );
    let search = g.search(vec![("q".to_owned(), "x".to_owned())]);
    assert_eq!(search.path, "/v1/memories/search");
    assert_eq!(search.query, vec![("q".to_owned(), "x".to_owned())]);
    assert_eq!(g.url(&search), "https://g/v1/memories/search");
    assert_eq!(search.unanswered("down").full(), "GET /v1/memories/search: down");
    assert_eq!(
        g.remember(Json::Null).unanswered("down").full(),
        "POST /v1/memories: down"
    );
}

#[test]
fn an_answer_is_decoded() {
    assert_eq!(decode(204, "x", "/p"), Ok(Json::Null));
    assert_eq!(decode(200, " \n", "/p"), Ok(Json::Null));
    assert_eq!(decode(201, "{\"a\":1}", "/p").unwrap(), parse("{\"a\":1}").unwrap());
    let broken = decode(200, "{", "/p").unwrap_err();
    assert_eq!(broken.summary, "/p returned a body that is not JSON");
    assert!(broken.cause.unwrap().contains("EOF"));
}

#[test]
fn a_refusal_is_a_sentence_a_person_can_act_on() {
    let fail = |status: u16, body: &str| decode(status, body, "/p").unwrap_err().full();
    assert_eq!(fail(401, "{\"error\":\"x\"}"), REJECTED);
    assert_eq!(fail(404, "{\"error\":\"no such session\"}"), "no such session");
    assert_eq!(fail(404, ""), "404 Not Found");
    assert_eq!(fail(500, "{\"error\":\"boom\"}"), "/p: boom");
    assert_eq!(fail(503, "<html>"), "/p: 503 Service Unavailable");
    assert_eq!(fail(422, "{\"error\":7}"), "/p: 422 Unprocessable Entity");
    assert_eq!(fail(302, "[]"), "/p: 302 Found");
}
