//! Talking to the gateway.
//!
//! Which requests are made, and what their answers mean. A failure is always a
//! sentence that the caller can decide about: for a coding agent it has to be
//! something to shrug at, not something that takes a session with it.
use vstd::prelude::*;
use vstd::string::*;

use crate::credentials::Credentials;
use crate::failure;
use crate::failure::{Failure, FailureView};
use crate::http;
use crate::http::HttpCall;
use crate::json;
use crate::json::{Json, JsonView};
use crate::model;
use crate::model::{AgentMessageId, AgentSessionId};
use crate::text;

verus! {

/// The name that this client goes by in HTTP.
pub const USER_AGENT: &'static str = "kintri/0.1.1";

/// How long a connection may take to come up, in seconds.
pub const CONNECT_TIMEOUT_SECS: u64 = 10;

/// How long a request may take, in seconds.
pub const REQUEST_TIMEOUT_SECS: u64 = 30;

/// What could not be understood of an answer.
pub const DECODE_REGISTRATION: &'static str = "decode session registration";

pub const DECODE_HEARTBEAT: &'static str = "decode heartbeat";

pub const DECODE_AGENTS: &'static str = "decode online agents";

pub const DECODE_MEMORIES: &'static str = "decode memories";

pub const DECODE_MESSAGES: &'static str = "decode messages";

/// One gateway, and one credential for it.
#[derive(Debug)]
pub struct Gateway {
    pub base: String,
    pub authorization: String,
}

/// The path of a session.
pub open spec fn session_path(id: AgentSessionId, what: Seq<char>) -> Seq<char> {
    "/v1/sessions/"@ + model::hyphenated(id.0) + what
}

/// The path on which a message is acknowledged.
pub open spec fn ack_path(id: AgentMessageId) -> Seq<char> {
    "/v1/messages/"@ + model::hyphenated(id.0) + "/ack"@
}

/// The request that reports a session over.
pub open spec fn end_call(id: AgentSessionId) -> http::HttpCallView {
    http::post_of(session_path(id, "/end"@), JsonView::object())
}

/// The request that pushes the expiry of a session forward.
pub open spec fn heartbeat_call(id: AgentSessionId) -> http::HttpCallView {
    http::post_of(session_path(id, "/heartbeat"@), JsonView::object())
}

/// The request for what a session is owed.
pub open spec fn inbox_call(id: AgentSessionId, limit: usize) -> http::HttpCallView {
    http::get_of(
        "/v1/messages/inbox"@,
        Seq::empty().push(("session_id"@, model::hyphenated(id.0))).push(
            ("limit"@, text::decimal(limit as nat)),
        ),
    )
}

/// The request that confirms to the gateway that a message arrived.
pub open spec fn ack_call(message: AgentMessageId, session: AgentSessionId) -> http::HttpCallView {
    http::post_of(
        ack_path(message),
        JsonView::object().entry("session_id"@, JsonView::Text(model::hyphenated(session.0))),
    )
}

impl Gateway {
    /// The gateway that credentials are for.
    pub fn new(credentials: &Credentials) -> (r: Gateway)
        ensures
            r.base@ == text::without_trailing(credentials@.gateway_url, '/'),
            r.authorization@ == "Bearer "@ + credentials@.token,
    {
        Gateway {
            base: text::trim_end_of(credentials.gateway_url.as_str(), '/').to_owned(),
            authorization: credentials.header(),
        }
    }

    /// The WebSocket URL for this gateway: `https` becomes `wss`.
    pub fn websocket_url(&self) -> (r: String)
        ensures
            r@ == socket_url(self.base@),
    {
        let secure = text::replace_first(self.base.as_str(), "https://", "wss://");
        let mut out = text::replace_first(secure.as_str(), "http://", "ws://");
        out.append("/v1/agent");
        out
    }

    /// The `Authorization` header value.
    pub fn authorization(&self) -> (r: &str)
        ensures
            r@ == self.authorization@,
    {
        self.authorization.as_str()
    }

    /// Where a request goes.
    pub fn url(&self, call: &HttpCall) -> (r: String)
        ensures
            r@ == self.base@ + call@.path,
    {
        let mut out: String = self.base.clone();
        out.append(call.path.as_str());
        out
    }

    /// Register, or refresh, an agent's presence.
    pub fn register_session(&self, body: Json) -> (r: HttpCall)
        ensures
            r@ == http::post_of("/v1/sessions"@, body@),
    {
        HttpCall::post("/v1/sessions".to_owned(), body)
    }

    /// Push the expiry forward.
    pub fn heartbeat(&self, session_id: AgentSessionId) -> (r: HttpCall)
        ensures
            r@ == heartbeat_call(session_id),
    {
        let mut path: String = "/v1/sessions/".to_owned();
        path.append(session_id.to_text().as_str());
        path.append("/heartbeat");
        HttpCall::post(path, Json::object())
    }

    /// Report the session over.
    pub fn end_session(&self, session_id: AgentSessionId) -> (r: HttpCall)
        ensures
            r@ == end_call(session_id),
    {
        let mut path: String = "/v1/sessions/".to_owned();
        path.append(session_id.to_text().as_str());
        path.append("/end");
        HttpCall::post(path, Json::object())
    }

    /// Who else is online in this workspace.
    pub fn online(&self) -> (r: HttpCall)
        ensures
            r@ == http::get_of("/v1/sessions"@, Seq::empty()),
    {
        let query: Vec<(String, String)> = Vec::new();
        assert(http::query_view(query@) =~= Seq::empty());
        HttpCall::get("/v1/sessions", query)
    }

    /// Publish a memory.
    pub fn remember(&self, body: Json) -> (r: HttpCall)
        ensures
            r@ == http::post_of("/v1/memories"@, body@),
    {
        HttpCall::post("/v1/memories".to_owned(), body)
    }

    /// Search the workspace's memories.
    pub fn search(&self, query: Vec<(String, String)>) -> (r: HttpCall)
        ensures
            r@ == http::get_of("/v1/memories/search"@, http::query_view(query@)),
    {
        HttpCall::get("/v1/memories/search", query)
    }

    /// Message another live agent.
    pub fn send_message(&self, body: Json) -> (r: HttpCall)
        ensures
            r@ == http::post_of("/v1/messages"@, body@),
    {
        HttpCall::post("/v1/messages".to_owned(), body)
    }

    /// Take what a session is owed.
    pub fn inbox(&self, session_id: AgentSessionId, limit: usize) -> (r: HttpCall)
        ensures
            r@ == inbox_call(session_id, limit),
    {
        let mut query: Vec<(String, String)> = Vec::new();
        query.push(("session_id".to_owned(), session_id.to_text()));
        query.push(("limit".to_owned(), text::number(limit as u64)));
        assert(http::query_view(query@) =~= inbox_call(session_id, limit).query);
        HttpCall::get("/v1/messages/inbox", query)
    }

    /// Confirm a message arrived.
    pub fn acknowledge(&self, message_id: AgentMessageId, session_id: AgentSessionId) -> (r:
        HttpCall)
        ensures
            r@ == ack_call(message_id, session_id),
    {
        let mut path: String = "/v1/messages/".to_owned();
        path.append(message_id.to_text().as_str());
        path.append("/ack");
        HttpCall::post(
            path,
            Json::object().entry("session_id", Json::Text(session_id.to_text())),
        )
    }
}

/// The WebSocket URL for a gateway.
pub open spec fn socket_url(base: Seq<char>) -> Seq<char> {
    text::replaced_first(
        text::replaced_first(base, "https://"@, "wss://"@),
        "http://"@,
        "ws://"@,
    ) + "/v1/agent"@
}

/// A gateway that is reached encrypted has an encrypted socket.
pub proof fn a_secure_gateway_has_a_secure_socket(rest: Seq<char>)
    requires
        text::first_occurrence(rest, "http://"@) is None,
    ensures
        socket_url("https://"@ + rest) == "wss://"@ + rest + "/v1/agent"@,
{
    reveal_strlit("https://");
    reveal_strlit("http://");
    reveal_strlit("wss://");
    let base = "https://"@ + rest;
    let nothing = Seq::<char>::empty();
    assert(nothing + "https://"@ + rest =~= base);
    text::lemma_first_occurrence(nothing, "https://"@, rest);
    assert(text::replaced_first(base, "https://"@, "wss://"@) =~= "wss://"@ + rest);
    text::lemma_occurrence_behind("wss://"@, "http://"@, rest);
}

/// A gateway on this machine that is not reached encrypted has a socket that
/// is not encrypted either.
pub proof fn a_plain_gateway_has_a_plain_socket(rest: Seq<char>)
    requires
        text::first_occurrence(rest, "https://"@) is None,
    ensures
        socket_url("http://"@ + rest) == "ws://"@ + rest + "/v1/agent"@,
{
    reveal_strlit("https://");
    reveal_strlit("http://");
    reveal_strlit("ws://");
    let base = "http://"@ + rest;
    let nothing = Seq::<char>::empty();
    let behind = "http://"@.drop_first();
    assert(base.drop_first() =~= behind + rest);
    text::lemma_occurrence_behind(behind, "https://"@, rest);
    if text::has_prefix(base, "https://"@) {
        assert(base.take(8)[4] == ':');
        assert("https://"@[4] == 's');
    }
    assert(text::first_occurrence(base, "https://"@) is None);
    assert(nothing + "http://"@ + rest =~= base);
    text::lemma_first_occurrence(nothing, "http://"@, rest);
    assert(text::replaced_first(base, "http://"@, "ws://"@) =~= "ws://"@ + rest);
}

/// The sentence for a credential that the gateway does not accept.
pub const REJECTED: &'static str =
    "the gateway rejected this credential. Run `kintri login` again; the token may have been revoked";

/// What the gateway says is wrong: its own `error` if there is one, the status
/// if not.
pub open spec fn detail(status: u16, body: Seq<char>) -> Seq<char> {
    match json::parsed(body) {
        Ok(value) => value.text_or("error"@, http::status_line(status)),
        Err(_) => http::status_line(status),
    }
}

/// What an answer means.
pub open spec fn decoded(status: u16, body: Seq<char>, path: Seq<char>) -> Result<
    JsonView,
    FailureView,
> {
    if status == 204 || (200 <= status <= 299 && text::trimmed(body).len() == 0) {
        Ok(JsonView::Null)
    } else if 200 <= status <= 299 {
        match json::parsed(body) {
            Ok(value) => Ok(value),
            Err(message) => Err(
                failure::caused(path + " returned a body that is not JSON"@, message),
            ),
        }
    } else if status == 401 {
        Err(failure::plain(REJECTED@))
    } else if status == 404 {
        Err(failure::plain(detail(status, body)))
    } else {
        Err(failure::plain(path + ": "@ + detail(status, body)))
    }
}

/// Turn an answer into JSON, or into a sentence a person can act on.
pub fn decode(status: u16, body: &str, path: &str) -> (r: Result<Json, Failure>)
    ensures
        match r {
            Ok(value) => decoded(status, body@, path@) is Ok && decoded(status, body@, path@)->Ok_0
                == value@,
            Err(e) => decoded(status, body@, path@) is Err && decoded(
                status,
                body@,
                path@,
            )->Err_0 == e@,
        },
{
    if status == 204 {
        return Ok(Json::Null);
    }
    if 200 <= status && status <= 299 {
        if text::trim(body).unicode_len() == 0 {
            return Ok(Json::Null);
        }
        return match json::parse(body) {
            Ok(value) => Ok(value),
            Err(message) => {
                let mut summary: String = path.to_owned();
                summary.append(" returned a body that is not JSON");
                Err(Failure::because(summary.as_str(), message.as_str()))
            },
        };
    }
    if status == 401 {
        return Err(Failure::new(REJECTED));
    }
    let line = http::status_text(status);
    let said: String = match json::parse(body) {
        Ok(value) => value.text_or("error", line.as_str()).to_owned(),
        Err(_) => line,
    };
    if status == 404 {
        return Err(Failure::new(said.as_str()));
    }
    let mut summary: String = path.to_owned();
    summary.append(": ");
    summary.append(said.as_str());
    Err(Failure::new(summary.as_str()))
}

// ---------------------------------------------------------------------------
// What the gateway is asked and what it says
// ---------------------------------------------------------------------------

/// The gateway is asked what one session is owed, and how much of it at most.
pub proof fn the_gateway_is_asked_about_one_session(session: AgentSessionId, limit: usize)
    ensures
        inbox_call(session, limit).method == http::Method::Get,
        http::values_under(inbox_call(session, limit).query, "session_id"@) == seq![
            model::hyphenated(session.0),
        ],
        http::values_under(inbox_call(session, limit).query, "limit"@) == seq![
            text::decimal(limit as nat),
        ],
        inbox_call(session, limit).query.len() == 2,
        inbox_call(session, limit).path == "/v1/messages/inbox"@,
        inbox_call(session, limit).body is None,
{
    reveal_strlit("session_id");
    reveal_strlit("limit");
    assert("session_id"@.len() == 10);
    assert("limit"@.len() == 5);
    let nothing = Seq::<(Seq<char>, Seq<char>)>::empty();
    let who = model::hyphenated(session.0);
    let many = text::decimal(limit as nat);
    let first = nothing.push(("session_id"@, who));
    http::lemma_value_pushed(nothing, "session_id"@, who, "session_id"@);
    http::lemma_value_pushed(nothing, "session_id"@, who, "limit"@);
    http::lemma_value_pushed(first, "limit"@, many, "session_id"@);
    http::lemma_value_pushed(first, "limit"@, many, "limit"@);
    assert(http::values_under(nothing, "session_id"@) =~= Seq::empty());
    assert(http::values_under(first.push(("limit"@, many)), "session_id"@) =~= seq![who]);
    assert(http::values_under(first.push(("limit"@, many)), "limit"@) =~= seq![many]);
}

/// A message is acknowledged under its own id, by the session that took it; two
/// messages are acknowledged apart.
pub proof fn a_message_is_acknowledged_by_its_session(
    gateway: Gateway,
    message: AgentMessageId,
    session: AgentSessionId,
    r: HttpCall,
    other: AgentMessageId,
    another: HttpCall,
)
    requires
        call_ensures(Gateway::acknowledge, (&gateway, message, session), r),
        call_ensures(Gateway::acknowledge, (&gateway, other, session), another),
    ensures
        r@.method == http::Method::Post,
        r@.path == "/v1/messages/"@ + model::hyphenated(message.0) + "/ack"@,
        r@.body is Some,
        r@.body->0.field("session_id"@) == Some(JsonView::Text(model::hyphenated(session.0))),
        r@.path == another@.path ==> message == other,
{
    broadcast use json::lemma_field_of_entry;

    model::two_identifiers_are_two_texts(message.0, other.0);
    let (a, b) = (model::hyphenated(message.0), model::hyphenated(other.0));
    let start = "/v1/messages/"@;
    if r@.path == another@.path {
        let n = start.len() as int;
        assert(r@.path.subrange(n, n + 36) =~= a);
        assert(another@.path.subrange(n, n + 36) =~= b);
    }
}

/// A session is kept alive, and reported over, under its own id.
pub proof fn a_session_is_spoken_of_by_its_id(
    gateway: Gateway,
    session: AgentSessionId,
    beat: HttpCall,
    end: HttpCall,
)
    requires
        call_ensures(Gateway::heartbeat, (&gateway, session), beat),
        call_ensures(Gateway::end_session, (&gateway, session), end),
    ensures
        beat@.method == http::Method::Post,
        beat@.path == "/v1/sessions/"@ + model::hyphenated(session.0) + "/heartbeat"@,
        end@.method == http::Method::Post,
        end@.path == "/v1/sessions/"@ + model::hyphenated(session.0) + "/end"@,
        beat@.body is Some,
        end@.body is Some,
{
}

/// What is registered, published and sent is posted as it is, each to its own
/// place.
pub proof fn what_is_posted_is_posted_as_it_is(
    gateway: Gateway,
    body: Json,
    registered: HttpCall,
    remembered: HttpCall,
    sent: HttpCall,
    query: Vec<(String, String)>,
    searched: HttpCall,
    online: HttpCall,
)
    requires
        call_ensures(Gateway::register_session, (&gateway, body), registered),
        call_ensures(Gateway::remember, (&gateway, body), remembered),
        call_ensures(Gateway::send_message, (&gateway, body), sent),
        call_ensures(Gateway::search, (&gateway, query), searched),
        call_ensures(Gateway::online, (&gateway,), online),
    ensures
        registered@.method == http::Method::Post && registered@.path == "/v1/sessions"@,
        remembered@.method == http::Method::Post && remembered@.path == "/v1/memories"@,
        sent@.method == http::Method::Post && sent@.path == "/v1/messages"@,
        registered@.body == Some(body@),
        remembered@.body == Some(body@),
        sent@.body == Some(body@),
        searched@.method == http::Method::Get && searched@.path == "/v1/memories/search"@,
        searched@.query == http::query_view(query@),
        online@.method == http::Method::Get && online@.path == "/v1/sessions"@,
{
}

/// The token goes to the gateway that it is for, and every request goes there.
pub proof fn the_token_goes_to_its_gateway(
    credentials: Credentials,
    gateway: Gateway,
    header: &str,
    call: HttpCall,
    url: String,
)
    requires
        call_ensures(Gateway::new, (&credentials,), gateway),
        call_ensures(Gateway::authorization, (&gateway,), header),
        call_ensures(Gateway::url, (&gateway, &call), url),
        credentials.gateway_url@.len() > 0,
        credentials.gateway_url@.last() != '/',
    ensures
        header@ == "Bearer "@ + credentials.token@,
        url@ == credentials.gateway_url@ + call.path@,
{
    assert(credentials@.gateway_url == credentials.gateway_url@);
    assert(call@.path == call.path@);
}

/// What the gateway answers to a request that succeeded is what it said, and
/// nothing when it said nothing.
pub proof fn an_answer_is_what_the_gateway_said(
    status: u16,
    body: &str,
    path: &str,
    r: Result<Json, Failure>,
)
    requires
        call_ensures(decode, (status, body, path), r),
        200 <= status <= 299,
    ensures
        status != 204 && text::trimmed(body@).len() > 0 ==> (r is Ok <==> json::parsed(
            body@,
        ) is Ok),
        status != 204 && text::trimmed(body@).len() > 0 && r is Ok ==> r->Ok_0@ == json::parsed(
            body@,
        )->Ok_0,
        status == 204 || text::blank(body@) ==> r is Ok && r->Ok_0@ is Null,
{
    if text::blank(body@) {
        text::a_blank_text_is_trimmed_away(body@);
    }
}

/// A request that did not succeed fails, in the gateway's own words where it has
/// any, and with what to do about it where the credential is at fault.
pub proof fn a_refusal_is_told_in_the_words_of_the_gateway(
    status: u16,
    body: &str,
    path: &str,
    r: Result<Json, Failure>,
)
    requires
        call_ensures(decode, (status, body, path), r),
        !(200 <= status <= 299),
    ensures
        r is Err,
        status == 401 ==> r->Err_0.summary@ == REJECTED@,
        status != 401 ==> (json::parsed(body@) matches Ok(value) ==> (value.field(
            "error"@,
        ) matches Some(JsonView::Text(words)) ==> text::stands_in(words, r->Err_0.summary@))),
{
    assert(r->Err_0@.summary == r->Err_0.summary@);
    if status != 401 {
        match json::parsed(body@) {
            Ok(value) => {
                match value.field("error"@) {
                    Some(JsonView::Text(words)) => {
                        let nothing = Seq::<char>::empty();
                        if status == 404 {
                            text::lemma_stands_in(nothing, words, nothing);
                            assert(nothing + words + nothing =~= words);
                        } else {
                            text::lemma_stands_in(path@ + ": "@, words, nothing);
                            assert(path@ + ": "@ + words + nothing =~= path@ + ": "@ + words);
                        }
                    },
                    _ => {},
                }
            },
            Err(_) => {},
        }
    }
}

/// A session asks for its own messages and for no more than it wants: two
/// sessions, or two limits, are two requests.
pub proof fn a_session_asks_for_its_own_messages(
    gateway: Gateway,
    a: AgentSessionId,
    b: AgentSessionId,
    m: usize,
    n: usize,
    x: HttpCall,
    y: HttpCall,
)
    requires
        call_ensures(Gateway::inbox, (&gateway, a, m), x),
        call_ensures(Gateway::inbox, (&gateway, b, n), y),
    ensures
        x@ == y@ ==> a == b && m == n,
        http::values_under(x@.query, "session_id"@) == seq![model::hyphenated(a.0)],
        http::values_under(x@.query, "limit"@) == seq![text::decimal(m as nat)],
{
    the_gateway_is_asked_about_one_session(a, m);
    the_gateway_is_asked_about_one_session(b, n);
    model::two_identifiers_are_two_texts(a.0, b.0);
    text::a_number_is_read_back(m as nat);
    text::a_number_is_read_back(n as nat);
    if x@ == y@ {
        assert(seq![model::hyphenated(a.0)][0] == seq![model::hyphenated(b.0)][0]);
        assert(seq![text::decimal(m as nat)][0] == seq![text::decimal(n as nat)][0]);
    }
}

/// A refusal names the path that was asked for, but where that is not there at
/// all; and where the gateway has no words of its own, the status stands for
/// them. An answer that cannot be read names its path too.
pub proof fn a_refusal_names_what_was_asked(
    status: u16,
    body: &str,
    path: &str,
    r: Result<Json, Failure>,
)
    requires
        call_ensures(decode, (status, body, path), r),
    ensures
        !(200 <= status <= 299) && status != 401 && status != 404 ==> text::has_prefix(
            r->Err_0.summary@,
            path@ + ": "@,
        ),
        !(200 <= status <= 299) && status != 401 && json::parsed(body@) is Err ==> text::has_suffix(
            r->Err_0.summary@,
            http::status_line(status),
        ),
        status == 404 && json::parsed(body@) is Err ==> r->Err_0.summary@ == http::status_line(
            status,
        ),
        200 <= status <= 299 && r is Err ==> text::has_prefix(r->Err_0.summary@, path@)
            && json::parsed(body@) is Err && r->Err_0.cause is Some && r->Err_0.cause->0@
            == json::parsed(body@)->Err_0,
{
    if r is Err {
        assert(r->Err_0@.summary == r->Err_0.summary@);
        assert(r->Err_0@.cause == text::optional(r->Err_0.cause));
        let said = r->Err_0.summary@;
        if 200 <= status <= 299 {
            assert(said.take(path@.len() as int) =~= path@);
        } else if status != 401 {
            let words = detail(status, body@);
            if status == 404 {
                assert(said.skip(said.len() - words.len()) =~= words);
            } else {
                let start = path@ + ": "@;
                assert(said.take(start.len() as int) =~= start);
                assert(said.skip(said.len() - words.len()) =~= words);
            }
        }
    }
}

} // verus!
