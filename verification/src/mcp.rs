//! The four tools, served over MCP on stdio.
//!
//! A coding agent starts this process and speaks JSON-RPC 2.0 over stdin and
//! stdout. It holds no credential: every call becomes one request to the local
//! daemon.
//!
//! Every tool definition costs context in every session that has the server
//! installed, used or not, so there are four: publish, retrieve, send,
//! receive. And failure is quiet: when the daemon is not running, the answer is
//! a sentence saying so, never anything that stops the session.
use vstd::prelude::*;
use vstd::string::*;

use crate::daemon;
use crate::failure::Failure;
use crate::ipc;
use crate::ipc::Request;
use crate::json;
use crate::json::{Json, JsonView};
use crate::model::MemoryType;
use crate::text;

verus! {

/// The MCP revision this server implements.
pub const PROTOCOL_VERSION: &'static str = "2024-11-05";

/// The JSON-RPC code of an error inside the server.
pub const INTERNAL_ERROR: i64 = -32603;

/// The names of the tools.
pub const REMEMBER: &'static str = "kintri_remember";

pub const SEARCH: &'static str = "kintri_search";

pub const MESSAGE: &'static str = "kintri_message";

pub const INBOX: &'static str = "kintri_inbox";

// ---------------------------------------------------------------------------
// Reading requests and writing answers
// ---------------------------------------------------------------------------

/// A request that takes an answer.
#[derive(Debug)]
pub struct Incoming {
    pub id: Json,
    pub method: String,
    pub params: Json,
}

/// A request, mathematically.
pub struct IncomingView {
    pub id: JsonView,
    pub method: Seq<char>,
    pub params: JsonView,
}

impl View for Incoming {
    type V = IncomingView;

    open spec fn view(&self) -> IncomingView {
        IncomingView { id: self.id@, method: self.method@, params: self.params@ }
    }
}

/// An optional request, mathematically.
pub open spec fn optional_incoming(incoming: Option<Incoming>) -> Option<IncomingView> {
    match incoming {
        Some(incoming) => Some(incoming@),
        None => None,
    }
}

/// The request that takes an answer in a line: JSON with an id. A notification
/// has none.
pub open spec fn incoming_of(line: Seq<char>) -> Option<IncomingView> {
    if text::trimmed(line).len() == 0 {
        None
    } else {
        match json::parsed(line) {
            Ok(value) => match value.field("id"@) {
                Some(id) => Some(
                    IncomingView {
                        id,
                        method: value.text_or("method"@, ""@),
                        params: value.at("params"@),
                    },
                ),
                None => None,
            },
            Err(_) => None,
        }
    }
}

/// The answer to a request.
pub open spec fn result_json(id: JsonView, result: JsonView) -> JsonView {
    JsonView::object().entry("jsonrpc"@, JsonView::Text("2.0"@)).entry("id"@, id).entry(
        "result"@,
        result,
    )
}

/// The answer to a request that could not be served.
pub open spec fn error_json(id: JsonView, message: Seq<char>) -> JsonView {
    JsonView::object().entry("jsonrpc"@, JsonView::Text("2.0"@)).entry("id"@, id).entry(
        "error"@,
        JsonView::object().entry("code"@, JsonView::Negative(INTERNAL_ERROR)).entry(
            "message"@,
            JsonView::Text(message),
        ),
    )
}

/// The request in a line of input; none for a blank line, for what is not JSON
/// and for a notification, which take no answer.
pub fn serve(line: &str) -> (r: Option<Incoming>)
    ensures
        optional_incoming(r) == incoming_of(line@),
{
    if text::trim(line).unicode_len() == 0 {
        return None;
    }
    match json::parse(line) {
        Ok(request) => match request.get("id") {
            Some(id) => Some(
                Incoming {
                    id: id.clone(),
                    method: request.text_or("method", "").to_owned(),
                    params: request.at("params"),
                },
            ),
            None => None,
        },
        Err(_) => None,
    }
}

/// The answer to a request, for what came of it.
pub open spec fn response_json(id: JsonView, outcome: Result<Json, Failure>) -> JsonView {
    match outcome {
        Ok(result) => result_json(id, result@),
        Err(e) => error_json(id, e@.in_full()),
    }
}

/// Under `id` an answer holds the id of its request, and under `result` what
/// came of it; or else under `error` the code and the sentence of what went
/// wrong. So does the answer once it is written.
pub proof fn lemma_response(id: JsonView, outcome: Result<Json, Failure>)
    ensures
        ({
            let written = json::stored(response_json(id, outcome));
            &&& written.field("id"@) == Some(json::stored(id))
            &&& match outcome {
                Ok(result) => written.field("result"@) == Some(json::stored(result@))
                    && written.field("error"@) is None,
                Err(e) => {
                    &&& written.field("result"@) is None
                    &&& written.at("error"@).field("code"@) == Some(
                        JsonView::Negative(INTERNAL_ERROR),
                    )
                    &&& written.at("error"@).field("message"@) == Some(
                        JsonView::Text(e@.in_full()),
                    )
                },
            }
        }),
{
    reveal_strlit("id");
    reveal_strlit("result");
    reveal_strlit("error");
    reveal_strlit("jsonrpc");
    reveal_strlit("code");
    reveal_strlit("message");
    let whole = response_json(id, outcome);
    let nothing = Seq::<(Seq<char>, JsonView)>::empty();
    let version = JsonView::Text("2.0"@);
    let first = nothing.push(("jsonrpc"@, version));
    let second = first.push(("id"@, id));
    let code = JsonView::Negative(INTERNAL_ERROR);
    let (last, value) = match outcome {
        Ok(result) => ("result"@, result@),
        Err(e) => (
            "error"@,
            JsonView::object().entry("code"@, code).entry(
                "message"@,
                JsonView::Text(e@.in_full()),
            ),
        ),
    };
    assert(whole == JsonView::Object(second.push((last, value))));
    assert("id"@.len() == 2 && "result"@.len() == 6 && "error"@.len() == 5 && "jsonrpc"@.len() == 7);
    assert forall|name: Seq<char>| name == "id"@ || name == "result"@ || name == "error"@ implies {
        &&& #[trigger] whole.field(name) == if name == last {
            Some(value)
        } else if name == "id"@ {
            Some(id)
        } else {
            None
        }
    } by {
        json::lemma_entry_pushed(nothing, "jsonrpc"@, version, name);
        json::lemma_entry_pushed(first, "id"@, id, name);
        json::lemma_entry_pushed(second, last, value, name);
    }
    json::what_is_written_is_found_under_its_name(whole, "id"@);
    json::what_is_written_is_found_under_its_name(whole, "result"@);
    json::what_is_written_is_found_under_its_name(whole, "error"@);
    match outcome {
        Ok(_) => {},
        Err(e) => {
            let told = JsonView::Text(e@.in_full());
            assert("code"@.len() == 4 && "message"@.len() == 7);
            json::lemma_entry_pushed(nothing, "code"@, code, "code"@);
            json::lemma_entry_pushed(nothing.push(("code"@, code)), "message"@, told, "code"@);
            json::lemma_entry_pushed(nothing.push(("code"@, code)), "message"@, told, "message"@);
            json::what_is_written_is_found_under_its_name(value, "code"@);
            json::what_is_written_is_found_under_its_name(value, "message"@);
        },
    }
}

/// The line that answers a request. Whoever reads it finds the id of the
/// request in it, and what came of the request.
pub fn response_line(id: Json, outcome: Result<Json, Failure>) -> (r: String)
    ensures
        r@ == json::compact(json::stored(response_json(id@, outcome))) + "\n"@,
        json::depth(json::stored(response_json(id@, outcome))) <= json::MAX_DEPTH ==> ({
            let read = json::parsed(r@.drop_last());
            &&& read is Ok
            &&& read->Ok_0.field("id"@) == Some(json::stored(id@))
            &&& match outcome {
                Ok(result) => read->Ok_0.field("result"@) == Some(json::stored(result@)),
                Err(e) => read->Ok_0.at("error"@).field("message"@) == Some(
                    JsonView::Text(e@.in_full()),
                ),
            }
        }),
{
    let ghost view = response_json(id@, outcome);
    let answer = Json::object().entry("jsonrpc", Json::text("2.0")).entry("id", id);
    let answer = match outcome {
        Ok(result) => answer.entry("result", result),
        Err(e) => answer.entry(
            "error",
            Json::object().entry("code", Json::Negative(INTERNAL_ERROR)).entry(
                "message",
                Json::Text(e.full()),
            ),
        ),
    };
    let mut line = answer.to_text();
    proof {
        lemma_response(id@, outcome);
        reveal_strlit("\n");
        assert(answer@ == view);
        assert((line@ + "\n"@).drop_last() =~= line@);
    }
    line.append("\n");
    line
}

// ---------------------------------------------------------------------------
// What is asked
// ---------------------------------------------------------------------------

/// How a request is served: at once, or by asking the daemon.
#[derive(Debug)]
pub enum Handled {
    /// This is the result.
    Result(Json),
    /// Ask the daemon, and hand its answer to [`answer_tool`].
    Ask { tool: String, request: Request },
}

/// How a request is served, mathematically.
pub enum HandledView {
    Result(JsonView),
    Ask { tool: Seq<char>, request: ipc::RequestView },
}

impl View for Handled {
    type V = HandledView;

    open spec fn view(&self) -> HandledView {
        match self {
            Handled::Result(value) => HandledView::Result(value@),
            Handled::Ask { tool, request } => HandledView::Ask { tool: tool@, request: request@ },
        }
    }
}

/// What the server says of itself.
pub open spec fn initialize_json() -> JsonView {
    JsonView::object().entry("protocolVersion"@, JsonView::Text(PROTOCOL_VERSION@)).entry(
        "capabilities"@,
        JsonView::object().entry("tools"@, JsonView::object()),
    ).entry(
        "serverInfo"@,
        JsonView::object().entry("name"@, JsonView::Text("kintri"@)).entry(
            "version"@,
            JsonView::Text(crate::VERSION@),
        ),
    )
}

/// What an object holds under `key`, or an empty list.
pub open spec fn list_at(args: JsonView, key: Seq<char>) -> JsonView {
    match args.field(key) {
        Some(value) => value,
        None => JsonView::array(),
    }
}

/// A number that an object holds under `key`.
pub open spec fn number_at(args: JsonView, key: Seq<char>) -> Option<usize> {
    match args.at(key) {
        JsonView::Unsigned(n) => Some(n as usize),
        _ => None,
    }
}

/// What the daemon is asked for a call of a tool from the directory `cwd`;
/// nothing, when there is no such tool.
pub open spec fn request_of(
    tool: Seq<char>,
    args: JsonView,
    cwd: Option<Seq<char>>,
) -> Option<ipc::RequestView> {
    if tool == REMEMBER@ {
        Some(
            ipc::RequestView::Remember(
                JsonView::object().entry(
                    "type"@,
                    JsonView::Text(args.text_or("type"@, "discovery"@)),
                ).entry("content"@, args.at("content"@)).entry(
                    "project"@,
                    args.at("project"@),
                ).entry("repository"@, args.at("repository"@)).entry(
                    "files"@,
                    list_at(args, "files"@),
                ).entry("technologies"@, list_at(args, "technologies"@)).entry(
                    "cwd"@,
                    json::text_or_null(cwd),
                ),
            ),
        )
    } else if tool == SEARCH@ {
        Some(
            ipc::RequestView::Search(
                JsonView::object().entry("q"@, args.at("query"@)).entry(
                    "project"@,
                    args.at("project"@),
                ).entry("repository"@, args.at("repository"@)).entry(
                    "files"@,
                    args.at("files"@),
                ).entry("technologies"@, args.at("technologies"@)).entry(
                    "limit"@,
                    args.at("limit"@),
                ),
            ),
        )
    } else if tool == MESSAGE@ {
        Some(
            ipc::RequestView::Message(
                JsonView::object().entry(
                    "target_session_id"@,
                    args.at("target_session_id"@),
                ).entry("content"@, args.at("content"@)).entry("cwd"@, json::text_or_null(cwd)),
            ),
        )
    } else if tool == INBOX@ {
        Some(ipc::RequestView::Inbox { limit: number_at(args, "limit"@), cwd })
    } else {
        None
    }
}

/// A result that says one thing.
pub open spec fn content_json(said: Seq<char>) -> JsonView {
    JsonView::object().entry(
        "content"@,
        JsonView::array().item(
            JsonView::object().entry("type"@, JsonView::Text("text"@)).entry(
                "text"@,
                JsonView::Text(said),
            ),
        ),
    )
}

/// A result that says what went wrong.
pub open spec fn tool_error_json(message: Seq<char>) -> JsonView {
    content_json(message).entry("isError"@, JsonView::Bool(true))
}

/// How a call of a tool is served.
pub open spec fn call_of(params: JsonView, cwd: Option<Seq<char>>) -> HandledView {
    let tool = params.text_or("name"@, ""@);
    match request_of(tool, params.at("arguments"@), cwd) {
        Some(request) => HandledView::Ask { tool, request },
        None => HandledView::Result(tool_error_json("no such tool: "@ + tool)),
    }
}

/// How a request is served.
pub open spec fn handled_of(
    method: Seq<char>,
    params: JsonView,
    cwd: Option<Seq<char>>,
) -> HandledView {
    if method == "initialize"@ {
        HandledView::Result(initialize_json())
    } else if method == "tools/list"@ {
        HandledView::Result(JsonView::object().entry("tools"@, tools_json()))
    } else if method == "tools/call"@ {
        call_of(params, cwd)
    } else {
        HandledView::Result(JsonView::object())
    }
}

/// An unknown tool is a sentence that names it, and nothing worse.
pub proof fn an_unknown_tool_is_a_tool_error(params: JsonView, cwd: Option<Seq<char>>)
    requires
        ({
            let tool = params.text_or("name"@, ""@);
            tool != REMEMBER@ && tool != SEARCH@ && tool != MESSAGE@ && tool != INBOX@
        }),
    ensures
        handled_of("tools/call"@, params, cwd) == HandledView::Result(
            tool_error_json("no such tool: "@ + params.text_or("name"@, ""@)),
        ),
{
    reveal_strlit("initialize");
    reveal_strlit("tools/list");
    reveal_strlit("tools/call");
    assert("tools/call"@[6] != "tools/list"@[6]);
    assert("tools/call"@[0] != "initialize"@[0]);
}

/// A number that an object holds under `key`.
fn number(args: &Json, key: &str) -> (r: Option<usize>)
    ensures
        r == number_at(args@, key@),
{
    match args.get(key) {
        Some(Json::Unsigned(n)) => Some(*n as usize),
        _ => None,
    }
}

/// What an object holds under `key`, or an empty list.
fn list(args: &Json, key: &str) -> (r: Json)
    ensures
        r@ == list_at(args@, key@),
{
    match args.get(key) {
        Some(value) => value.clone(),
        None => Json::array(),
    }
}

/// A result that says one thing.
fn content(said: String) -> (r: Json)
    ensures
        r@ == content_json(said@),
{
    Json::object().entry(
        "content",
        Json::array().item(
            Json::object().entry("type", Json::text("text")).entry("text", Json::Text(said)),
        ),
    )
}

/// A result that says what went wrong. It is a result like any other: the
/// session goes on, and the agent is told plainly.
pub fn tool_error(message: String) -> (r: Json)
    ensures
        r@ == tool_error_json(message@),
{
    content(message).entry("isError", Json::Bool(true))
}

/// Serve a call of a tool. `cwd` is the directory that this server runs in:
/// nobody tells it which session started it, and the directory is how the
/// daemon finds the right one.
pub fn call_tool(params: &Json, cwd: Option<String>) -> (r: Handled)
    ensures
        r@ == call_of(params@, text::optional(cwd)),
{
    let name = params.text_or("name", "");
    let args = params.at("arguments");
    let request = if text::same(name, REMEMBER) {
        Request::Remember(
            Json::object().entry("type", Json::text(args.text_or("type", "discovery"))).entry(
                "content",
                args.at("content"),
            ).entry("project", args.at("project")).entry("repository", args.at("repository")).entry(
                "files",
                list(&args, "files"),
            ).entry("technologies", list(&args, "technologies")).entry(
                "cwd",
                Json::optional(&cwd),
            ),
        )
    } else if text::same(name, SEARCH) {
        Request::Search(
            Json::object().entry("q", args.at("query")).entry("project", args.at("project")).entry(
                "repository",
                args.at("repository"),
            ).entry("files", args.at("files")).entry("technologies", args.at("technologies")).entry(
                "limit",
                args.at("limit"),
            ),
        )
    } else if text::same(name, MESSAGE) {
        Request::Message(
            Json::object().entry("target_session_id", args.at("target_session_id")).entry(
                "content",
                args.at("content"),
            ).entry("cwd", Json::optional(&cwd)),
        )
    } else if text::same(name, INBOX) {
        Request::Inbox { limit: number(&args, "limit"), cwd }
    } else {
        let mut message: String = "no such tool: ".to_owned();
        message.append(name);
        return Handled::Result(tool_error(message));
    };
    Handled::Ask { tool: name.to_owned(), request }
}

/// Serve a request. An unknown method is not worth a red mark in a client's
/// log, so it gets an empty result.
pub fn handle(method: &str, params: &Json, cwd: Option<String>) -> (r: Handled)
    ensures
        r@ == handled_of(method@, params@, text::optional(cwd)),
{
    if text::same(method, "initialize") {
        Handled::Result(
            Json::object().entry("protocolVersion", Json::text(PROTOCOL_VERSION)).entry(
                "capabilities",
                Json::object().entry("tools", Json::object()),
            ).entry(
                "serverInfo",
                Json::object().entry("name", Json::text("kintri")).entry(
                    "version",
                    Json::text(crate::VERSION),
                ),
            ),
        )
    } else if text::same(method, "tools/list") {
        Handled::Result(Json::object().entry("tools", tools()))
    } else if text::same(method, "tools/call") {
        call_tool(params, cwd)
    } else {
        Handled::Result(Json::object())
    }
}

// ---------------------------------------------------------------------------
// What is answered
// ---------------------------------------------------------------------------

/// Why a memory was returned, in words.
pub open spec fn reasons_text(memory: JsonView) -> Seq<char> {
    let reasons = json::texts_among(memory.at("relevance"@).at("because"@).items());
    if reasons.len() == 0 {
        "recent"@
    } else {
        text::joined(reasons, "; "@)
    }
}

/// A memory, for an agent to read.
pub open spec fn memory_text(memory: JsonView) -> Seq<char> {
    "["@ + memory.text_or("type"@, "-"@) + "] "@ + memory.text_or("content"@, ""@) + "\n  by "@
        + memory.text_or("author"@, "a colleague's agent"@) + " · "@ + reasons_text(memory) + "\n"@
}

/// Memories, one behind the other.
pub open spec fn memories_text(memories: Seq<JsonView>) -> Seq<char>
    decreases memories.len(),
{
    if memories.len() == 0 {
        Seq::empty()
    } else {
        memories_text(memories.drop_last()) + memory_text(memories.last())
    }
}

/// A message, for an agent to read.
pub open spec fn message_text(message: JsonView) -> Seq<char> {
    message.text_or("from"@, "another agent"@) + ": "@ + message.text_or("content"@, ""@)
}

/// The daemon's answer, for an agent to read.
pub open spec fn rendered(tool: Seq<char>, value: JsonView) -> Seq<char> {
    if tool == SEARCH@ {
        let memories = value.at("memories"@).items();
        if memories.len() == 0 {
            NOTHING_RELEVANT@
        } else {
            memories_text(memories)
        }
    } else if tool == INBOX@ {
        let messages = value.at("messages"@).items();
        if messages.len() == 0 {
            "No messages."@
        } else {
            text::joined(messages.map_values(|m: JsonView| message_text(m)), "\n"@)
        }
    } else if tool == REMEMBER@ {
        "Published to the team."@
    } else if tool == MESSAGE@ {
        if value.at("pushed"@) == JsonView::Bool(true) {
            "Delivered."@
        } else {
            "Queued; their agent will see it when it next checks."@
        }
    } else {
        json::compact(json::stored(value))
    }
}

/// The sentence for a search that found nothing, which is an answer: an agent
/// that took it for a failure would start working around the tool.
pub const NOTHING_RELEVANT: &'static str =
    "Nothing the team has published is relevant to this. That is an answer, not a failure.";

/// A memory, for an agent to read.
fn render_memory(memory: &Json) -> (r: String)
    ensures
        r@ == memory_text(memory@),
{
    let reasons = json::texts(&memory.at("relevance").items_at("because"));
    let why: String = if reasons.len() == 0 {
        "recent".to_owned()
    } else {
        text::join(&reasons, "; ")
    };
    let mut out: String = "[".to_owned();
    out.append(memory.text_or("type", "-"));
    out.append("] ");
    out.append(memory.text_or("content", ""));
    out.append("\n  by ");
    out.append(memory.text_or("author", "a colleague's agent"));
    out.append(" · ");
    out.append(why.as_str());
    out.append("\n");
    assert(text::texts(reasons@).len() == reasons@.len());
    out
}

/// A message, for an agent to read.
fn render_message(message: &Json) -> (r: String)
    ensures
        r@ == message_text(message@),
{
    let mut out: String = message.text_or("from", "another agent").to_owned();
    out.append(": ");
    out.append(message.text_or("content", ""));
    out
}

/// Turn the daemon's answer into something worth spending an agent's context
/// on.
pub fn render(tool: &str, value: &Json) -> (r: String)
    ensures
        r@ == rendered(tool@, value@),
{
    if text::same(tool, SEARCH) {
        let memories = value.items_at("memories");
        let ghost all = json::views(memories@);
        if memories.len() == 0 {
            return NOTHING_RELEVANT.to_owned();
        }
        let mut out: String = String::new();
        let mut i: usize = 0;
        assert(out@ =~= memories_text(all.take(0)));
        while i < memories.len()
            invariant
                i <= memories@.len(),
                all == json::views(memories@),
                out@ == memories_text(all.take(i as int)),
            decreases memories@.len() - i,
        {
            let ghost next = all.take(i + 1);
            assert(next.drop_last() =~= all.take(i as int));
            assert(next.last() == memories@[i as int]@);
            out.append(render_memory(&memories[i]).as_str());
            i = i + 1;
        }
        assert(all.take(i as int) =~= all);
        out
    } else if text::same(tool, INBOX) {
        let messages = value.items_at("messages");
        let ghost all = json::views(messages@).map_values(|m: JsonView| message_text(m));
        if messages.len() == 0 {
            return "No messages.".to_owned();
        }
        let mut lines: Vec<String> = Vec::new();
        let mut i: usize = 0;
        assert(text::texts(lines@) =~= all.take(0));
        while i < messages.len()
            invariant
                i <= messages@.len(),
                all == json::views(messages@).map_values(|m: JsonView| message_text(m)),
                text::texts(lines@) == all.take(i as int),
            decreases messages@.len() - i,
        {
            let ghost was = lines@;
            let line = render_message(&messages[i]);
            lines.push(line);
            assert(text::texts(lines@) =~= text::texts(was).push(line@));
            assert(all.take(i + 1) =~= all.take(i as int).push(line@));
            i = i + 1;
        }
        assert(all.take(i as int) =~= all);
        text::join(&lines, "\n")
    } else if text::same(tool, REMEMBER) {
        "Published to the team.".to_owned()
    } else if text::same(tool, MESSAGE) {
        let pushed = match value.get("pushed") {
            Some(Json::Bool(b)) => *b,
            _ => false,
        };
        if pushed {
            "Delivered.".to_owned()
        } else {
            "Queued; their agent will see it when it next checks.".to_owned()
        }
    } else {
        value.to_text()
    }
}

/// The result of a call, for what the daemon answered.
pub open spec fn answered(tool: Seq<char>, outcome: Result<Json, Failure>) -> JsonView {
    match outcome {
        Ok(value) => content_json(rendered(tool, value@)),
        Err(e) => tool_error_json(e@.in_full()),
    }
}

/// Whatever goes wrong with the daemon, a call has a result: a sentence that
/// says what went wrong, marked as an error. A missing daemon is no more than
/// that.
pub proof fn a_missing_daemon_is_a_tool_error(
    tool: Seq<char>,
    socket: Seq<char>,
    error: ipc::ConnectError,
    e: Failure,
)
    requires
        e@ == ipc::no_connection(socket, error),
    ensures
        answered(tool, Err(e)) == tool_error_json(ipc::no_connection(socket, error).in_full()),
        answered(tool, Err(e)).field("isError"@) == Some(JsonView::Bool(true)),
{
    reveal_strlit("content");
    reveal_strlit("isError");
    assert("content"@[0] != "isError"@[0]);
    let said = content_json(e@.in_full())->Object_0;
    json::lemma_entry_pushed(said, "isError"@, JsonView::Bool(true), "isError"@);
    let nothing = Seq::<(Seq<char>, JsonView)>::empty();
    assert(said =~= nothing.push(said[0]));
    json::lemma_entry_pushed(nothing, "content"@, said[0].1, "isError"@);
}

/// The result of a call, for what the daemon answered. A daemon that is not
/// there is a sentence, and the session goes on.
pub fn answer_tool(tool: &str, outcome: Result<Json, Failure>) -> (r: Json)
    ensures
        r@ == answered(tool@, outcome),
{
    match outcome {
        Ok(value) => content(render(tool, &value)),
        Err(e) => tool_error(e.full()),
    }
}

// ---------------------------------------------------------------------------
// The tools
// ---------------------------------------------------------------------------

pub const REMEMBER_DESCRIPTION: &'static str =
    "Publish something you have learned to the rest of the team's agents, so the next person does not rediscover it. Use it when you find out something non-obvious that cost you time: a provider that behaves unexpectedly, a decision the codebase encodes, a convention, a trap. Do not use it for things already written in the code or the README, and never paste conversation or file contents - one or two sentences a colleague could have said.";

pub const SEARCH_DESCRIPTION: &'static str =
    "Ask what the team's other agents have already found out about what you are working on. Worth calling before you start on an unfamiliar file, when something behaves surprisingly, and before integrating an external provider. Pass the files you are actually touching: relevance is decided mostly by file overlap. An empty answer means nobody has published anything relevant - it is a real answer, not a failure.";

pub const MESSAGE_DESCRIPTION: &'static str =
    "Tell another agent that is working right now something it needs to know in the next few minutes - typically that you have just changed something under it. For knowledge worth keeping, use kintri_remember instead: messages expire, memories do not.";

pub const INBOX_DESCRIPTION: &'static str =
    "Read messages other agents have sent to this session. Check when you start a task and when you come back from a long operation. Only raise what materially affects what the user is doing - a message about a file nobody here is touching is not worth interrupting them for.";

pub const TYPE_DESCRIPTION: &'static str =
    "warning and decision are what other agents must not work around unknowingly.";

pub const FILES_DESCRIPTION: &'static str =
    "Paths this is about. The strongest signal for reaching the right agent - include them when you know them.";

/// A value of that type.
pub open spec fn typed_json(kind: Seq<char>) -> JsonView {
    JsonView::object().entry("type"@, JsonView::Text(kind))
}

/// A value of that type, with a description.
pub open spec fn described_json(kind: Seq<char>, description: Seq<char>) -> JsonView {
    typed_json(kind).entry("description"@, JsonView::Text(description))
}

/// A list of texts.
pub open spec fn texts_json() -> JsonView {
    typed_json("array"@).entry("items"@, typed_json("string"@))
}

/// A list of texts, with a description.
pub open spec fn described_texts_json(description: Seq<char>) -> JsonView {
    texts_json().entry("description"@, JsonView::Text(description))
}

/// The input of a tool.
pub open spec fn schema_json(properties: JsonView) -> JsonView {
    typed_json("object"@).entry("properties"@, properties)
}

/// The definition of a tool.
pub open spec fn tool_json(name: Seq<char>, description: Seq<char>, schema: JsonView) -> JsonView {
    JsonView::object().entry("name"@, JsonView::Text(name)).entry(
        "description"@,
        JsonView::Text(description),
    ).entry("inputSchema"@, schema)
}

/// The kinds of memory, in the order in which the platform lists them.
pub open spec fn kinds_json() -> JsonView {
    JsonView::array().item(JsonView::Text(MemoryType::Discovery.name())).item(
        JsonView::Text(MemoryType::Decision.name()),
    ).item(JsonView::Text(MemoryType::Warning.name())).item(
        JsonView::Text(MemoryType::Convention.name()),
    ).item(JsonView::Text(MemoryType::Architecture.name())).item(
        JsonView::Text(MemoryType::Bug.name()),
    ).item(JsonView::Text(MemoryType::Question.name()))
}

/// The tool that publishes.
pub open spec fn remember_json() -> JsonView {
    tool_json(
        REMEMBER@,
        REMEMBER_DESCRIPTION@,
        schema_json(
            JsonView::object().entry(
                "type"@,
                typed_json("string"@).entry("enum"@, kinds_json()).entry(
                    "description"@,
                    JsonView::Text(TYPE_DESCRIPTION@),
                ),
            ).entry("content"@, described_json("string"@, "One or two sentences."@)).entry(
                "files"@,
                described_texts_json(FILES_DESCRIPTION@),
            ).entry("technologies"@, texts_json()).entry("project"@, typed_json("string"@)).entry(
                "repository"@,
                described_json("string"@, "owner/name"@),
            ),
        ).entry(
            "required"@,
            JsonView::array().item(JsonView::Text("type"@)).item(JsonView::Text("content"@)),
        ),
    )
}

/// The tool that retrieves.
pub open spec fn search_json() -> JsonView {
    tool_json(
        SEARCH@,
        SEARCH_DESCRIPTION@,
        schema_json(
            JsonView::object().entry(
                "query"@,
                described_json("string"@, "What you want to know."@),
            ).entry("files"@, described_texts_json("Files you are working on."@)).entry(
                "technologies"@,
                texts_json(),
            ).entry("project"@, typed_json("string"@)).entry(
                "repository"@,
                described_json("string"@, "owner/name"@),
            ).entry("limit"@, typed_json("integer"@)),
        ),
    )
}

/// The tool that sends.
pub open spec fn message_json() -> JsonView {
    tool_json(
        MESSAGE@,
        MESSAGE_DESCRIPTION@,
        schema_json(
            JsonView::object().entry(
                "target_session_id"@,
                described_json("string"@, "The session to reach."@),
            ).entry("content"@, typed_json("string"@)),
        ).entry(
            "required"@,
            JsonView::array().item(JsonView::Text("target_session_id"@)).item(
                JsonView::Text("content"@),
            ),
        ),
    )
}

/// The tool that receives.
pub open spec fn inbox_json() -> JsonView {
    tool_json(
        INBOX@,
        INBOX_DESCRIPTION@,
        schema_json(JsonView::object().entry("limit"@, typed_json("integer"@))),
    )
}

/// The four tools.
pub open spec fn tools_json() -> JsonView {
    JsonView::array().item(remember_json()).item(search_json()).item(message_json()).item(
        inbox_json(),
    )
}

/// A value of that type.
fn typed(kind: &str) -> (r: Json)
    ensures
        r@ == typed_json(kind@),
{
    Json::object().entry("type", Json::text(kind))
}

/// A value of that type, with a description.
fn described(kind: &str, description: &str) -> (r: Json)
    ensures
        r@ == described_json(kind@, description@),
{
    typed(kind).entry("description", Json::text(description))
}

/// A list of texts.
fn list_of_texts() -> (r: Json)
    ensures
        r@ == texts_json(),
{
    typed("array").entry("items", typed("string"))
}

/// A list of texts, with a description.
fn described_texts(description: &str) -> (r: Json)
    ensures
        r@ == described_texts_json(description@),
{
    list_of_texts().entry("description", Json::text(description))
}

/// The input of a tool.
fn schema(properties: Json) -> (r: Json)
    ensures
        r@ == schema_json(properties@),
{
    typed("object").entry("properties", properties)
}

/// The definition of a tool.
fn tool(name: &str, description: &str, schema: Json) -> (r: Json)
    ensures
        r@ == tool_json(name@, description@, schema@),
{
    Json::object().entry("name", Json::text(name)).entry(
        "description",
        Json::text(description),
    ).entry("inputSchema", schema)
}

/// The kinds of memory.
fn kinds() -> (r: Json)
    ensures
        r@ == kinds_json(),
{
    Json::array().item(Json::text(MemoryType::Discovery.as_str())).item(
        Json::text(MemoryType::Decision.as_str()),
    ).item(Json::text(MemoryType::Warning.as_str())).item(
        Json::text(MemoryType::Convention.as_str()),
    ).item(Json::text(MemoryType::Architecture.as_str())).item(
        Json::text(MemoryType::Bug.as_str()),
    ).item(Json::text(MemoryType::Question.as_str()))
}

/// The tool that publishes.
fn remember_tool() -> (r: Json)
    ensures
        r@ == remember_json(),
{
    tool(
        REMEMBER,
        REMEMBER_DESCRIPTION,
        schema(
            Json::object().entry(
                "type",
                typed("string").entry("enum", kinds()).entry(
                    "description",
                    Json::text(TYPE_DESCRIPTION),
                ),
            ).entry("content", described("string", "One or two sentences.")).entry(
                "files",
                described_texts(FILES_DESCRIPTION),
            ).entry("technologies", list_of_texts()).entry("project", typed("string")).entry(
                "repository",
                described("string", "owner/name"),
            ),
        ).entry("required", Json::array().item(Json::text("type")).item(Json::text("content"))),
    )
}

/// The tool that retrieves.
fn search_tool() -> (r: Json)
    ensures
        r@ == search_json(),
{
    tool(
        SEARCH,
        SEARCH_DESCRIPTION,
        schema(
            Json::object().entry("query", described("string", "What you want to know.")).entry(
                "files",
                described_texts("Files you are working on."),
            ).entry("technologies", list_of_texts()).entry("project", typed("string")).entry(
                "repository",
                described("string", "owner/name"),
            ).entry("limit", typed("integer")),
        ),
    )
}

/// The tool that sends.
fn message_tool() -> (r: Json)
    ensures
        r@ == message_json(),
{
    tool(
        MESSAGE,
        MESSAGE_DESCRIPTION,
        schema(
            Json::object().entry(
                "target_session_id",
                described("string", "The session to reach."),
            ).entry("content", typed("string")),
        ).entry(
            "required",
            Json::array().item(Json::text("target_session_id")).item(Json::text("content")),
        ),
    )
}

/// The tool that receives.
fn inbox_tool() -> (r: Json)
    ensures
        r@ == inbox_json(),
{
    tool(
        INBOX,
        INBOX_DESCRIPTION,
        schema(Json::object().entry("limit", typed("integer"))),
    )
}

/// The tool definitions.
///
/// The descriptions are written for the model: they say when to reach for the
/// tool, because a tool that an agent does not know when to use is one it will
/// either never call or call on everything.
pub fn tools() -> (r: Json)
    ensures
        r@ == tools_json(),
{
    Json::array().item(remember_tool()).item(search_tool()).item(message_tool()).item(inbox_tool())
}

// ---------------------------------------------------------------------------
// What an agent says is what is passed on
// ---------------------------------------------------------------------------

/// The names of the tools are four.
proof fn lemma_tool_names()
    ensures
        REMEMBER@ != SEARCH@,
        REMEMBER@ != MESSAGE@,
        REMEMBER@ != INBOX@,
        SEARCH@ != MESSAGE@,
        SEARCH@ != INBOX@,
        MESSAGE@ != INBOX@,
{
    reveal_strlit("kintri_remember");
    reveal_strlit("kintri_search");
    reveal_strlit("kintri_message");
    reveal_strlit("kintri_inbox");
    assert("kintri_remember"@.len() == 15);
    assert("kintri_search"@.len() == 13);
    assert("kintri_message"@.len() == 14);
    assert("kintri_inbox"@.len() == 12);
}

/// A call of the message tool asks for a message with the content and for the
/// session that the arguments name, whatever these are, from the directory of
/// the server.
pub proof fn a_message_is_passed_on_as_it_was_written(
    params: Json,
    cwd: Option<String>,
    r: Handled,
)
    requires
        call_ensures(call_tool, (&params, cwd), r),
        params@.field("name"@) == Some(JsonView::Text("kintri_message"@)),
    ensures
        ({
            let args = params@.at("arguments"@);
            &&& r matches Handled::Ask { tool, request }
            &&& tool@ == "kintri_message"@
            &&& request@ matches ipc::RequestView::Message(body)
            &&& body.field("content"@) == Some(args.at("content"@))
            &&& body.field("target_session_id"@) == Some(args.at("target_session_id"@))
            &&& body.field("cwd"@) == Some(
                match cwd {
                    Some(dir) => JsonView::Text(dir@),
                    None => JsonView::Null,
                },
            )
            &&& forall|name: Seq<char>|
                name != "target_session_id"@ && name != "content"@ && name != "cwd"@ ==> (#[trigger] body.field(
                    name,
                )) is None
        }),
{
    broadcast use json::lemma_field_of_entry;

    lemma_tool_names();
    reveal_strlit("target_session_id");
    reveal_strlit("content");
    reveal_strlit("cwd");
    assert("target_session_id"@.len() == 17);
    assert("content"@.len() == 7);
    assert("cwd"@.len() == 3);
}

/// A call of the publishing tool asks for a memory with everything that the
/// arguments say of it; a memory of no kind is a discovery, and lists that are
/// not given are empty.
pub proof fn a_memory_is_passed_on_as_it_was_written(
    params: Json,
    cwd: Option<String>,
    r: Handled,
)
    requires
        call_ensures(call_tool, (&params, cwd), r),
        params@.field("name"@) == Some(JsonView::Text("kintri_remember"@)),
    ensures
        ({
            let args = params@.at("arguments"@);
            &&& r matches Handled::Ask { tool, request }
            &&& tool@ == "kintri_remember"@
            &&& request@ matches ipc::RequestView::Remember(body)
            &&& body.field("content"@) == Some(args.at("content"@))
            &&& body.field("project"@) == Some(args.at("project"@))
            &&& body.field("repository"@) == Some(args.at("repository"@))
            &&& args.at("type"@) is Text ==> body.field("type"@) == Some(args.at("type"@))
            &&& !(args.at("type"@) is Text) ==> body.field("type"@) == Some(
                JsonView::Text("discovery"@),
            )
            &&& args.field("files"@) is Some ==> body.field("files"@) == args.field("files"@)
            &&& args.field("files"@) is None ==> body.at("files"@) is Array && body.at(
                "files"@,
            ).items().len() == 0
            &&& args.field("technologies"@) is Some ==> body.field("technologies"@) == args.field(
                "technologies"@,
            )
            &&& args.field("technologies"@) is None ==> body.at("technologies"@) is Array
                && body.at("technologies"@).items().len() == 0
            &&& body.field("cwd"@) == Some(
                match cwd {
                    Some(dir) => JsonView::Text(dir@),
                    None => JsonView::Null,
                },
            )
            &&& forall|name: Seq<char>|
                name != "type"@ && name != "content"@ && name != "project"@ && name != "repository"@ && name != "files"@ && name != "technologies"@ && name != "cwd"@ ==> (#[trigger] body.field(
                    name,
                )) is None
        }),
{
    broadcast use json::lemma_field_of_entry;

    lemma_tool_names();
    reveal_strlit("type");
    reveal_strlit("content");
    reveal_strlit("project");
    reveal_strlit("repository");
    reveal_strlit("files");
    reveal_strlit("technologies");
    reveal_strlit("cwd");
    assert("type"@.len() == 4);
    assert("content"@.len() == 7);
    assert("project"@.len() == 7);
    assert("repository"@.len() == 10);
    assert("files"@.len() == 5);
    assert("technologies"@.len() == 12);
    assert("cwd"@.len() == 3);
    assert("content"@[0] != "project"@[0]);
}

/// A call of the searching tool asks for exactly what the arguments ask for.
pub proof fn a_search_is_passed_on_as_it_was_asked(
    params: Json,
    cwd: Option<String>,
    r: Handled,
)
    requires
        call_ensures(call_tool, (&params, cwd), r),
        params@.field("name"@) == Some(JsonView::Text("kintri_search"@)),
    ensures
        ({
            let args = params@.at("arguments"@);
            &&& r matches Handled::Ask { tool, request }
            &&& tool@ == "kintri_search"@
            &&& request@ matches ipc::RequestView::Search(body)
            &&& body.field("q"@) == Some(args.at("query"@))
            &&& body.field("project"@) == Some(args.at("project"@))
            &&& body.field("repository"@) == Some(args.at("repository"@))
            &&& body.field("files"@) == Some(args.at("files"@))
            &&& body.field("technologies"@) == Some(args.at("technologies"@))
            &&& body.field("limit"@) == Some(args.at("limit"@))
            &&& forall|name: Seq<char>|
                name != "q"@ && name != "project"@ && name != "repository"@ && name != "files"@ && name != "technologies"@ && name != "limit"@ ==> (#[trigger] body.field(
                    name,
                )) is None
        }),
{
    broadcast use json::lemma_field_of_entry;

    lemma_tool_names();
    reveal_strlit("q");
    reveal_strlit("project");
    reveal_strlit("repository");
    reveal_strlit("files");
    reveal_strlit("technologies");
    reveal_strlit("limit");
    assert("q"@.len() == 1);
    assert("project"@.len() == 7);
    assert("repository"@.len() == 10);
    assert("files"@.len() == 5);
    assert("technologies"@.len() == 12);
    assert("limit"@.len() == 5);
    assert("files"@[0] != "limit"@[0]);
}

/// A call of the receiving tool asks for as many messages as the arguments say,
/// for the directory of the server.
pub proof fn an_inbox_is_asked_for_as_many_as_are_wanted(
    params: Json,
    cwd: Option<String>,
    r: Handled,
)
    requires
        call_ensures(call_tool, (&params, cwd), r),
        params@.field("name"@) == Some(JsonView::Text("kintri_inbox"@)),
    ensures
        ({
            let wanted = params@.at("arguments"@).at("limit"@);
            &&& r matches Handled::Ask { tool, request }
            &&& tool@ == "kintri_inbox"@
            &&& request@ matches ipc::RequestView::Inbox { limit, cwd: from }
            &&& from == text::optional(cwd)
            &&& !(wanted is Unsigned) ==> limit is None
            &&& wanted matches JsonView::Unsigned(n) ==> limit is Some && (n <= usize::MAX
                ==> limit->0 == n)
        }),
{
    lemma_tool_names();
}

/// A call of a tool is served as such, whichever tool it is.
pub proof fn a_call_is_served_as_a_call(
    method: &str,
    params: Json,
    cwd: Option<String>,
    r: Handled,
    called: Handled,
)
    requires
        method@ == "tools/call"@,
        call_ensures(handle, (method, &params, cwd), r),
        call_ensures(call_tool, (&params, cwd), called),
    ensures
        r@ == called@,
{
    reveal_strlit("initialize");
    reveal_strlit("tools/list");
    reveal_strlit("tools/call");
    assert("initialize"@.len() == 10);
    assert("tools/list"@.len() == 10);
    assert("tools/call"@.len() == 10);
    assert("initialize"@[0] != "tools/list"@[0]);
    assert("initialize"@[0] != "tools/call"@[0]);
    assert("tools/list"@[6] != "tools/call"@[6]);
}

/// A line with a request that has an id is taken for that request: its id, its
/// method and its parameters. Whatever has no id takes no answer.
pub proof fn a_request_is_taken_for_what_it_says(line: &str, r: Option<Incoming>)
    requires
        call_ensures(serve, (line,), r),
    ensures
        text::blank(line@) || json::parsed(line@) is Err ==> r is None,
        json::parsed(line@) matches Ok(value) ==> {
            &&& value.field("id"@) is None ==> r is None
            &&& text::trimmed(line@).len() > 0 && value.field("id"@) is Some ==> {
                &&& r is Some
                &&& Some(r->0.id@) == value.field("id"@)
                &&& r->0.params@ == value.at("params"@)
                &&& value.at("method"@) matches JsonView::Text(method) ==> r->0.method@ == method
                &&& !(value.at("method"@) is Text) ==> r->0.method@.len() == 0
            }
        },
{
    reveal_strlit("");
    if text::blank(line@) {
        text::a_blank_text_is_trimmed_away(line@);
    }
    if r is Some {
        assert(optional_incoming(r) == Some(r->0@));
    }
}

/// A call has one result: what the daemon answered, for an agent to read.
pub proof fn an_answer_is_read_by_the_agent(
    tool: &str,
    value: Json,
    r: Json,
    said: String,
)
    requires
        call_ensures(answer_tool, (tool, Ok(value)), r),
        call_ensures(render, (tool, &value), said),
    ensures
        r@.at("content"@).items().len() == 1,
        r@.at("content"@).items()[0].field("type"@) == Some(JsonView::Text("text"@)),
        r@.at("content"@).items()[0].field("text"@) == Some(JsonView::Text(said@)),
        r@.field("isError"@) is None,
{
    broadcast use json::lemma_field_of_entry;

    reveal_strlit("content");
    reveal_strlit("isError");
    reveal_strlit("type");
    reveal_strlit("text");
    assert("content"@.len() == 7);
    assert("isError"@.len() == 7);
    assert("type"@.len() == 4);
    assert("text"@.len() == 4);
    assert("content"@[0] != "isError"@[0]);
    assert("type"@[1] != "text"@[1]);
}

/// What went wrong is said to the agent in full, and marked as an error.
pub proof fn a_failure_is_said_to_the_agent(
    tool: &str,
    e: Failure,
    r: Json,
    sentence: String,
)
    requires
        call_ensures(answer_tool, (tool, Err(e)), r),
        call_ensures(Failure::full, (&e,), sentence),
    ensures
        r@.at("content"@).items().len() == 1,
        r@.at("content"@).items()[0].field("text"@) == Some(JsonView::Text(sentence@)),
        r@.field("isError"@) == Some(JsonView::Bool(true)),
{
    broadcast use json::lemma_field_of_entry;

    reveal_strlit("content");
    reveal_strlit("isError");
    reveal_strlit("type");
    reveal_strlit("text");
    assert("content"@.len() == 7);
    assert("isError"@.len() == 7);
    assert("type"@.len() == 4);
    assert("text"@.len() == 4);
    assert("content"@[0] != "isError"@[0]);
    assert("type"@[1] != "text"@[1]);
}

// ---------------------------------------------------------------------------
// What an agent is shown
// ---------------------------------------------------------------------------

proof fn lemma_joined_apart(a: Seq<Seq<char>>, b: Seq<Seq<char>>, separator: Seq<char>)
    requires
        a.len() > 0,
        b.len() > 0,
    ensures
        text::joined(a + b, separator) == text::joined(a, separator) + separator + text::joined(
            b,
            separator,
        ),
    decreases b.len(),
{
    let all = a + b;
    let rest = b.drop_last();
    assert(all.drop_last() =~= a + rest);
    assert(all.last() == b.last());
    if b.len() == 1 {
        assert(a + rest =~= a);
        assert(b.last() == b[0]);
    } else {
        lemma_joined_apart(a, rest, separator);
        let x = text::joined(a, separator);
        let y = text::joined(rest, separator);
        assert(x + separator + y + separator + b.last() =~= x + separator + (y + separator
            + b.last()));
    }
}

proof fn lemma_memories_apart(a: Seq<JsonView>, b: Seq<JsonView>)
    ensures
        memories_text(a + b) == memories_text(a) + memories_text(b),
    decreases b.len(),
{
    let all = a + b;
    if b.len() == 0 {
        assert(all =~= a);
        assert(memories_text(a) + Seq::<char>::empty() =~= memories_text(a));
    } else {
        let rest = b.drop_last();
        assert(all.drop_last() =~= a + rest);
        assert(all.last() == b.last());
        lemma_memories_apart(a, rest);
        assert(memories_text(a) + memories_text(rest) + memory_text(b.last()) =~= memories_text(a)
            + (memories_text(rest) + memory_text(b.last())));
    }
}

/// Messages are shown to the agent in their order, those of one list behind
/// those of the other.
pub proof fn messages_are_shown_in_their_order(
    first: Json,
    second: Json,
    both: Json,
    a: String,
    b: String,
    r: String,
    tool: &str,
)
    requires
        tool@ == "kintri_inbox"@,
        call_ensures(render, (tool, &first), a),
        call_ensures(render, (tool, &second), b),
        call_ensures(render, (tool, &both), r),
        first@.at("messages"@).items().len() > 0,
        second@.at("messages"@).items().len() > 0,
        both@.at("messages"@).items() == first@.at("messages"@).items() + second@.at(
            "messages"@,
        ).items(),
    ensures
        r@ == a@ + "\n"@ + b@,
{
    lemma_tool_names();
    let show = |m: JsonView| message_text(m);
    let x = first@.at("messages"@).items();
    let y = second@.at("messages"@).items();
    assert((x + y).map_values(show) =~= x.map_values(show) + y.map_values(show));
    lemma_joined_apart(x.map_values(show), y.map_values(show), "\n"@);
}

/// Every message is shown to the agent, with who sent it.
pub proof fn every_message_is_shown(value: Json, r: String, tool: &str, i: int)
    requires
        tool@ == "kintri_inbox"@,
        call_ensures(render, (tool, &value), r),
        0 <= i < value@.at("messages"@).items().len(),
    ensures
        ({
            let message = value@.at("messages"@).items()[i];
            let sender = match message.field("from"@) {
                Some(JsonView::Text(name)) => name,
                _ => "another agent"@,
            };
            let said = match message.field("content"@) {
                Some(JsonView::Text(content)) => content,
                _ => Seq::empty(),
            };
            text::stands_in(sender + ": "@ + said, r@)
        }),
{
    lemma_tool_names();
    reveal_strlit("");
    assert(""@ =~= Seq::empty());
    let messages = value@.at("messages"@).items();
    let lines = messages.map_values(|m: JsonView| message_text(m));
    text::what_was_joined_stands_in_the_whole(lines, "\n"@, i);
    assert(lines[i] == message_text(messages[i]));
}

/// Memories are shown to the agent in their order, those of one list behind
/// those of the other.
pub proof fn memories_are_shown_in_their_order(
    first: Json,
    second: Json,
    both: Json,
    a: String,
    b: String,
    r: String,
    tool: &str,
)
    requires
        tool@ == "kintri_search"@,
        call_ensures(render, (tool, &first), a),
        call_ensures(render, (tool, &second), b),
        call_ensures(render, (tool, &both), r),
        first@.at("memories"@).items().len() > 0,
        second@.at("memories"@).items().len() > 0,
        both@.at("memories"@).items() == first@.at("memories"@).items() + second@.at(
            "memories"@,
        ).items(),
    ensures
        r@ == a@ + b@,
{
    lemma_tool_names();
    lemma_memories_apart(first@.at("memories"@).items(), second@.at("memories"@).items());
}

proof fn lemma_memory_shown(memories: Seq<JsonView>, i: int)
    requires
        0 <= i < memories.len(),
    ensures
        text::stands_in(memory_text(memories[i]), memories_text(memories)),
    decreases memories.len(),
{
    let nothing = Seq::<char>::empty();
    let before = memories_text(memories.drop_last());
    let last = memory_text(memories.last());
    if i == memories.len() - 1 {
        text::lemma_stands_in(before, last, nothing);
        assert(before + last + nothing =~= memories_text(memories));
    } else {
        lemma_memory_shown(memories.drop_last(), i);
        assert(memories.drop_last()[i] == memories[i]);
        text::lemma_stands_in_more(memory_text(memories[i]), before, nothing, last);
        assert(nothing + before + last =~= memories_text(memories));
    }
}

#[verifier::spinoff_prover]
proof fn lemma_memory_parts(
    kind: Seq<char>,
    said: Seq<char>,
    author: Seq<char>,
    why: Seq<char>,
)
    ensures
        ({
            let whole = "["@ + kind + "] "@ + said + "\n  by "@ + author + " · "@ + why + "\n"@;
            &&& text::stands_in("["@ + kind + "] "@ + said, whole)
            &&& text::stands_in("\n  by "@ + author, whole)
            &&& text::stands_in(why, whole)
        }),
{
    let nothing = Seq::<char>::empty();
    let first = "["@ + kind + "] "@ + said;
    let second = "\n  by "@ + author;
    let rest = " · "@ + why + "\n"@;
    let whole = "["@ + kind + "] "@ + said + "\n  by "@ + author + " · "@ + why + "\n"@;
    assert(first + "\n  by "@ + author =~= first + second);
    assert(whole =~= (first + second) + " · "@ + why + "\n"@);
    assert((first + second) + " · "@ + why + "\n"@ =~= first + second + rest);
    text::lemma_stands_in(first, second, rest);
    text::lemma_stands_in((first + second) + " · "@, why, "\n"@);
    assert(first + second + rest =~= nothing + first + (second + rest));
    text::lemma_stands_in(nothing, first, second + rest);
}

/// Every memory is shown to the agent: of which kind it is and what it says, who
/// published it, and why it is shown.
#[verifier::spinoff_prover]
pub proof fn every_memory_is_shown(value: Json, r: String, tool: &str, i: int)
    requires
        tool@ == "kintri_search"@,
        call_ensures(render, (tool, &value), r),
        0 <= i < value@.at("memories"@).items().len(),
    ensures
        ({
            let memory = value@.at("memories"@).items()[i];
            let reasons = json::texts_among(memory.at("relevance"@).at("because"@).items());
            let kind = match memory.field("type"@) {
                Some(JsonView::Text(word)) => word,
                _ => "-"@,
            };
            let said = match memory.field("content"@) {
                Some(JsonView::Text(content)) => content,
                _ => ""@,
            };
            let author = match memory.field("author"@) {
                Some(JsonView::Text(name)) => name,
                _ => "a colleague's agent"@,
            };
            &&& text::stands_in("["@ + kind + "] "@ + said, r@)
            &&& text::stands_in("\n  by "@ + author, r@)
            &&& reasons.len() == 0 ==> text::stands_in("recent"@, r@)
            &&& forall|k: int|
                0 <= k < reasons.len() ==> text::stands_in(#[trigger] reasons[k], r@)
        }),
{
    lemma_tool_names();
    let memories = value@.at("memories"@).items();
    let memory = memories[i];
    let whole = memory_text(memory);
    let shown = memories_text(memories);
    lemma_memory_shown(memories, i);
    let kind = memory.text_or("type"@, "-"@);
    let said = memory.text_or("content"@, ""@);
    let author = memory.text_or("author"@, "a colleague's agent"@);
    let why = reasons_text(memory);
    let reasons = json::texts_among(memory.at("relevance"@).at("because"@).items());
    let first = "["@ + kind + "] "@ + said;
    let second = "\n  by "@ + author;
    lemma_memory_parts(kind, said, author, why);
    lemma_shown_through(first, whole, shown);
    lemma_shown_through(second, whole, shown);
    lemma_shown_through(why, whole, shown);
    assert forall|k: int| 0 <= k < reasons.len() implies text::stands_in(
        #[trigger] reasons[k],
        shown,
    ) by {
        text::what_was_joined_stands_in_the_whole(reasons, "; "@, k);
        lemma_shown_through(reasons[k], why, shown);
    }
}

proof fn lemma_shown_through(part: Seq<char>, inner: Seq<char>, whole: Seq<char>)
    requires
        text::stands_in(part, inner),
        text::stands_in(inner, whole),
    ensures
        text::stands_in(part, whole),
{
    let i = choose|i: int|
        0 <= i && i + inner.len() <= whole.len() && #[trigger] whole.subrange(i, i + inner.len())
            == inner;
    text::lemma_stands_in_more(
        part,
        inner,
        whole.take(i),
        whole.skip(i + inner.len()),
    );
    assert(whole.take(i) + inner + whole.skip(i + inner.len()) =~= whole);
}

/// An agent is told that a message was delivered exactly when the gateway
/// pushed it.
pub proof fn a_delivery_is_told_from_a_queue(value: Json, r: String, tool: &str)
    requires
        tool@ == "kintri_message"@,
        call_ensures(render, (tool, &value), r),
    ensures
        value@.field("pushed"@) == Some(JsonView::Bool(true)) <==> r@ == "Delivered."@,
{
    lemma_tool_names();
    reveal_strlit("Delivered.");
    reveal_strlit("Queued; their agent will see it when it next checks.");
    assert("Delivered."@[0] != "Queued; their agent will see it when it next checks."@[0]);
}

// ---------------------------------------------------------------------------
// What is offered is what can be asked for
// ---------------------------------------------------------------------------

/// What a tool in the list of tools is called.
pub open spec fn offered_name(tools: JsonView, i: int) -> JsonView {
    tools.items()[i].at("name"@)
}

/// Whether a tool in the list of tools says that it takes an argument.
pub open spec fn offers(tools: JsonView, i: int, key: Seq<char>) -> bool {
    tools.items()[i].at("inputSchema"@).at("properties"@).field(key) is Some
}

/// Whether a tool in the list of tools insists on an argument.
pub open spec fn insists(tools: JsonView, i: int, key: Seq<char>) -> bool {
    tools.items()[i].at("inputSchema"@).at("required"@).items().contains(JsonView::Text(key))
}

proof fn lemma_offered()
    ensures
        ({
            let tools = tools_json();
            &&& tools.items().len() == 4
            &&& tools.items()[0] == remember_json()
            &&& tools.items()[1] == search_json()
            &&& tools.items()[2] == message_json()
            &&& tools.items()[3] == inbox_json()
        }),
{
}

proof fn lemma_properties(
    name: Seq<char>,
    description: Seq<char>,
    properties: JsonView,
    required: Option<JsonView>,
)
    requires
        properties is Object,
    ensures
        ({
            let schema = match required {
                Some(list) => schema_json(properties).entry("required"@, list),
                None => schema_json(properties),
            };
            let tool = tool_json(name, description, schema);
            &&& tool.at("name"@) == JsonView::Text(name)
            &&& tool.at("description"@) == JsonView::Text(description)
            &&& tool.at("inputSchema"@).at("properties"@) == properties
            &&& tool.at("inputSchema"@).at("type"@) == JsonView::Text("object"@)
            &&& required is Some ==> tool.at("inputSchema"@).at("required"@) == required->0
        }),
{
    broadcast use json::lemma_field_of_entry;

    reveal_strlit("name");
    reveal_strlit("description");
    reveal_strlit("inputSchema");
    reveal_strlit("type");
    reveal_strlit("properties");
    reveal_strlit("required");
    assert("name"@.len() == 4);
    assert("description"@.len() == 11);
    assert("inputSchema"@.len() == 11);
    assert("type"@.len() == 4);
    assert("properties"@.len() == 10);
    assert("required"@.len() == 8);
    assert("name"@[0] != "type"@[0]);
    assert("description"@[0] != "inputSchema"@[0]);
}

/// The agent is offered four tools, each under the name by which it is called.
pub proof fn four_tools_are_offered(r: Json)
    requires
        call_ensures(tools, (), r),
    ensures
        r@.items().len() == 4,
        offered_name(r@, 0) == JsonView::Text("kintri_remember"@),
        offered_name(r@, 1) == JsonView::Text("kintri_search"@),
        offered_name(r@, 2) == JsonView::Text("kintri_message"@),
        offered_name(r@, 3) == JsonView::Text("kintri_inbox"@),
{
    lemma_remember_offers();
    lemma_search_offers();
    lemma_message_offers();
    lemma_inbox_offers();
}

proof fn lemma_remember_offers()
    ensures
        offered_name(tools_json(), 0) == JsonView::Text(REMEMBER@),
        forall|key: Seq<char>| #[trigger]
            offers(tools_json(), 0, key) <==> key == "type"@ || key == "content"@ || key
                == "files"@ || key == "technologies"@ || key == "project"@ || key
                == "repository"@,
        insists(tools_json(), 0, "type"@),
        insists(tools_json(), 0, "content"@),
        tools_json().items()[0].at("inputSchema"@).at("properties"@).at("type"@).at("enum"@)
            == kinds_json(),
{
    broadcast use json::lemma_field_of_entry;

    lemma_offered();
    let required = JsonView::array().item(JsonView::Text("type"@)).item(
        JsonView::Text("content"@),
    );
    let kind = typed_json("string"@).entry("enum"@, kinds_json()).entry(
        "description"@,
        JsonView::Text(TYPE_DESCRIPTION@),
    );
    let properties = JsonView::object().entry("type"@, kind).entry(
        "content"@,
        described_json("string"@, "One or two sentences."@),
    ).entry("files"@, described_texts_json(FILES_DESCRIPTION@)).entry(
        "technologies"@,
        texts_json(),
    ).entry("project"@, typed_json("string"@)).entry(
        "repository"@,
        described_json("string"@, "owner/name"@),
    );
    lemma_properties(REMEMBER@, REMEMBER_DESCRIPTION@, properties, Some(required));
    assert(required.items()[0] == JsonView::Text("type"@));
    assert(required.items()[1] == JsonView::Text("content"@));
    reveal_strlit("type");
    reveal_strlit("enum");
    reveal_strlit("description");
    reveal_strlit("content");
    reveal_strlit("files");
    reveal_strlit("technologies");
    reveal_strlit("project");
    reveal_strlit("repository");
    assert("type"@.len() == 4);
    assert("enum"@.len() == 4);
    assert("description"@.len() == 11);
    assert("content"@.len() == 7);
    assert("files"@.len() == 5);
    assert("technologies"@.len() == 12);
    assert("project"@.len() == 7);
    assert("repository"@.len() == 10);
    assert("type"@[0] != "enum"@[0]);
    assert("content"@[0] != "project"@[0]);
    assert(properties.at("type"@) == kind);
    assert(kind.at("enum"@) == kinds_json());
}

proof fn lemma_search_offers()
    ensures
        offered_name(tools_json(), 1) == JsonView::Text(SEARCH@),
        forall|key: Seq<char>| #[trigger]
            offers(tools_json(), 1, key) <==> key == "query"@ || key == "files"@ || key
                == "technologies"@ || key == "project"@ || key == "repository"@ || key
                == "limit"@,
{
    broadcast use json::lemma_field_of_entry;

    lemma_offered();
    let properties = JsonView::object().entry(
        "query"@,
        described_json("string"@, "What you want to know."@),
    ).entry("files"@, described_texts_json("Files you are working on."@)).entry(
        "technologies"@,
        texts_json(),
    ).entry("project"@, typed_json("string"@)).entry(
        "repository"@,
        described_json("string"@, "owner/name"@),
    ).entry("limit"@, typed_json("integer"@));
    lemma_properties(SEARCH@, SEARCH_DESCRIPTION@, properties, None);
}

proof fn lemma_message_offers()
    ensures
        offered_name(tools_json(), 2) == JsonView::Text(MESSAGE@),
        forall|key: Seq<char>| #[trigger]
            offers(tools_json(), 2, key) <==> key == "target_session_id"@ || key == "content"@,
        insists(tools_json(), 2, "target_session_id"@),
        insists(tools_json(), 2, "content"@),
{
    broadcast use json::lemma_field_of_entry;

    lemma_offered();
    let properties = JsonView::object().entry(
        "target_session_id"@,
        described_json("string"@, "The session to reach."@),
    ).entry("content"@, typed_json("string"@));
    let required = JsonView::array().item(JsonView::Text("target_session_id"@)).item(
        JsonView::Text("content"@),
    );
    lemma_properties(MESSAGE@, MESSAGE_DESCRIPTION@, properties, Some(required));
    assert(required.items()[0] == JsonView::Text("target_session_id"@));
    assert(required.items()[1] == JsonView::Text("content"@));
}

proof fn lemma_inbox_offers()
    ensures
        offered_name(tools_json(), 3) == JsonView::Text(INBOX@),
        forall|key: Seq<char>| #[trigger] offers(tools_json(), 3, key) <==> key == "limit"@,
{
    broadcast use json::lemma_field_of_entry;

    lemma_offered();
    let properties = JsonView::object().entry("limit"@, typed_json("integer"@));
    lemma_properties(INBOX@, INBOX_DESCRIPTION@, properties, None);
}

/// Every tool that is offered can be called, and a call of one asks the daemon;
/// whatever else is called asks for nothing.
pub proof fn what_is_offered_can_be_called(
    offered: Json,
    params: Json,
    cwd: Option<String>,
    r: Handled,
    name: Seq<char>,
)
    requires
        call_ensures(tools, (), offered),
        call_ensures(call_tool, (&params, cwd), r),
        params@.field("name"@) == Some(JsonView::Text(name)),
    ensures
        r is Ask <==> exists|i: int|
            0 <= i < offered@.items().len() && #[trigger] offered_name(offered@, i)
                == JsonView::Text(name),
        r is Ask ==> r->tool@ == name,
{
    four_tools_are_offered(offered);
    if r is Ask {
        let i: int = if name == REMEMBER@ {
            0
        } else if name == SEARCH@ {
            1
        } else if name == MESSAGE@ {
            2
        } else {
            3
        };
        assert(offered_name(offered@, i) == JsonView::Text(name));
    }
}

/// A tool reads the arguments that it offers and no others: two calls that
/// agree in those are two calls for the same.
pub proof fn what_is_not_offered_does_not_count(
    offered: Json,
    i: int,
    a: Json,
    b: Json,
    name: Seq<char>,
    cwd: Option<String>,
    x: Handled,
    y: Handled,
)
    requires
        call_ensures(tools, (), offered),
        0 <= i < offered@.items().len(),
        offered_name(offered@, i) == JsonView::Text(name),
        a@.field("name"@) == Some(JsonView::Text(name)),
        b@.field("name"@) == Some(JsonView::Text(name)),
        forall|key: Seq<char>| #[trigger]
            offers(offered@, i, key) ==> a@.at("arguments"@).field(key) == b@.at(
                "arguments"@,
            ).field(key),
        call_ensures(call_tool, (&a, cwd), x),
        call_ensures(call_tool, (&b, cwd), y),
    ensures
        x@ == y@,
{
    lemma_tool_names();
    lemma_offered();
    lemma_remember_offers();
    lemma_search_offers();
    lemma_message_offers();
    lemma_inbox_offers();
    if i == 0 {
        assert(offers(offered@, 0, "type"@));
        assert(offers(offered@, 0, "content"@));
        assert(offers(offered@, 0, "files"@));
        assert(offers(offered@, 0, "technologies"@));
        assert(offers(offered@, 0, "project"@));
        assert(offers(offered@, 0, "repository"@));
    } else if i == 1 {
        assert(offers(offered@, 1, "query"@));
        assert(offers(offered@, 1, "files"@));
        assert(offers(offered@, 1, "technologies"@));
        assert(offers(offered@, 1, "project"@));
        assert(offers(offered@, 1, "repository"@));
        assert(offers(offered@, 1, "limit"@));
    } else if i == 2 {
        assert(offers(offered@, 2, "target_session_id"@));
        assert(offers(offered@, 2, "content"@));
    } else {
        assert(offers(offered@, 3, "limit"@));
    }
}

/// What a tool insists on it also offers: the kind and the content of a memory,
/// the session that a message is for and its content.
pub proof fn what_is_needed_is_said(offered: Json)
    requires
        call_ensures(tools, (), offered),
    ensures
        insists(offered@, 0, "type"@) && offers(offered@, 0, "type"@),
        insists(offered@, 0, "content"@) && offers(offered@, 0, "content"@),
        insists(offered@, 2, "target_session_id"@) && offers(offered@, 2, "target_session_id"@),
        insists(offered@, 2, "content"@) && offers(offered@, 2, "content"@),
{
    lemma_remember_offers();
    lemma_message_offers();
}

/// An agent can publish a memory of every kind, and is told of no kind that
/// there is not.
pub proof fn every_kind_is_offered(offered: Json, word: Seq<char>)
    requires
        call_ensures(tools, (), offered),
    ensures
        ({
            let kinds = offered@.items()[0].at("inputSchema"@).at("properties"@).at("type"@).at(
                "enum"@,
            ).items();
            &&& kinds.contains(JsonView::Text(word)) <==> exists|kind: MemoryType|
                #[trigger] kind.name() == word
            &&& kinds.len() == 7
        }),
{
    lemma_remember_offers();
    let kinds = kinds_json().items();
    assert(kinds =~= seq![
        JsonView::Text(MemoryType::Discovery.name()),
        JsonView::Text(MemoryType::Decision.name()),
        JsonView::Text(MemoryType::Warning.name()),
        JsonView::Text(MemoryType::Convention.name()),
        JsonView::Text(MemoryType::Architecture.name()),
        JsonView::Text(MemoryType::Bug.name()),
        JsonView::Text(MemoryType::Question.name()),
    ]);
    if exists|kind: MemoryType| #[trigger] kind.name() == word {
        let kind = choose|kind: MemoryType| #[trigger] kind.name() == word;
        let i: int = match kind {
            MemoryType::Discovery => 0,
            MemoryType::Decision => 1,
            MemoryType::Warning => 2,
            MemoryType::Convention => 3,
            MemoryType::Architecture => 4,
            MemoryType::Bug => 5,
            MemoryType::Question => 6,
        };
        assert(kinds[i] == JsonView::Text(word));
    }
}

/// A server that is asked what it is says which protocol it speaks, that it has
/// tools, and its own name; one that is asked for its tools lists them all.
pub proof fn a_server_says_what_it_is(
    method: &str,
    params: Json,
    cwd: Option<String>,
    r: Handled,
    offered: Json,
)
    requires
        call_ensures(handle, (method, &params, cwd), r),
        call_ensures(tools, (), offered),
    ensures
        method@ == "initialize"@ ==> r is Result && {
            let said = r->Result_0@;
            &&& said.at("protocolVersion"@) == JsonView::Text("2024-11-05"@)
            &&& said.at("capabilities"@).field("tools"@) is Some
            &&& said.at("serverInfo"@).at("name"@) == JsonView::Text("kintri"@)
            &&& said.at("serverInfo"@).at("version"@) == JsonView::Text(crate::VERSION@)
        },
        method@ == "tools/list"@ ==> r is Result && r->Result_0@.at("tools"@) == offered@,
        method@ != "tools/call"@ ==> r is Result,
{
    broadcast use json::lemma_field_of_entry;

    reveal_strlit("initialize");
    reveal_strlit("tools/list");
    reveal_strlit("tools/call");
    reveal_strlit("protocolVersion");
    reveal_strlit("capabilities");
    reveal_strlit("serverInfo");
    reveal_strlit("name");
    reveal_strlit("version");
    reveal_strlit("tools");
    assert("initialize"@.len() == 10);
    assert("tools/list"@.len() == 10);
    assert("tools/call"@.len() == 10);
    assert("protocolVersion"@.len() == 15);
    assert("capabilities"@.len() == 12);
    assert("serverInfo"@.len() == 10);
    assert("name"@.len() == 4);
    assert("version"@.len() == 7);
    assert("tools"@.len() == 5);
    assert("initialize"@[0] != "tools/list"@[0]);
    assert("initialize"@[0] != "tools/call"@[0]);
    assert("initialize"@[0] != "serverInfo"@[0]);
    assert("tools/list"@[6] != "tools/call"@[6]);
    assert("tools/list"@[0] != "serverInfo"@[0]);
    assert("tools/call"@[0] != "serverInfo"@[0]);
}

/// A tool acts for the directory that its server runs in: a memory, a message
/// and a look at the inbox all come from there.
pub proof fn a_tool_acts_for_its_directory(
    params: Json,
    cwd: Option<String>,
    r: Handled,
    from: Option<String>,
)
    requires
        call_ensures(call_tool, (&params, cwd), r),
        r is Ask,
        call_ensures(daemon::origin_of, (&r->request,), from),
    ensures
        r->tool@ != "kintri_search"@ ==> text::optional(from) == text::optional(cwd),
{
    broadcast use json::lemma_field_of_entry;

    lemma_tool_names();
    reveal_strlit("type");
    reveal_strlit("content");
    reveal_strlit("project");
    reveal_strlit("repository");
    reveal_strlit("files");
    reveal_strlit("technologies");
    reveal_strlit("cwd");
    reveal_strlit("target_session_id");
    assert("type"@.len() == 4);
    assert("content"@.len() == 7);
    assert("project"@.len() == 7);
    assert("repository"@.len() == 10);
    assert("files"@.len() == 5);
    assert("technologies"@.len() == 12);
    assert("cwd"@.len() == 3);
    assert("target_session_id"@.len() == 17);
    assert("content"@[0] != "project"@[0]);
    assert(text::optional(from) == daemon::origin(r->request@));
}

/// An answer says which protocol it is in, and is for the request it answers:
/// it holds what came of the request or else what went wrong, and never both.
pub proof fn an_answer_is_for_its_request(id: JsonView, outcome: Result<Json, Failure>)
    ensures
        ({
            let answer = response_json(id, outcome);
            &&& answer.field("jsonrpc"@) == Some(JsonView::Text("2.0"@))
            &&& answer.field("id"@) == Some(id)
            &&& answer.field("result"@) == match outcome {
                Ok(result) => Some(result@),
                Err(_) => None,
            }
            &&& outcome is Ok ==> answer.field("error"@) is None
            &&& outcome matches Err(e) ==> {
                &&& answer.at("error"@).field("code"@) == Some(JsonView::Negative((-32603) as i64))
                &&& answer.at("error"@).field("message"@) == Some(JsonView::Text(e@.in_full()))
            }
        }),
{
    broadcast use json::lemma_field_of_entry;

    reveal_strlit("jsonrpc");
    reveal_strlit("id");
    reveal_strlit("result");
    reveal_strlit("error");
    reveal_strlit("code");
    reveal_strlit("message");
    assert("jsonrpc"@.len() == 7);
    assert("id"@.len() == 2);
    assert("result"@.len() == 6);
    assert("error"@.len() == 5);
    assert("code"@.len() == 4);
    assert("message"@.len() == 7);
    assert("jsonrpc"@[0] != "message"@[0]);
}

/// What a tool says of an argument.
pub open spec fn argument(tools: JsonView, i: int, key: Seq<char>) -> JsonView {
    tools.items()[i].at("inputSchema"@).at("properties"@).at(key)
}

/// What a tool says of an argument: it is a list of texts.
pub open spec fn a_list_of_texts(argument: JsonView) -> bool {
    argument.at("type"@) == JsonView::Text("array"@) && argument.at("items"@).at("type"@)
        == JsonView::Text("string"@)
}

proof fn lemma_types(description: Seq<char>, kind: Seq<char>, values: JsonView)
    ensures
        typed_json(kind).at("type"@) == JsonView::Text(kind),
        described_json(kind, description).at("type"@) == JsonView::Text(kind),
        a_list_of_texts(texts_json()),
        a_list_of_texts(described_texts_json(description)),
        typed_json(kind).entry("enum"@, values).entry(
            "description"@,
            JsonView::Text(description),
        ).at("type"@) == JsonView::Text(kind),
{
    broadcast use json::lemma_field_of_entry;

    reveal_strlit("type");
    reveal_strlit("description");
    reveal_strlit("items");
    reveal_strlit("enum");
    assert("type"@.len() == 4);
    assert("description"@.len() == 11);
    assert("items"@.len() == 5);
    assert("enum"@.len() == 4);
    assert("type"@[0] != "enum"@[0]);
}

/// Every argument of a tool has a type: files and technologies are lists of
/// texts, a limit is a number, and everything else is a text.
pub proof fn every_argument_has_a_type(offered: Json, i: int, key: Seq<char>)
    requires
        call_ensures(tools, (), offered),
        0 <= i < 4,
        offers(offered@, i, key),
    ensures
        key == "files"@ || key == "technologies"@ ==> a_list_of_texts(
            argument(offered@, i, key),
        ),
        key == "limit"@ ==> argument(offered@, i, key).at("type"@) == JsonView::Text("integer"@),
        key != "files"@ && key != "technologies"@ && key != "limit"@ ==> argument(
            offered@,
            i,
            key,
        ).at("type"@) == JsonView::Text("string"@),
        offered@.items()[i].at("inputSchema"@).at("type"@) == JsonView::Text("object"@),
{
    lemma_offered();
    if i == 0 {
        lemma_remember_types(key);
    } else if i == 1 {
        lemma_search_types(key);
    } else if i == 2 {
        lemma_message_types(key);
    } else {
        lemma_inbox_types(key);
    }
}

/// The type that an argument of that name has.
spec fn of_its_type(argument: JsonView, key: Seq<char>) -> bool {
    &&& key == "files"@ || key == "technologies"@ ==> a_list_of_texts(argument)
    &&& key == "limit"@ ==> argument.at("type"@) == JsonView::Text("integer"@)
    &&& key != "files"@ && key != "technologies"@ && key != "limit"@ ==> argument.at("type"@)
        == JsonView::Text("string"@)
}

proof fn lemma_remember_types(key: Seq<char>)
    requires
        offers(tools_json(), 0, key),
    ensures
        of_its_type(argument(tools_json(), 0, key), key),
        tools_json().items()[0].at("inputSchema"@).at("type"@) == JsonView::Text("object"@),
{
    broadcast use json::lemma_field_of_entry;

    lemma_offered();
    let required = JsonView::array().item(JsonView::Text("type"@)).item(
        JsonView::Text("content"@),
    );
    let properties = JsonView::object().entry(
        "type"@,
        typed_json("string"@).entry("enum"@, kinds_json()).entry(
            "description"@,
            JsonView::Text(TYPE_DESCRIPTION@),
        ),
    ).entry("content"@, described_json("string"@, "One or two sentences."@)).entry(
        "files"@,
        described_texts_json(FILES_DESCRIPTION@),
    ).entry("technologies"@, texts_json()).entry("project"@, typed_json("string"@)).entry(
        "repository"@,
        described_json("string"@, "owner/name"@),
    );
    lemma_properties(REMEMBER@, REMEMBER_DESCRIPTION@, properties, Some(required));
    lemma_types(TYPE_DESCRIPTION@, "string"@, kinds_json());
    lemma_types("One or two sentences."@, "string"@, kinds_json());
    lemma_types(FILES_DESCRIPTION@, "string"@, kinds_json());
    lemma_types("owner/name"@, "string"@, kinds_json());
    reveal_strlit("type");
    reveal_strlit("content");
    reveal_strlit("files");
    reveal_strlit("technologies");
    reveal_strlit("project");
    reveal_strlit("repository");
    reveal_strlit("limit");
    assert("type"@.len() == 4);
    assert("content"@.len() == 7);
    assert("files"@.len() == 5);
    assert("technologies"@.len() == 12);
    assert("project"@.len() == 7);
    assert("repository"@.len() == 10);
    assert("limit"@.len() == 5);
    assert("content"@[0] != "project"@[0]);
    assert("files"@[0] != "limit"@[0]);
}

proof fn lemma_search_types(key: Seq<char>)
    requires
        offers(tools_json(), 1, key),
    ensures
        of_its_type(argument(tools_json(), 1, key), key),
        tools_json().items()[1].at("inputSchema"@).at("type"@) == JsonView::Text("object"@),
{
    broadcast use json::lemma_field_of_entry;

    lemma_offered();
    let properties = JsonView::object().entry(
        "query"@,
        described_json("string"@, "What you want to know."@),
    ).entry("files"@, described_texts_json("Files you are working on."@)).entry(
        "technologies"@,
        texts_json(),
    ).entry("project"@, typed_json("string"@)).entry(
        "repository"@,
        described_json("string"@, "owner/name"@),
    ).entry("limit"@, typed_json("integer"@));
    lemma_properties(SEARCH@, SEARCH_DESCRIPTION@, properties, None);
    lemma_types("What you want to know."@, "string"@, JsonView::Null);
    lemma_types("Files you are working on."@, "string"@, JsonView::Null);
    lemma_types("owner/name"@, "string"@, JsonView::Null);
    lemma_types("owner/name"@, "integer"@, JsonView::Null);
    reveal_strlit("query");
    reveal_strlit("files");
    reveal_strlit("technologies");
    reveal_strlit("project");
    reveal_strlit("repository");
    reveal_strlit("limit");
    assert("query"@.len() == 5);
    assert("files"@.len() == 5);
    assert("technologies"@.len() == 12);
    assert("project"@.len() == 7);
    assert("repository"@.len() == 10);
    assert("limit"@.len() == 5);
    assert("query"@[0] != "files"@[0]);
    assert("query"@[0] != "limit"@[0]);
    assert("files"@[0] != "limit"@[0]);
}

proof fn lemma_message_types(key: Seq<char>)
    requires
        offers(tools_json(), 2, key),
    ensures
        of_its_type(argument(tools_json(), 2, key), key),
        tools_json().items()[2].at("inputSchema"@).at("type"@) == JsonView::Text("object"@),
{
    broadcast use json::lemma_field_of_entry;

    lemma_offered();
    let properties = JsonView::object().entry(
        "target_session_id"@,
        described_json("string"@, "The session to reach."@),
    ).entry("content"@, typed_json("string"@));
    let required = JsonView::array().item(JsonView::Text("target_session_id"@)).item(
        JsonView::Text("content"@),
    );
    lemma_properties(MESSAGE@, MESSAGE_DESCRIPTION@, properties, Some(required));
    lemma_types("The session to reach."@, "string"@, JsonView::Null);
    reveal_strlit("target_session_id");
    reveal_strlit("content");
    reveal_strlit("files");
    reveal_strlit("technologies");
    reveal_strlit("limit");
    assert("target_session_id"@.len() == 17);
    assert("content"@.len() == 7);
    assert("files"@.len() == 5);
    assert("technologies"@.len() == 12);
    assert("limit"@.len() == 5);
    assert("files"@[0] != "limit"@[0]);
}

proof fn lemma_inbox_types(key: Seq<char>)
    requires
        offers(tools_json(), 3, key),
    ensures
        of_its_type(argument(tools_json(), 3, key), key),
        tools_json().items()[3].at("inputSchema"@).at("type"@) == JsonView::Text("object"@),
{
    broadcast use json::lemma_field_of_entry;

    lemma_offered();
    let properties = JsonView::object().entry("limit"@, typed_json("integer"@));
    lemma_properties(INBOX@, INBOX_DESCRIPTION@, properties, None);
    lemma_types("owner/name"@, "integer"@, JsonView::Null);
    reveal_strlit("limit");
    reveal_strlit("files");
    reveal_strlit("technologies");
    assert("limit"@.len() == 5);
    assert("files"@.len() == 5);
    assert("technologies"@.len() == 12);
    assert("limit"@[0] != "files"@[0]);
}

/// An agent is told when there is nothing: that no message waits, that nothing
/// relevant was published, and that what it published is with the team.
pub proof fn nothing_is_an_answer(tool: &str, value: Json, r: String)
    requires
        call_ensures(render, (tool, &value), r),
    ensures
        tool@ == "kintri_inbox"@ && value@.at("messages"@).items().len() == 0 ==> r@
            == "No messages."@,
        tool@ == "kintri_search"@ && value@.at("memories"@).items().len() == 0 ==> r@
            == "Nothing the team has published is relevant to this. That is an answer, not a failure."@,
        tool@ == "kintri_remember"@ ==> r@ == "Published to the team."@,
{
    lemma_tool_names();
}

} // verus!
