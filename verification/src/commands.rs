//! What the commands print, and what they ask of the daemon.
use vstd::prelude::*;
use vstd::string::*;

use crate::credentials::{Credentials, CredentialsView};
use crate::daemon::{InitialSession, Options};
use crate::failure;
use crate::failure::Failure;
use crate::ipc;
use crate::ipc::Request;
use crate::json;
use crate::json::{Json, JsonView};
use crate::path;
use crate::text;
use crate::workspace::Checkout;

verus! {

// ---------------------------------------------------------------------------
// kintri status
// ---------------------------------------------------------------------------

/// The sentence of a machine on which nobody has logged in.
pub const NOT_LOGGED_IN: &'static str = "Not logged in. Run `kintri login`.\n";

/// What is known about a login besides where it is: the workspace, and the
/// gateway when the login is elsewhere.
pub open spec fn login_detail(c: CredentialsView) -> Seq<char> {
    match (c.workspace, c.workspace_url) {
        (Some(w), Some(_)) => "workspace "@ + w + " · gateway "@ + c.gateway_url + "\n"@,
        (Some(w), None) => "workspace "@ + w + "\n"@,
        (None, Some(_)) => "gateway "@ + c.gateway_url + "\n"@,
        (None, None) => Seq::empty(),
    }
}

/// What is printed about a login.
pub open spec fn login_status(c: CredentialsView, fingerprint: Seq<char>) -> Seq<char> {
    "Logged in to "@ + c.home() + " as "@ + fingerprint + "\n"@ + login_detail(c)
}

/// Where a session works: its repository, and its branch when there is one.
pub open spec fn place_of(session: JsonView) -> Seq<char> {
    match session.at("branch"@).as_text() {
        Some(branch) => session.text_or("repository"@, "-"@) + "@"@ + branch,
        None => session.text_or("repository"@, "-"@),
    }
}

/// What is printed about one session.
pub open spec fn session_line(session: JsonView) -> Seq<char> {
    "  "@ + (if session.at("connected"@) == JsonView::Bool(true) {
        "●"@
    } else {
        "○"@
    }) + " "@ + session.text_or("session_id"@, "-"@) + " · "@ + place_of(session) + " · "@
        + session.text_or("cwd"@, "-"@) + "\n"@
}

/// What is printed about sessions.
pub open spec fn session_lines(sessions: Seq<JsonView>) -> Seq<char>
    decreases sessions.len(),
{
    if sessions.len() == 0 {
        Seq::empty()
    } else {
        session_lines(sessions.drop_last()) + session_line(sessions.last())
    }
}

/// How many messages the daemon says wait.
pub open spec fn pending_count(report: JsonView) -> u64 {
    match report.at("pending_messages"@) {
        JsonView::Unsigned(n) => n,
        _ => 0,
    }
}

/// What is printed about the daemon, for what it reported.
pub open spec fn daemon_status(outcome: Result<Json, Failure>) -> Seq<char> {
    match outcome {
        Ok(report) => {
            let sessions = report@.at("sessions"@).items();
            "Daemon: running · "@ + text::decimal(sessions.len()) + " session(s) · "@
                + text::decimal(pending_count(report@) as nat) + " message(s) waiting\n"@
                + session_lines(sessions)
        },
        Err(e) => "Daemon: not running ("@ + e@.summary + ")\n"@,
    }
}

/// What is printed about a login.
pub fn login_status_text(c: &Credentials) -> (r: String)
    ensures
        r@ == login_status(c@, "…"@ + crate::credentials::tail(c@.token)),
{
    let mut out: String = "Logged in to ".to_owned();
    out.append(c.home());
    out.append(" as ");
    out.append(c.fingerprint().as_str());
    out.append("\n");
    let ghost head = out@;
    match (&c.workspace, &c.workspace_url) {
        (Some(w), Some(_)) => {
            out.append("workspace ");
            out.append(w.as_str());
            out.append(" · gateway ");
            out.append(c.gateway_url.as_str());
            out.append("\n");
        },
        (Some(w), None) => {
            out.append("workspace ");
            out.append(w.as_str());
            out.append("\n");
        },
        (None, Some(_)) => {
            out.append("gateway ");
            out.append(c.gateway_url.as_str());
            out.append("\n");
        },
        (None, None) => {},
    }
    assert(out@ =~= head + login_detail(c@));
    out
}

/// What is printed about one session.
fn render_session(session: &Json) -> (r: String)
    ensures
        r@ == session_line(session@),
{
    let up = match session.get("connected") {
        Some(Json::Bool(b)) => *b,
        _ => false,
    };
    let mut out: String = "  ".to_owned();
    if up {
        out.append("●");
    } else {
        out.append("○");
    }
    out.append(" ");
    out.append(session.text_or("session_id", "-"));
    out.append(" · ");
    let mut place: String = session.text_or("repository", "-").to_owned();
    match session.text_at("branch") {
        Some(branch) => {
            place.append("@");
            place.append(branch);
        },
        None => {},
    }
    out.append(place.as_str());
    out.append(" · ");
    out.append(session.text_or("cwd", "-"));
    out.append("\n");
    out
}

/// What is printed about the daemon, for what it reported.
pub fn daemon_status_text(outcome: Result<Json, Failure>) -> (r: String)
    ensures
        r@ == daemon_status(outcome),
{
    match outcome {
        Ok(report) => {
            let sessions = report.items_at("sessions");
            let ghost all = json::views(sessions@);
            let pending: u64 = match report.get("pending_messages") {
                Some(Json::Unsigned(n)) => *n,
                _ => 0,
            };
            let mut out: String = "Daemon: running · ".to_owned();
            out.append(text::number(sessions.len() as u64).as_str());
            out.append(" session(s) · ");
            out.append(text::number(pending).as_str());
            out.append(" message(s) waiting\n");
            let ghost head = out@;
            let mut i: usize = 0;
            assert(out@ =~= head + session_lines(all.take(0)));
            while i < sessions.len()
                invariant
                    i <= sessions@.len(),
                    all == json::views(sessions@),
                    out@ == head + session_lines(all.take(i as int)),
                decreases sessions@.len() - i,
            {
                let ghost next = all.take(i + 1);
                assert(next.drop_last() =~= all.take(i as int));
                assert(next.last() == sessions@[i as int]@);
                out.append(render_session(&sessions[i]).as_str());
                assert(out@ =~= head + session_lines(next));
                i = i + 1;
            }
            assert(all.take(i as int) =~= all);
            out
        },
        Err(e) => {
            let mut out: String = "Daemon: not running (".to_owned();
            out.append(e.summary.as_str());
            out.append(")\n");
            out
        },
    }
}

// ---------------------------------------------------------------------------
// kintri doctor
// ---------------------------------------------------------------------------

/// A text that may be absent, or what stands for it.
pub open spec fn or_else(value: Option<Seq<char>>, otherwise: Seq<char>) -> Seq<char> {
    match value {
        Some(s) => s,
        None => otherwise,
    }
}

/// A text that may be absent, or what stands for it.
fn or<'a>(value: &'a Option<String>, otherwise: &'a str) -> (r: &'a str)
    ensures
        r@ == or_else(text::optional(*value), otherwise@),
{
    match value {
        Some(s) => s.as_str(),
        None => otherwise,
    }
}

/// What is printed about this machine and this checkout.
pub fn doctor_place(config_dir: &str, place: &str, checkout: &Checkout) -> (r: String)
    ensures
        r@ == "Config directory : "@ + config_dir@ + "\nCredentials      : "@ + place@
            + "\nRepository       : "@ + or_else(
            checkout@.repository,
            "(not a git checkout with an origin)"@,
        ) + "\nBranch           : "@ + or_else(checkout@.branch, "-"@) + "\nGit email        : "@
            + or_else(checkout@.email, "(unset - you will not be identified)"@) + "\n"@,
{
    let mut out: String = "Config directory : ".to_owned();
    out.append(config_dir);
    out.append("\nCredentials      : ");
    out.append(place);
    out.append("\nRepository       : ");
    out.append(or(&checkout.repository, "(not a git checkout with an origin)"));
    out.append("\nBranch           : ");
    out.append(or(&checkout.branch, "-"));
    out.append("\nGit email        : ");
    out.append(or(&checkout.email, "(unset - you will not be identified)"));
    out.append("\n");
    out
}

/// What is printed about the workspace of a login.
pub open spec fn workspace_line(c: CredentialsView) -> Seq<char> {
    match (c.workspace_url, c.workspace) {
        (Some(u), Some(w)) => "Workspace        : "@ + w + " ("@ + u + ")\n"@,
        (Some(u), None) => "Workspace        : "@ + u + "\n"@,
        (None, _) => Seq::empty(),
    }
}

/// What is printed about a login.
pub fn doctor_login(credentials: &Option<Credentials>) -> (r: String)
    ensures
        r@ == match *credentials {
            Some(c) => workspace_line(c@) + "Gateway          : "@ + c@.gateway_url + "\n"@,
            None => "Login            : not logged in\n"@,
        },
{
    match credentials {
        None => "Login            : not logged in\n".to_owned(),
        Some(c) => {
            let mut out: String = String::new();
            match (&c.workspace_url, &c.workspace) {
                (Some(u), Some(w)) => {
                    out.append("Workspace        : ");
                    out.append(w.as_str());
                    out.append(" (");
                    out.append(u.as_str());
                    out.append(")\n");
                },
                (Some(u), None) => {
                    out.append("Workspace        : ");
                    out.append(u.as_str());
                    out.append("\n");
                },
                (None, _) => {},
            }
            assert(out@ =~= workspace_line(c@));
            out.append("Gateway          : ");
            out.append(c.gateway_url.as_str());
            out.append("\n");
            out
        },
    }
}

/// What is printed about the gateway, for how many agents it says are online.
pub fn doctor_gateway(outcome: Result<usize, Failure>) -> (r: String)
    ensures
        r@ == match outcome {
            Ok(n) => "Gateway reachable: yes, "@ + text::decimal(n as nat) + " agent(s) online\n"@,
            Err(e) => "Gateway reachable: no ("@ + e@.in_full() + ")\n"@,
        },
{
    match outcome {
        Ok(n) => {
            let mut out: String = "Gateway reachable: yes, ".to_owned();
            out.append(text::number(n as u64).as_str());
            out.append(" agent(s) online\n");
            out
        },
        Err(e) => {
            let mut out: String = "Gateway reachable: no (".to_owned();
            out.append(e.full().as_str());
            out.append(")\n");
            out
        },
    }
}

/// What is printed about the daemon, for what it reported.
pub fn doctor_daemon(outcome: Result<Json, Failure>) -> (r: String)
    ensures
        r@ == match outcome {
            Ok(report) => "Daemon           : running, version "@ + report@.text_or(
                "version"@,
                "?"@,
            ) + "\n"@,
            Err(e) => "Daemon           : "@ + e@.summary + "\n"@,
        },
{
    match outcome {
        Ok(report) => {
            let mut out: String = "Daemon           : running, version ".to_owned();
            out.append(report.text_or("version", "?"));
            out.append("\n");
            out
        },
        Err(e) => {
            let mut out: String = "Daemon           : ".to_owned();
            out.append(e.summary.as_str());
            out.append("\n");
            out
        },
    }
}

// ---------------------------------------------------------------------------
// kintri remember, search, inbox and online
// ---------------------------------------------------------------------------

/// The request that publishes a memory.
pub fn remember_request(
    memory_type: &str,
    content: &str,
    files: &Vec<String>,
    technologies: &Vec<String>,
) -> (r: Request)
    ensures
        r@ == ipc::RequestView::Remember(
            JsonView::object().entry("type"@, JsonView::Text(memory_type@)).entry(
                "content"@,
                JsonView::Text(content@),
            ).entry("files"@, json::text_array(text::texts(files@))).entry(
                "technologies"@,
                json::text_array(text::texts(technologies@)),
            ),
        ),
{
    Request::Remember(
        Json::object().entry("type", Json::text(memory_type)).entry(
            "content",
            Json::text(content),
        ).entry("files", json::array_of(files)).entry("technologies", json::array_of(technologies)),
    )
}

/// What is printed once a memory is published.
pub fn published_text(value: &Json) -> (r: String)
    ensures
        r@ == "Published. "@ + value@.text_or("id"@, ""@) + "\n"@,
{
    let mut out: String = "Published. ".to_owned();
    out.append(value.text_or("id", ""));
    out.append("\n");
    out
}

/// A number that may be absent, as JSON.
pub open spec fn number_or_null(n: Option<usize>) -> JsonView {
    match n {
        Some(n) => JsonView::Unsigned(n as u64),
        None => JsonView::Null,
    }
}

/// The request that searches memories.
pub fn search_request(query: &Option<String>, files: &Vec<String>, limit: Option<usize>) -> (r:
    Request)
    ensures
        r@ == ipc::RequestView::Search(
            JsonView::object().entry("q"@, json::text_or_null(text::optional(*query))).entry(
                "files"@,
                json::text_array(text::texts(files@)),
            ).entry("limit"@, number_or_null(limit)),
        ),
{
    Request::Search(
        Json::object().entry("q", Json::optional(query)).entry("files", json::array_of(files)).entry(
            "limit",
            match limit {
                Some(n) => Json::Unsigned(n as u64),
                None => Json::Null,
            },
        ),
    )
}

/// `s`, with spaces behind it up to `width` characters.
pub open spec fn padded(s: Seq<char>, width: nat) -> Seq<char>
    decreases width - s.len(),
{
    if s.len() < width {
        padded(s.push(' '), width)
    } else {
        s
    }
}

/// A text, with spaces behind it up to `width` characters.
fn pad(s: &str, width: usize) -> (r: String)
    ensures
        r@ == padded(s@, width as nat),
{
    let mut out: String = s.to_owned();
    while out.as_str().unicode_len() < width
        invariant
            padded(out@, width as nat) == padded(s@, width as nat),
        decreases width - out@.len(),
    {
        out.push(' ');
    }
    out
}

/// What is printed about why a memory was returned.
pub open spec fn why_line(memory: JsonView) -> Seq<char> {
    let reasons = json::texts_among(memory.at("relevance"@).at("because"@).items());
    if reasons.len() == 0 {
        Seq::empty()
    } else {
        "         why: "@ + text::joined(reasons, "; "@) + "\n"@
    }
}

/// What is printed about a memory, whose score is already in text.
pub open spec fn memory_lines(memory: JsonView, score: Seq<char>) -> Seq<char> {
    "["@ + score + "] "@ + padded(memory.text_or("type"@, "-"@), 12) + " "@ + memory.text_or(
        "content"@,
        ""@,
    ) + "\n"@ + why_line(memory)
}

/// The score in text of the memory at `i`.
pub open spec fn score_at(scores: Seq<Seq<char>>, i: int) -> Seq<char> {
    if 0 <= i < scores.len() {
        scores[i]
    } else {
        "0.00"@
    }
}

/// What is printed about memories.
pub open spec fn all_memory_lines(memories: Seq<JsonView>, scores: Seq<Seq<char>>) -> Seq<char>
    decreases memories.len(),
{
    if memories.len() == 0 {
        Seq::empty()
    } else {
        all_memory_lines(memories.drop_last(), scores) + memory_lines(
            memories.last(),
            score_at(scores, memories.len() - 1),
        )
    }
}

/// What is printed about one memory.
fn print_memory(memory: &Json, score: &str) -> (r: String)
    ensures
        r@ == memory_lines(memory@, score@),
{
    let mut out: String = "[".to_owned();
    out.append(score);
    out.append("] ");
    out.append(pad(memory.text_or("type", "-"), 12).as_str());
    out.append(" ");
    out.append(memory.text_or("content", ""));
    out.append("\n");
    let ghost head = out@;
    let reasons = json::texts(&memory.at("relevance").items_at("because"));
    assert(text::texts(reasons@).len() == reasons@.len());
    if reasons.len() > 0 {
        out.append("         why: ");
        out.append(text::join(&reasons, "; ").as_str());
        out.append("\n");
    }
    assert(out@ =~= head + why_line(memory@));
    out
}

/// What is printed about what a search found. `scores` are the relevance
/// scores in text, one for each memory.
pub fn print_memories(value: &Json, scores: &Vec<String>) -> (r: String)
    ensures
        ({
            let memories = value@.at("memories"@).items();
            r@ == if memories.len() == 0 {
                "Nothing relevant. That is an answer, not a failure.\n"@
            } else {
                all_memory_lines(memories, text::texts(scores@))
            }
        }),
{
    let memories = value.items_at("memories");
    let ghost all = json::views(memories@);
    let ghost shown = text::texts(scores@);
    if memories.len() == 0 {
        return "Nothing relevant. That is an answer, not a failure.\n".to_owned();
    }
    let mut out: String = String::new();
    let mut i: usize = 0;
    assert(out@ =~= all_memory_lines(all.take(0), shown));
    while i < memories.len()
        invariant
            i <= memories@.len(),
            all == json::views(memories@),
            shown == text::texts(scores@),
            out@ == all_memory_lines(all.take(i as int), shown),
        decreases memories@.len() - i,
    {
        let ghost next = all.take(i + 1);
        assert(next.drop_last() =~= all.take(i as int));
        assert(next.last() == memories@[i as int]@);
        let score: &str = if i < scores.len() {
            assert(shown[i as int] == scores@[i as int]@);
            scores[i].as_str()
        } else {
            "0.00"
        };
        out.append(print_memory(&memories[i], score).as_str());
        i = i + 1;
    }
    assert(all.take(i as int) =~= all);
    out
}

/// What is printed about a message.
pub open spec fn inbox_line(message: JsonView) -> Seq<char> {
    message.text_or("from"@, "another agent"@) + ": "@ + message.text_or("content"@, ""@) + "\n"@
}

/// What is printed about messages.
pub open spec fn inbox_lines(messages: Seq<JsonView>) -> Seq<char>
    decreases messages.len(),
{
    if messages.len() == 0 {
        Seq::empty()
    } else {
        inbox_lines(messages.drop_last()) + inbox_line(messages.last())
    }
}

/// What is printed about an inbox.
pub fn inbox_text(value: &Json) -> (r: String)
    ensures
        ({
            let messages = value@.at("messages"@).items();
            r@ == if messages.len() == 0 {
                "Nothing waiting.\n"@
            } else {
                inbox_lines(messages)
            }
        }),
{
    let messages = value.items_at("messages");
    let ghost all = json::views(messages@);
    if messages.len() == 0 {
        return "Nothing waiting.\n".to_owned();
    }
    let mut out: String = String::new();
    let mut i: usize = 0;
    assert(out@ =~= inbox_lines(all.take(0)));
    while i < messages.len()
        invariant
            i <= messages@.len(),
            all == json::views(messages@),
            out@ == inbox_lines(all.take(i as int)),
        decreases messages@.len() - i,
    {
        let ghost next = all.take(i + 1);
        let ghost before = out@;
        assert(next.drop_last() =~= all.take(i as int));
        assert(next.last() == messages@[i as int]@);
        out.append(messages[i].text_or("from", "another agent"));
        out.append(": ");
        out.append(messages[i].text_or("content", ""));
        out.append("\n");
        assert(out@ =~= before + inbox_line(messages@[i as int]@));
        i = i + 1;
    }
    assert(all.take(i as int) =~= all);
    out
}

/// What is printed about an agent.
pub open spec fn agent_line(agent: JsonView) -> Seq<char> {
    agent.text_or("developer"@, "someone"@) + "  "@ + agent.text_or("repository"@, "-"@) + "  "@
        + agent.text_or("branch"@, "-"@) + "\n"@
}

/// What is printed about agents.
pub open spec fn agent_lines(agents: Seq<JsonView>) -> Seq<char>
    decreases agents.len(),
{
    if agents.len() == 0 {
        Seq::empty()
    } else {
        agent_lines(agents.drop_last()) + agent_line(agents.last())
    }
}

/// What is printed about who is online.
pub fn online_text(value: &Json) -> (r: String)
    ensures
        ({
            let agents = value@.at("agents"@).items();
            r@ == if agents.len() == 0 {
                "Nobody else is working right now.\n"@
            } else {
                agent_lines(agents)
            }
        }),
{
    let agents = value.items_at("agents");
    let ghost all = json::views(agents@);
    if agents.len() == 0 {
        return "Nobody else is working right now.\n".to_owned();
    }
    let mut out: String = String::new();
    let mut i: usize = 0;
    assert(out@ =~= agent_lines(all.take(0)));
    while i < agents.len()
        invariant
            i <= agents@.len(),
            all == json::views(agents@),
            out@ == agent_lines(all.take(i as int)),
        decreases agents@.len() - i,
    {
        let ghost next = all.take(i + 1);
        let ghost before = out@;
        assert(next.drop_last() =~= all.take(i as int));
        assert(next.last() == agents@[i as int]@);
        out.append(agents[i].text_or("developer", "someone"));
        out.append("  ");
        out.append(agents[i].text_or("repository", "-"));
        out.append("  ");
        out.append(agents[i].text_or("branch", "-"));
        out.append("\n");
        assert(out@ =~= before + agent_line(agents@[i as int]@));
        i = i + 1;
    }
    assert(all.take(i as int) =~= all);
    out
}

// ---------------------------------------------------------------------------
// kintri session and kintri daemon
// ---------------------------------------------------------------------------

/// What a coding agent writes to a hook's stdin, as far as this needs it.
#[derive(Debug)]
pub struct HookInput {
    pub session_id: Option<String>,
    pub cwd: Option<String>,
}

/// A text that may be absent, unless it is empty.
pub open spec fn unless_empty(s: Option<Seq<char>>) -> Option<Seq<char>> {
    match s {
        Some(s) => if s.len() > 0 {
            Some(s)
        } else {
            None
        },
        None => None,
    }
}

/// A text that may be absent, unless it is empty.
fn filled(s: Option<String>) -> (r: Option<String>)
    ensures
        text::optional(r) == unless_empty(text::optional(s)),
{
    match s {
        Some(s) => if s.as_str().unicode_len() > 0 {
            Some(s)
        } else {
            None
        },
        None => None,
    }
}

/// The session id and the working directory that a `session` command speaks
/// for. A hook's input names both, which is what makes two windows two
/// sessions. Where it does not, the id that was given stands in, and the
/// current directory.
pub fn hook_identity(session_id: Option<String>, input: Option<HookInput>, current: String) -> (r: (
    Option<String>,
    String,
))
    ensures
        ({
            let (said_id, said_cwd) = match input {
                Some(input) => (
                    unless_empty(text::optional(input.session_id)),
                    unless_empty(text::optional(input.cwd)),
                ),
                None => (None, None),
            };
            &&& text::optional(r.0) == match said_id {
                Some(id) => Some(id),
                None => text::optional(session_id),
            }
            &&& r.1@ == or_else(said_cwd, current@)
        }),
{
    let (said_id, said_cwd) = match input {
        Some(input) => (filled(input.session_id), filled(input.cwd)),
        None => (None, None),
    };
    let id = match said_id {
        Some(id) => Some(id),
        None => session_id,
    };
    let cwd = match said_cwd {
        Some(dir) => dir,
        None => current,
    };
    (id, cwd)
}

/// The id of a session: the one it was given, or one by the parent process,
/// which keeps two shells on one machine apart.
pub open spec fn session_id_of(given: Option<Seq<char>>, parent: u32) -> Seq<char> {
    match given {
        Some(id) => id,
        None => "local-"@ + text::decimal(parent as nat),
    }
}

/// The request that registers a session.
pub fn start_session(session_id: Option<String>, parent: u32, client: String, cwd: String) -> (r:
    Request)
    ensures
        r@ == (ipc::RequestView::Register {
            client_session_id: session_id_of(text::optional(session_id), parent),
            client: client@,
            cwd: cwd@,
        }),
{
    let client_session_id = match session_id {
        Some(id) => id,
        None => {
            let mut id: String = "local-".to_owned();
            id.append(text::number(parent as u64).as_str());
            id
        },
    };
    Request::Register { client_session_id, client, cwd }
}

/// What failed when the daemon did not register a session.
pub const NOT_REGISTERED: &'static str = "register the session with the daemon";

/// The word by which the gateway knows an agent that does not name itself.
pub const DEFAULT_CLIENT: &'static str = "coding-agent";

/// What is said when a session could not be started. A hook must never fail
/// the start of a coding agent.
pub fn not_connected(e: &Failure) -> (r: String)
    ensures
        r@ == "kintri: not connected ("@ + e@.in_full()
            + "). The coding agent continues as normal."@,
{
    let mut out: String = "kintri: not connected (".to_owned();
    out.append(e.full().as_str());
    out.append("). The coding agent continues as normal.");
    out
}

/// A command that has been carried out, as far as it matters for what becomes
/// of whoever ran it.
#[derive(Debug)]
pub enum Ran {
    /// `kintri session start`, which a hook runs.
    SessionStart,
    /// `kintri session end`, which a hook runs. Nothing running is the desired
    /// end state anyway.
    SessionEnd,
    /// `kintri daemon stop`. So it is here.
    DaemonStop,
    /// Any other command.
    Other,
}

/// How the process ends: what it says on stderr, and whether it succeeds.
#[derive(Debug)]
pub struct Exit {
    pub said: Option<String>,
    pub success: bool,
}

/// How the process ends after a command, for what came of it. The start and the
/// end of a session never fail whoever ran them, and nor does stopping the
/// daemon: a gateway that cannot be reached is reported and shrugged off.
pub fn exit_of(command: Ran, outcome: Result<(), Failure>) -> (r: Exit)
    ensures
        r.success == (outcome is Ok || command !is Other),
        text::optional(r.said) == match (outcome, command) {
            (Err(e), Ran::SessionStart) => Some(
                "kintri: not connected ("@ + e@.in_full()
                    + "). The coding agent continues as normal."@,
            ),
            (Err(e), Ran::Other) => Some("kintri: "@ + e@.in_full()),
            _ => None,
        },
{
    match outcome {
        Ok(_) => Exit { said: None, success: true },
        Err(e) => match command {
            Ran::SessionStart => Exit { said: Some(not_connected(&e)), success: true },
            Ran::SessionEnd => Exit { said: None, success: true },
            Ran::DaemonStop => Exit { said: None, success: true },
            Ran::Other => {
                let mut out: String = "kintri: ".to_owned();
                out.append(e.full().as_str());
                Exit { said: Some(out), success: false }
            },
        },
    }
}

/// The ids of the listed sessions that were started from `dir`.
pub open spec fn ids_from(sessions: Seq<JsonView>, dir: Seq<char>) -> Seq<Seq<char>>
    decreases sessions.len(),
{
    if sessions.len() == 0 {
        Seq::empty()
    } else {
        let before = ids_from(sessions.drop_last(), dir);
        match (
            sessions.last().at("cwd"@).as_text(),
            sessions.last().at("client_session_id"@).as_text(),
        ) {
            (Some(cwd), Some(id)) => if path::alike(cwd, dir) {
                before.push(id)
            } else {
                before
            },
            _ => before,
        }
    }
}

/// The sessions to report over when no id was given: every one that the daemon
/// lists as started from `dir`, which has its symbolic links resolved.
pub fn end_session(report: &Json, dir: &str) -> (r: Vec<String>)
    ensures
        text::texts(r@) == ids_from(report@.at("sessions"@).items(), dir@),
{
    let sessions = report.items_at("sessions");
    let ghost all = json::views(sessions@);
    let mut out: Vec<String> = Vec::new();
    let mut i: usize = 0;
    assert(text::texts(out@) =~= ids_from(all.take(0), dir@));
    while i < sessions.len()
        invariant
            i <= sessions@.len(),
            all == json::views(sessions@),
            text::texts(out@) == ids_from(all.take(i as int), dir@),
        decreases sessions@.len() - i,
    {
        let ghost next = all.take(i + 1);
        let ghost before = out@;
        assert(next.drop_last() =~= all.take(i as int));
        assert(next.last() == sessions@[i as int]@);
        match (sessions[i].text_at("cwd"), sessions[i].text_at("client_session_id")) {
            (Some(cwd), Some(id)) => {
                if path::same_place(cwd, dir) {
                    out.push(id.to_owned());
                    assert(text::texts(out@) =~= text::texts(before).push(id@));
                }
            },
            _ => {},
        }
        i = i + 1;
    }
    assert(all.take(i as int) =~= all);
    out
}

/// What a daemon is told that is started by hand. With a session id it
/// registers that session at once; one started for a hook begins empty.
pub fn daemon_options(
    config_dir: &str,
    session_id: Option<String>,
    client: String,
    cwd: String,
    github_login: Option<String>,
    display_name: Option<String>,
) -> (r: Options)
    ensures
        r.config_dir@ == config_dir@,
        match session_id {
            Some(id) => r.initial == Some(InitialSession { client_session_id: id, client, cwd }),
            None => r.initial is None,
        },
        r.github_login == github_login,
        r.display_name == display_name,
{
    Options {
        config_dir: config_dir.to_owned(),
        initial: match session_id {
            Some(id) => Some(InitialSession { client_session_id: id, client, cwd }),
            None => None,
        },
        github_login,
        display_name,
    }
}

/// How often a daemon that was started is asked whether it answers.
pub const START_TRIES: u32 = 20;

/// How long to wait between two of those, in milliseconds.
pub const START_PAUSE_MS: u64 = 100;

/// Whether to go on waiting for a daemon to come up.
#[derive(Debug)]
pub enum Startup {
    /// It answers.
    Up,
    /// Wait, and ask again.
    Wait,
    /// It did not come up.
    GiveUp(Failure),
}

/// Whether to go on waiting for a daemon that was asked `tries` times since it
/// was started, the last time with this outcome.
pub fn ensure_daemon(tries: u32, answers: bool) -> (r: Startup)
    ensures
        r is Up <==> answers,
        r is Wait <==> !answers && tries < START_TRIES,
        r matches Startup::GiveUp(e) ==> e@ == failure::plain(
            "the daemon did not come up within two seconds"@,
        ),
{
    if answers {
        Startup::Up
    } else if tries < START_TRIES {
        Startup::Wait
    } else {
        Startup::GiveUp(Failure::new("the daemon did not come up within two seconds"))
    }
}

// ---------------------------------------------------------------------------
// What is typed is what is asked
// ---------------------------------------------------------------------------

/// A memory is published as it was typed: its kind, its content, every file and
/// every technology.
pub proof fn a_memory_is_published_as_it_was_typed(
    memory_type: &str,
    content: &str,
    files: Vec<String>,
    technologies: Vec<String>,
    r: Request,
)
    requires
        call_ensures(remember_request, (memory_type, content, &files, &technologies), r),
    ensures
        r@ matches ipc::RequestView::Remember(body) && {
            &&& body.field("type"@) == Some(JsonView::Text(memory_type@))
            &&& body.field("content"@) == Some(JsonView::Text(content@))
            &&& body.at("files"@) is Array
            &&& json::texts_among(body.at("files"@).items()) == text::texts(files@)
            &&& body.at("files"@).items().len() == files@.len()
            &&& body.at("technologies"@) is Array
            &&& json::texts_among(body.at("technologies"@).items()) == text::texts(technologies@)
            &&& body.at("technologies"@).items().len() == technologies@.len()
            &&& forall|name: Seq<char>|
                name != "type"@ && name != "content"@ && name != "files"@ && name
                    != "technologies"@ ==> (#[trigger] body.field(name)) is None
        },
{
    broadcast use json::lemma_field_of_entry;

    reveal_strlit("type");
    reveal_strlit("content");
    reveal_strlit("files");
    reveal_strlit("technologies");
    assert("type"@.len() == 4);
    assert("content"@.len() == 7);
    assert("files"@.len() == 5);
    assert("technologies"@.len() == 12);
    json::lemma_texts_among(text::texts(files@));
    json::lemma_texts_among(text::texts(technologies@));
}

/// A search asks for what was typed: the words, every file, and how many.
pub proof fn a_search_asks_for_what_was_typed(
    query: Option<String>,
    files: Vec<String>,
    limit: Option<usize>,
    r: Request,
)
    requires
        call_ensures(search_request, (&query, &files, limit), r),
    ensures
        r@ matches ipc::RequestView::Search(body) && {
            &&& query is Some ==> body.field("q"@) == Some(JsonView::Text(query->0@))
            &&& query is None ==> body.at("q"@) is Null
            &&& body.at("files"@) is Array
            &&& json::texts_among(body.at("files"@).items()) == text::texts(files@)
            &&& limit is Some ==> body.field("limit"@) == Some(JsonView::Unsigned(limit->0 as u64))
            &&& limit is None ==> body.at("limit"@) is Null
            &&& forall|name: Seq<char>|
                name != "q"@ && name != "files"@ && name != "limit"@ ==> (
                #[trigger] body.field(name)) is None
        },
{
    broadcast use json::lemma_field_of_entry;

    reveal_strlit("q");
    reveal_strlit("files");
    reveal_strlit("limit");
    assert("q"@.len() == 1);
    assert("files"@.len() == 5);
    assert("limit"@.len() == 5);
    assert("files"@[0] != "limit"@[0]);
    json::lemma_texts_among(text::texts(files@));
}

/// A session is registered under the id that it has, from where it is; without
/// an id, two parent processes are two sessions.
pub proof fn a_session_is_registered_as_it_is(
    id: Option<String>,
    parent: u32,
    client: String,
    cwd: String,
    r: Request,
    other_parent: u32,
    other: Request,
)
    requires
        call_ensures(start_session, (id, parent, client, cwd), r),
        call_ensures(start_session, (id, other_parent, client, cwd), other),
    ensures
        r@ matches ipc::RequestView::Register { client_session_id, client: agent, cwd: dir } && {
            &&& agent == client@
            &&& dir == cwd@
            &&& id is Some ==> client_session_id == id->0@
        },
        id is None ==> (r@ == other@ <==> parent == other_parent),
        id is Some ==> r@ == other@,
{
    assert(r@->Register_client_session_id == session_id_of(text::optional(id), parent));
    assert(other@->Register_client_session_id == session_id_of(text::optional(id), other_parent));
    if id is None && r@ == other@ {
        let (a, b) = (text::decimal(parent as nat), text::decimal(other_parent as nat));
        let n = "local-"@.len() as int;
        assert(("local-"@ + a).skip(n) =~= a);
        assert(("local-"@ + b).skip(n) =~= b);
        text::a_number_is_read_back(parent as nat);
        text::a_number_is_read_back(other_parent as nat);
    }
}

/// A hook speaks for the session and the directory that its input names, and
/// otherwise for what was given and for where it runs.
pub proof fn a_hook_speaks_for_its_session(
    given: Option<String>,
    input: Option<HookInput>,
    current: String,
    r: (Option<String>, String),
)
    requires
        call_ensures(hook_identity, (given, input, current), r),
    ensures
        input is Some && input->0.session_id is Some && input->0.session_id->0@.len() > 0
            ==> r.0 is Some && r.0->0@ == input->0.session_id->0@,
        input is None || input->0.session_id is None || input->0.session_id->0@.len() == 0
            ==> text::optional(r.0) == text::optional(given),
        input is Some && input->0.cwd is Some && input->0.cwd->0@.len() > 0 ==> r.1@
            == input->0.cwd->0@,
        input is None || input->0.cwd is None || input->0.cwd->0@.len() == 0 ==> r.1@ == current@,
{
}

/// A session of that id is listed as started from `dir`.
pub open spec fn listed_from(sessions: Seq<JsonView>, dir: Seq<char>, id: Seq<char>) -> bool {
    exists|j: int|
        0 <= j < sessions.len() && is_listed(#[trigger] sessions[j], dir, id)
}

/// What is listed is a session of that id, started from `dir`.
pub open spec fn is_listed(session: JsonView, dir: Seq<char>, id: Seq<char>) -> bool {
    &&& session.at("client_session_id"@) == JsonView::Text(id)
    &&& session.at("cwd"@) is Text
    &&& path::alike(session.at("cwd"@)->Text_0, dir)
}

/// The sessions that end without an id are those that were started from the
/// directory, and no other.
pub proof fn the_sessions_of_a_directory_end(
    report: Json,
    dir: &str,
    r: Vec<String>,
    id: Seq<char>,
)
    requires
        call_ensures(end_session, (&report, dir), r),
    ensures
        text::texts(r@).contains(id) <==> listed_from(report@.at("sessions"@).items(), dir@, id),
{
    lemma_ids_from(report@.at("sessions"@).items(), dir@, id);
}

proof fn lemma_ids_from(sessions: Seq<JsonView>, dir: Seq<char>, id: Seq<char>)
    ensures
        ids_from(sessions, dir).contains(id) <==> listed_from(sessions, dir, id),
    decreases sessions.len(),
{
    let ids = ids_from(sessions, dir);
    if sessions.len() > 0 {
        let rest = sessions.drop_last();
        let before = ids_from(rest, dir);
        let last = sessions.last();
        let n = sessions.len() - 1;
        lemma_ids_from(rest, dir, id);
        if listed_from(sessions, dir, id) {
            let j = choose|j: int|
                0 <= j < sessions.len() && is_listed(#[trigger] sessions[j], dir, id);
            if j < n {
                assert(rest[j] == sessions[j]);
                let k = choose|k: int| 0 <= k < before.len() && before[k] == id;
                assert(ids[k] == id);
            } else {
                assert(ids == before.push(id));
                assert(ids[before.len() as int] == id);
            }
        }
        if ids.contains(id) {
            let k = choose|k: int| 0 <= k < ids.len() && ids[k] == id;
            if k < before.len() {
                assert(before[k] == id);
                let j = choose|j: int|
                    0 <= j < rest.len() && is_listed(#[trigger] rest[j], dir, id);
                assert(sessions[j] == rest[j]);
            } else {
                assert(is_listed(sessions[n], dir, id));
            }
        }
    }
}

/// A daemon is started with what it was told.
pub proof fn a_daemon_is_told_what_was_typed(
    config_dir: &str,
    session_id: Option<String>,
    client: String,
    cwd: String,
    github_login: Option<String>,
    display_name: Option<String>,
    r: Options,
)
    requires
        call_ensures(
            daemon_options,
            (config_dir, session_id, client, cwd, github_login, display_name),
            r,
        ),
    ensures
        r.config_dir@ == config_dir@,
        r.initial is Some <==> session_id is Some,
        r.initial is Some ==> r.initial->0.client_session_id@ == session_id->0@
            && r.initial->0.client@ == client@ && r.initial->0.cwd@ == cwd@,
        r.github_login == github_login,
        r.display_name == display_name,
{
}

/// The start and the end of a session, and stopping the daemon, never fail
/// whoever ran them; any other command fails exactly when it failed. What went
/// wrong is said in full where it is said.
pub proof fn a_hook_never_fails(command: Ran, outcome: Result<(), Failure>, r: Exit)
    requires
        call_ensures(exit_of, (command, outcome), r),
    ensures
        command is SessionStart || command is SessionEnd || command is DaemonStop ==> r.success,
        command is Other ==> (r.success <==> outcome is Ok),
        outcome is Ok ==> r.said is None,
        outcome is Err && (command is Other || command is SessionStart) ==> r.said is Some
            && text::stands_in(outcome->Err_0@.in_full(), r.said->0@),
        command is SessionEnd || command is DaemonStop ==> r.said is None,
{
    assert(text::optional(r.said) == if r.said is Some {
        Some(r.said->0@)
    } else {
        None
    });
    match (outcome, command) {
        (Err(e), Ran::SessionStart) => {
            text::lemma_stands_in(
                "kintri: not connected ("@,
                e@.in_full(),
                "). The coding agent continues as normal."@,
            );
        },
        (Err(e), Ran::Other) => {
            let nothing = Seq::<char>::empty();
            text::lemma_stands_in("kintri: "@, e@.in_full(), nothing);
            assert("kintri: "@ + e@.in_full() + nothing =~= "kintri: "@ + e@.in_full());
        },
        _ => {},
    }
}

// ---------------------------------------------------------------------------
// What is known is what is printed
// ---------------------------------------------------------------------------

proof fn lemma_inbox_lines(messages: Seq<JsonView>, more: Seq<JsonView>, i: int)
    ensures
        inbox_lines(messages + more) == inbox_lines(messages) + inbox_lines(more),
        0 <= i < more.len() ==> text::stands_in(inbox_line(more[i]), inbox_lines(more)),
    decreases more.len(),
{
    let nothing = Seq::<char>::empty();
    let all = messages + more;
    if more.len() == 0 {
        assert(all =~= messages);
        assert(inbox_lines(messages) + nothing =~= inbox_lines(messages));
    } else {
        let rest = more.drop_last();
        lemma_inbox_lines(messages, rest, i);
        assert(all.drop_last() =~= messages + rest);
        assert(all.last() == more.last());
        let before = inbox_lines(rest);
        let line = inbox_line(more.last());
        assert(inbox_lines(messages) + before + line =~= inbox_lines(messages) + (before + line));
        if i == more.len() - 1 {
            text::lemma_stands_in(before, line, nothing);
            assert(before + line + nothing =~= before + line);
        } else if 0 <= i < rest.len() {
            assert(rest[i] == more[i]);
            text::lemma_stands_in_more(inbox_line(more[i]), before, nothing, line);
            assert(nothing + before + line =~= before + line);
        }
    }
}

/// Every message of an inbox is printed, with who sent it.
#[verifier::spinoff_prover]
pub proof fn every_message_is_printed(value: Json, r: String, i: int)
    requires
        call_ensures(inbox_text, (&value,), r),
        0 <= i < value@.at("messages"@).items().len(),
    ensures
        ({
            let message = value@.at("messages"@).items()[i];
            let sender = match message.field("from"@) {
                Some(JsonView::Text(name)) => name,
                _ => "another agent"@,
            };
            let said = match message.field("content"@) {
                Some(JsonView::Text(content)) => content,
                _ => Seq::empty(),
            };
            text::stands_in(sender + ": "@ + said + "\n"@, r@)
        }),
{
    reveal_strlit("");
    assert(""@ =~= Seq::empty());
    lemma_inbox_lines(Seq::empty(), value@.at("messages"@).items(), i);
}

/// Messages are printed in their order, those of one list behind those of the
/// other.
pub proof fn messages_are_printed_in_their_order(
    first: Json,
    second: Json,
    both: Json,
    a: String,
    b: String,
    r: String,
)
    requires
        call_ensures(inbox_text, (&first,), a),
        call_ensures(inbox_text, (&second,), b),
        call_ensures(inbox_text, (&both,), r),
        first@.at("messages"@).items().len() > 0,
        second@.at("messages"@).items().len() > 0,
        both@.at("messages"@).items() == first@.at("messages"@).items() + second@.at(
            "messages"@,
        ).items(),
    ensures
        r@ == a@ + b@,
{
    lemma_inbox_lines(first@.at("messages"@).items(), second@.at("messages"@).items(), 0);
}

proof fn lemma_agent_lines(agents: Seq<JsonView>, more: Seq<JsonView>, i: int)
    ensures
        agent_lines(agents + more) == agent_lines(agents) + agent_lines(more),
        0 <= i < more.len() ==> text::stands_in(agent_line(more[i]), agent_lines(more)),
    decreases more.len(),
{
    let nothing = Seq::<char>::empty();
    let all = agents + more;
    if more.len() == 0 {
        assert(all =~= agents);
        assert(agent_lines(agents) + nothing =~= agent_lines(agents));
    } else {
        let rest = more.drop_last();
        lemma_agent_lines(agents, rest, i);
        assert(all.drop_last() =~= agents + rest);
        assert(all.last() == more.last());
        let before = agent_lines(rest);
        let line = agent_line(more.last());
        assert(agent_lines(agents) + before + line =~= agent_lines(agents) + (before + line));
        if i == more.len() - 1 {
            text::lemma_stands_in(before, line, nothing);
            assert(before + line + nothing =~= before + line);
        } else if 0 <= i < rest.len() {
            assert(rest[i] == more[i]);
            text::lemma_stands_in_more(agent_line(more[i]), before, nothing, line);
            assert(nothing + before + line =~= before + line);
        }
    }
}

/// What is shown of a value under a name: the text that it holds there, or else
/// what stands for it.
pub open spec fn shown_as(value: JsonView, key: Seq<char>, otherwise: Seq<char>) -> Seq<char> {
    match value.field(key) {
        Some(JsonView::Text(s)) => s,
        _ => otherwise,
    }
}

/// Every agent that is online is printed, with where it works.
#[verifier::spinoff_prover]
pub proof fn every_agent_is_printed(value: Json, r: String, i: int)
    requires
        call_ensures(online_text, (&value,), r),
        0 <= i < value@.at("agents"@).items().len(),
    ensures
        ({
            let agent = value@.at("agents"@).items()[i];
            text::stands_in(
                shown_as(agent, "developer"@, "someone"@) + "  "@ + shown_as(
                    agent,
                    "repository"@,
                    "-"@,
                ) + "  "@ + shown_as(agent, "branch"@, "-"@) + "\n"@,
                r@,
            )
        }),
{
    lemma_agent_lines(Seq::empty(), value@.at("agents"@).items(), i);
}

/// Agents are printed in their order, those of one list behind those of the
/// other.
pub proof fn agents_are_printed_in_their_order(
    first: Json,
    second: Json,
    both: Json,
    a: String,
    b: String,
    r: String,
)
    requires
        call_ensures(online_text, (&first,), a),
        call_ensures(online_text, (&second,), b),
        call_ensures(online_text, (&both,), r),
        first@.at("agents"@).items().len() > 0,
        second@.at("agents"@).items().len() > 0,
        both@.at("agents"@).items() == first@.at("agents"@).items() + second@.at("agents"@).items(),
    ensures
        r@ == a@ + b@,
{
    lemma_agent_lines(first@.at("agents"@).items(), second@.at("agents"@).items(), 0);
}

proof fn lemma_memory_printed(memories: Seq<JsonView>, scores: Seq<Seq<char>>, i: int)
    requires
        0 <= i < memories.len(),
    ensures
        text::stands_in(
            memory_lines(memories[i], score_at(scores, i)),
            all_memory_lines(memories, scores),
        ),
    decreases memories.len(),
{
    let nothing = Seq::<char>::empty();
    let rest = memories.drop_last();
    let before = all_memory_lines(rest, scores);
    let line = memory_lines(memories.last(), score_at(scores, memories.len() - 1));
    if i == memories.len() - 1 {
        text::lemma_stands_in(before, line, nothing);
        assert(before + line + nothing =~= before + line);
    } else {
        lemma_memory_printed(rest, scores, i);
        assert(rest[i] == memories[i]);
        text::lemma_stands_in_more(
            memory_lines(memories[i], score_at(scores, i)),
            before,
            nothing,
            line,
        );
        assert(nothing + before + line =~= before + line);
    }
}

proof fn lemma_padded(s: Seq<char>, width: nat)
    ensures
        text::has_prefix(padded(s, width), s),
        padded(s, width).len() >= width,
        forall|i: int| s.len() <= i < padded(s, width).len() ==> padded(s, width)[i] == ' ',
        s.len() >= width ==> padded(s, width) == s,
    decreases width - s.len(),
{
    if s.len() < width {
        lemma_padded(s.push(' '), width);
        let r = padded(s, width);
        let t = s.push(' ');
        assert(r.take(t.len() as int) == t);
        assert(r.take(s.len() as int) =~= s) by {
            assert forall|i: int| 0 <= i < s.len() implies r[i] == s[i] by {
                assert(r.take(t.len() as int)[i] == t[i]);
            }
        }
        assert forall|i: int| s.len() <= i < r.len() implies r[i] == ' ' by {
            if i == s.len() {
                assert(r.take(t.len() as int)[i] == t[i]);
            }
        }
    } else {
        assert(s.take(s.len() as int) =~= s);
    }
}

/// Everything that a search found is printed: how relevant it is, of which kind,
/// what it says, and why it was found.
#[verifier::spinoff_prover]
pub proof fn every_memory_is_printed(value: Json, scores: Vec<String>, r: String, i: int)
    requires
        call_ensures(print_memories, (&value, &scores), r),
        0 <= i < value@.at("memories"@).items().len(),
    ensures
        ({
            let memory = value@.at("memories"@).items()[i];
            let reasons = json::texts_among(memory.at("relevance"@).at("because"@).items());
            &&& memory.at("content"@) is Text ==> text::stands_in(
                " "@ + memory.at("content"@)->Text_0 + "\n"@,
                r@,
            )
            &&& text::stands_in(
                "["@ + (if i < scores@.len() {
                    scores@[i]@
                } else {
                    "0.00"@
                }) + "] "@ + shown_as(memory, "type"@, "-"@),
                r@,
            )
            &&& forall|k: int|
                0 <= k < reasons.len() ==> text::stands_in(#[trigger] reasons[k], r@)
        }),
{
    let memories = value@.at("memories"@).items();
    let shown = text::texts(scores@);
    let memory = memories[i];
    let score = score_at(shown, i);
    let whole = memory_lines(memory, score);
    let nothing = Seq::<char>::empty();
    lemma_memory_printed(memories, shown, i);
    let kind = memory.text_or("type"@, "-"@);
    let said = memory.text_or("content"@, ""@);
    let field = padded(kind, 12);
    lemma_padded(kind, 12);
    let gap = field.skip(kind.len() as int);
    assert(field =~= kind + gap) by {
        assert(field.take(kind.len() as int) == kind);
    }
    let why = why_line(memory);
    let first = "["@ + score + "] "@ + kind;
    let second = " "@ + said + "\n"@;
    assert(whole =~= nothing + first + (gap + second + why));
    assert(whole =~= (first + gap) + second + why);
    assert(whole =~= (first + gap + second) + why + nothing);
    text::lemma_stands_in(nothing, first, gap + second + why);
    text::lemma_stands_in(first + gap, second, why);
    text::lemma_stands_in(first + gap + second, why, nothing);
    lemma_seen_through(first, whole, r@);
    lemma_seen_through(second, whole, r@);
    lemma_seen_through(why, whole, r@);
    if i < scores@.len() {
        assert(shown[i] == scores@[i]@);
    }
    let reasons = json::texts_among(memory.at("relevance"@).at("because"@).items());
    assert forall|k: int| 0 <= k < reasons.len() implies text::stands_in(
        #[trigger] reasons[k],
        r@,
    ) by {
        let list = text::joined(reasons, "; "@);
        text::what_was_joined_stands_in_the_whole(reasons, "; "@, k);
        text::lemma_stands_in_more(reasons[k], list, "         why: "@, "\n"@);
        lemma_seen_through(reasons[k], why, r@);
    }
}

proof fn lemma_seen_through(part: Seq<char>, inner: Seq<char>, whole: Seq<char>)
    requires
        text::stands_in(part, inner),
        text::stands_in(inner, whole),
    ensures
        text::stands_in(part, whole),
{
    let i = choose|i: int|
        0 <= i && i + inner.len() <= whole.len() && #[trigger] whole.subrange(i, i + inner.len())
            == inner;
    text::lemma_stands_in_more(
        part,
        inner,
        whole.take(i),
        whole.skip(i + inner.len()),
    );
    assert(whole.take(i) + inner + whole.skip(i + inner.len()) =~= whole);
}

proof fn lemma_session_printed(sessions: Seq<JsonView>, i: int)
    requires
        0 <= i < sessions.len(),
    ensures
        text::stands_in(session_line(sessions[i]), session_lines(sessions)),
    decreases sessions.len(),
{
    let nothing = Seq::<char>::empty();
    let rest = sessions.drop_last();
    let before = session_lines(rest);
    let line = session_line(sessions.last());
    if i == sessions.len() - 1 {
        text::lemma_stands_in(before, line, nothing);
        assert(before + line + nothing =~= before + line);
    } else {
        lemma_session_printed(rest, i);
        assert(rest[i] == sessions[i]);
        text::lemma_stands_in_more(session_line(sessions[i]), before, nothing, line);
        assert(nothing + before + line =~= before + line);
    }
}

#[verifier::spinoff_prover]
proof fn lemma_session_line(session: JsonView)
    ensures
        text::stands_in(
            (if session.at("connected"@) == JsonView::Bool(true) {
                "●"@
            } else {
                "○"@
            }) + " "@ + shown_as(session, "session_id"@, "-"@),
            session_line(session),
        ),
        text::stands_in(
            " · "@ + shown_as(session, "cwd"@, "-"@) + "\n"@,
            session_line(session),
        ),
        text::stands_in(place_of(session), session_line(session)),
{
    let nothing = Seq::<char>::empty();
    let line = session_line(session);
    let dot = if session.at("connected"@) == JsonView::Bool(true) {
        "●"@
    } else {
        "○"@
    };
    let id = session.text_or("session_id"@, "-"@);
    let place = place_of(session);
    let cwd = session.text_or("cwd"@, "-"@);
    let first = dot + " "@ + id;
    let last = " · "@ + cwd + "\n"@;
    let front = "  "@ + first + " · "@;
    assert(line =~= front + place + last);
    assert("  "@ + first + (" · "@ + place + last) =~= front + place + last);
    assert(front + place + last + nothing =~= front + place + last);
    text::lemma_stands_in("  "@, first, " · "@ + place + last);
    text::lemma_stands_in(front, place, last);
    text::lemma_stands_in(front + place, last, nothing);
}

#[verifier::spinoff_prover]
proof fn lemma_daemon_status(count: Seq<char>, pending: Seq<char>, lines: Seq<char>)
    ensures
        ({
            let whole = "Daemon: running · "@ + count + " session(s) · "@ + pending
                + " message(s) waiting\n"@ + lines;
            &&& text::stands_in(" · "@ + count + " session(s) · "@, whole)
            &&& text::stands_in(
                " session(s) · "@ + pending + " message(s) waiting\n"@,
                whole,
            )
            &&& text::stands_in(lines, whole)
        }),
{
    let nothing = Seq::<char>::empty();
    let start = "Daemon: running · "@;
    let (middle, end) = (" session(s) · "@, " message(s) waiting\n"@);
    let whole = start + count + middle + pending + end + lines;
    reveal_strlit("Daemon: running · ");
    reveal_strlit("Daemon: running");
    reveal_strlit(" · ");
    assert(start =~= "Daemon: running"@ + " · "@);
    let many = " · "@ + count + middle;
    let waiting = middle + pending + end;
    assert("Daemon: running"@ + many + (pending + end + lines) =~= whole);
    assert((start + count) + waiting + lines =~= whole);
    assert((start + count + waiting) + lines + nothing =~= whole);
    text::lemma_stands_in("Daemon: running"@, many, pending + end + lines);
    text::lemma_stands_in(start + count, waiting, lines);
    text::lemma_stands_in(start + count + waiting, lines, nothing);
}

/// The status of a daemon is printed with every session, each with its id, where
/// it works and from where it was started, and whether it is connected.
#[verifier::spinoff_prover]
pub proof fn every_session_is_printed(report: Json, r: String, i: int)
    requires
        call_ensures(daemon_status_text, (Ok(report),), r),
        0 <= i < report@.at("sessions"@).items().len(),
    ensures
        ({
            let sessions = report@.at("sessions"@).items();
            let session = sessions[i];
            &&& text::stands_in(" · "@ + text::decimal(sessions.len()) + " session(s) · "@, r@)
            &&& report@.at("pending_messages"@) matches JsonView::Unsigned(n) ==> text::stands_in(
                " session(s) · "@ + text::decimal(n as nat) + " message(s) waiting\n"@,
                r@,
            )
            &&& text::stands_in(
                (if session.at("connected"@) == JsonView::Bool(true) {
                    "●"@
                } else {
                    "○"@
                }) + " "@ + shown_as(session, "session_id"@, "-"@),
                r@,
            )
            &&& text::stands_in(" · "@ + shown_as(session, "cwd"@, "-"@) + "\n"@, r@)
            &&& session.at("branch"@) is Text ==> text::stands_in(
                shown_as(session, "repository"@, "-"@) + "@"@ + session.at("branch"@)->Text_0,
                r@,
            )
            &&& !(session.at("branch"@) is Text) ==> text::stands_in(
                shown_as(session, "repository"@, "-"@),
                r@,
            )
        }),
{
    let sessions = report@.at("sessions"@).items();
    let session = sessions[i];
    let lines = session_lines(sessions);
    let line = session_line(session);
    lemma_session_printed(sessions, i);
    lemma_daemon_status(
        text::decimal(sessions.len()),
        text::decimal(pending_count(report@) as nat),
        lines,
    );
    lemma_session_line(session);
    lemma_seen_through(line, lines, r@);
    lemma_seen_through(place_of(session), line, r@);
    let dot = if session.at("connected"@) == JsonView::Bool(true) {
        "●"@
    } else {
        "○"@
    };
    lemma_seen_through(dot + " "@ + shown_as(session, "session_id"@, "-"@), line, r@);
    lemma_seen_through(" · "@ + shown_as(session, "cwd"@, "-"@) + "\n"@, line, r@);
}

/// A daemon that is not running is not a daemon that runs: what is printed says
/// why it could not be asked.
pub proof fn a_missing_daemon_is_reported(e: Failure, r: String, checked: String)
    requires
        call_ensures(daemon_status_text, (Err(e),), r),
        call_ensures(doctor_daemon, (Err(e),), checked),
    ensures
        text::stands_in(e.summary@, r@),
        text::has_prefix(r@, "Daemon: not running"@),
        text::stands_in(e.summary@, checked@),
{
    assert(e@.summary == e.summary@);
    text::lemma_stands_in("Daemon: not running ("@, e.summary@, ")\n"@);
    text::lemma_stands_in("Daemon           : "@, e.summary@, "\n"@);
    reveal_strlit("Daemon: not running (");
    reveal_strlit("Daemon: not running");
    assert(r@.take("Daemon: not running"@.len() as int) =~= "Daemon: not running"@);
}

#[verifier::spinoff_prover]
proof fn lemma_login_detail(c: CredentialsView)
    ensures
        c.workspace is Some ==> text::stands_in("workspace "@ + c.workspace->0, login_detail(c)),
        c.workspace_url is Some ==> text::stands_in("gateway "@ + c.gateway_url, login_detail(c)),
{
    let nothing = Seq::<char>::empty();
    let detail = login_detail(c);
    let g = "gateway "@ + c.gateway_url;
    match (c.workspace, c.workspace_url) {
        (Some(w), Some(_)) => {
            reveal_strlit(" · gateway ");
            reveal_strlit(" · ");
            reveal_strlit("gateway ");
            assert(" · gateway "@ =~= " · "@ + "gateway "@);
            let first = "workspace "@ + w;
            assert(detail =~= first + " · "@ + g + "\n"@);
            assert(nothing + first + (" · "@ + g + "\n"@) =~= first + " · "@ + g + "\n"@);
            text::lemma_stands_in(nothing, first, " · "@ + g + "\n"@);
            text::lemma_stands_in(first + " · "@, g, "\n"@);
        },
        (Some(w), None) => {
            assert(nothing + ("workspace "@ + w) + "\n"@ =~= detail);
            text::lemma_stands_in(nothing, "workspace "@ + w, "\n"@);
        },
        (None, Some(_)) => {
            assert(nothing + g + "\n"@ =~= detail);
            text::lemma_stands_in(nothing, g, "\n"@);
        },
        (None, None) => {},
    }
}

/// A login is printed by where it is, with its workspace and its gateway.
#[verifier::spinoff_prover]
pub proof fn a_login_is_printed_by_where_it_is(c: Credentials, r: String)
    requires
        call_ensures(login_status_text, (&c,), r),
    ensures
        c.workspace_url is Some ==> text::stands_in(c.workspace_url->0@, r@),
        c.workspace_url is None ==> text::stands_in(c.gateway_url@, r@),
        c.workspace is Some ==> text::stands_in("workspace "@ + c.workspace->0@, r@),
        c.workspace_url is Some ==> text::stands_in("gateway "@ + c.gateway_url@, r@),
{
    let nothing = Seq::<char>::empty();
    assert(c@.workspace_url == text::optional(c.workspace_url));
    assert(c@.workspace == text::optional(c.workspace));
    assert(c@.gateway_url == c.gateway_url@);
    let home = c@.home();
    let detail = login_detail(c@);
    let behind = " as "@ + ("…"@ + crate::credentials::tail(c@.token)) + "\n"@;
    assert(r@ =~= "Logged in to "@ + home + (behind + detail));
    assert("Logged in to "@ + home + behind + detail + nothing =~= r@);
    text::lemma_stands_in("Logged in to "@, home, behind + detail);
    text::lemma_stands_in("Logged in to "@ + home + behind, detail, nothing);
    lemma_login_detail(c@);
    if c@.workspace is Some {
        lemma_seen_through("workspace "@ + c@.workspace->0, detail, r@);
    }
    if c@.workspace_url is Some {
        lemma_seen_through("gateway "@ + c@.gateway_url, detail, r@);
    }
}

/// What is printed of a login does not reveal its token: two logins that differ
/// in nothing but tokens that end alike are printed alike.
pub proof fn a_status_does_not_reveal_the_token(
    a: Credentials,
    b: Credentials,
    x: String,
    y: String,
)
    requires
        call_ensures(login_status_text, (&a,), x),
        call_ensures(login_status_text, (&b,), y),
        a.token@.len() > 4,
        b.token@.len() > 4,
        a.token@.skip(a.token@.len() - 4) == b.token@.skip(b.token@.len() - 4),
        a@.gateway_url == b@.gateway_url,
        a@.workspace_url == b@.workspace_url,
        a@.workspace == b@.workspace,
    ensures
        x@ == y@,
{
    crate::credentials::a_fingerprint_reveals_the_tail_alone(a.token@, b.token@);
    assert(a@.token == a.token@ && b@.token == b.token@);
    assert(login_detail(a@) == login_detail(b@));
    assert(a@.home() == b@.home());
}

/// What is published is reported with the id that the gateway gave it.
pub proof fn what_is_published_is_reported(value: Json, r: String)
    requires
        call_ensures(published_text, (&value,), r),
        value@.at("id"@) is Text,
    ensures
        text::stands_in(value@.at("id"@)->Text_0, r@),
{
    text::lemma_stands_in("Published. "@, value@.at("id"@)->Text_0, "\n"@);
}

/// What is known of a checkout and of a login is what is checked.
#[verifier::spinoff_prover]
pub proof fn a_checkup_says_what_is_known(
    config_dir: &str,
    place: &str,
    checkout: Checkout,
    r: String,
)
    requires
        call_ensures(doctor_place, (config_dir, place, &checkout), r),
    ensures
        text::stands_in("Config directory : "@ + config_dir@ + "\n"@, r@),
        text::stands_in("Credentials      : "@ + place@ + "\n"@, r@),
        text::stands_in(
            "Repository       : "@ + (if checkout.repository is Some {
                checkout.repository->0@
            } else {
                "(not a git checkout with an origin)"@
            }) + "\n"@,
            r@,
        ),
        text::stands_in(
            "Branch           : "@ + (if checkout.branch is Some {
                checkout.branch->0@
            } else {
                "-"@
            }) + "\n"@,
            r@,
        ),
        text::stands_in(
            "Git email        : "@ + (if checkout.email is Some {
                checkout.email->0@
            } else {
                "(unset - you will not be identified)"@
            }) + "\n"@,
            r@,
        ),
{
    assert(checkout@.repository == text::optional(checkout.repository));
    assert(checkout@.branch == text::optional(checkout.branch));
    assert(checkout@.email == text::optional(checkout.email));
    reveal_strlit("\n");
    reveal_strlit("Credentials      : ");
    reveal_strlit("\nCredentials      : ");
    reveal_strlit("Repository       : ");
    reveal_strlit("\nRepository       : ");
    reveal_strlit("Branch           : ");
    reveal_strlit("\nBranch           : ");
    reveal_strlit("Git email        : ");
    reveal_strlit("\nGit email        : ");
    assert("\nCredentials      : "@ =~= "\n"@ + "Credentials      : "@);
    assert("\nRepository       : "@ =~= "\n"@ + "Repository       : "@);
    assert("\nBranch           : "@ =~= "\n"@ + "Branch           : "@);
    assert("\nGit email        : "@ =~= "\n"@ + "Git email        : "@);
    let nothing = Seq::<char>::empty();
    let repository = or_else(checkout@.repository, "(not a git checkout with an origin)"@);
    let branch = or_else(checkout@.branch, "-"@);
    let email = or_else(checkout@.email, "(unset - you will not be identified)"@);
    let a = "Config directory : "@ + config_dir@ + "\n"@;
    let b = "Credentials      : "@ + place@ + "\n"@;
    let c = "Repository       : "@ + repository + "\n"@;
    let d = "Branch           : "@ + branch + "\n"@;
    let e = "Git email        : "@ + email + "\n"@;
    assert(r@ =~= a + b + c + d + e);
    assert(r@ =~= nothing + a + (b + c + d + e));
    assert(r@ =~= a + b + (c + d + e));
    assert(r@ =~= (a + b) + c + (d + e));
    assert(r@ =~= (a + b + c) + d + e);
    assert(r@ =~= (a + b + c + d) + e + nothing);
    text::lemma_stands_in(nothing, a, b + c + d + e);
    text::lemma_stands_in(a, b, c + d + e);
    text::lemma_stands_in(a + b, c, d + e);
    text::lemma_stands_in(a + b + c, d, e);
    text::lemma_stands_in(a + b + c + d, e, nothing);
}

/// A gateway that answers is reachable, and one that does not is not.
pub proof fn a_checkup_tells_a_gateway_that_answers(
    outcome: Result<usize, Failure>,
    r: String,
)
    requires
        call_ensures(doctor_gateway, (outcome,), r),
    ensures
        outcome is Ok ==> text::has_prefix(r@, "Gateway reachable: yes"@) && text::stands_in(
            text::decimal(outcome->Ok_0 as nat) + " agent(s) online"@,
            r@,
        ),
        outcome is Err ==> text::has_prefix(r@, "Gateway reachable: no"@) && text::stands_in(
            outcome->Err_0@.in_full(),
            r@,
        ),
{
    reveal_strlit("Gateway reachable: yes, ");
    reveal_strlit("Gateway reachable: yes");
    reveal_strlit("Gateway reachable: no (");
    reveal_strlit("Gateway reachable: no");
    match outcome {
        Ok(n) => {
            reveal_strlit(" agent(s) online\n");
            reveal_strlit(" agent(s) online");
            reveal_strlit("\n");
            assert(" agent(s) online\n"@ =~= " agent(s) online"@ + "\n"@);
            let said = text::decimal(n as nat) + " agent(s) online"@;
            assert(r@ =~= "Gateway reachable: yes, "@ + said + "\n"@);
            text::lemma_stands_in("Gateway reachable: yes, "@, said, "\n"@);
            assert(r@.take(22) =~= "Gateway reachable: yes"@);
        },
        Err(e) => {
            text::lemma_stands_in("Gateway reachable: no ("@, e@.in_full(), ")\n"@);
            assert(r@.take(21) =~= "Gateway reachable: no"@);
        },
    }
}

/// A daemon that answers is up, whenever it does. One that does not is waited
/// for, two seconds in all, and then given up.
pub proof fn a_daemon_is_waited_for(tries: u32, answers: bool, r: Startup)
    requires
        call_ensures(ensure_daemon, (tries, answers), r),
    ensures
        r is Up <==> answers,
        r is Wait <==> !answers && tries * START_PAUSE_MS < 2_000,
        r is GiveUp <==> !answers && tries * START_PAUSE_MS >= 2_000,
{
}

/// A failure to connect is told in full, and told to be no failure of the
/// agent.
pub proof fn a_failure_to_connect_is_told_in_full(e: Failure, r: String)
    requires
        call_ensures(not_connected, (&e,), r),
    ensures
        text::stands_in(e@.in_full(), r@),
        text::has_suffix(r@, "The coding agent continues as normal."@),
{
    reveal_strlit("The coding agent continues as normal.");
    reveal_strlit("). The coding agent continues as normal.");
    let help = "The coding agent continues as normal."@;
    text::lemma_stands_in(
        "kintri: not connected ("@,
        e@.in_full(),
        "). The coding agent continues as normal."@,
    );
    assert(r@.skip(r@.len() - help.len()) =~= help);
}

#[verifier::spinoff_prover]
proof fn lemma_workspace_line(c: CredentialsView)
    ensures
        c.workspace_url is Some ==> text::stands_in(c.workspace_url->0, workspace_line(c)),
        c.workspace_url is Some && c.workspace is Some ==> text::stands_in(
            c.workspace->0,
            workspace_line(c),
        ),
{
    match (c.workspace_url, c.workspace) {
        (Some(u), Some(w)) => {
            let start = "Workspace        : "@;
            text::lemma_stands_in(start + w + " ("@, u, ")\n"@);
            assert(workspace_line(c) =~= start + w + (" ("@ + u + ")\n"@));
            text::lemma_stands_in(start, w, " ("@ + u + ")\n"@);
        },
        (Some(u), None) => {
            text::lemma_stands_in("Workspace        : "@, u, "\n"@);
        },
        _ => {},
    }
}

/// A checkup names the gateway of a login, and the platform and the workspace
/// where there was one to log in to; without a login it says that there is
/// none.
#[verifier::spinoff_prover]
pub proof fn a_checkup_names_the_login(credentials: Option<Credentials>, r: String)
    requires
        call_ensures(doctor_login, (&credentials,), r),
    ensures
        credentials is None ==> text::stands_in("not logged in"@, r@),
        credentials matches Some(c) ==> {
            &&& text::stands_in(c.gateway_url@, r@)
            &&& c.workspace_url is Some ==> text::stands_in(c.workspace_url->0@, r@)
            &&& c.workspace_url is Some && c.workspace is Some ==> text::stands_in(
                c.workspace->0@,
                r@,
            )
        },
{
    match credentials {
        Some(c) => {
            let line = workspace_line(c@);
            text::lemma_stands_in(line + "Gateway          : "@, c@.gateway_url, "\n"@);
            lemma_workspace_line(c@);
            let nothing = Seq::<char>::empty();
            let rest = "Gateway          : "@ + c@.gateway_url + "\n"@;
            assert(r@ =~= nothing + line + rest);
            if c.workspace_url is Some {
                text::lemma_stands_in_more(c.workspace_url->0@, line, nothing, rest);
                if c.workspace is Some {
                    text::lemma_stands_in_more(c.workspace->0@, line, nothing, rest);
                }
            }
        },
        None => {
            reveal_strlit("Login            : not logged in\n");
            reveal_strlit("not logged in");
            reveal_strlit("Login            : ");
            reveal_strlit("\n");
            text::lemma_stands_in("Login            : "@, "not logged in"@, "\n"@);
            assert(r@ =~= "Login            : "@ + "not logged in"@ + "\n"@);
        },
    }
}

/// Where there is nothing to print a person is told so, and what is not there is
/// no failure.
pub proof fn nothing_is_told_as_nothing(
    value: Json,
    scores: Vec<String>,
    inbox: String,
    online: String,
    found: String,
)
    requires
        call_ensures(inbox_text, (&value,), inbox),
        call_ensures(online_text, (&value,), online),
        call_ensures(print_memories, (&value, &scores), found),
    ensures
        value@.at("messages"@).items().len() == 0 ==> inbox@ == "Nothing waiting.\n"@,
        value@.at("agents"@).items().len() == 0 ==> online@
            == "Nobody else is working right now.\n"@,
        value@.at("memories"@).items().len() == 0 ==> found@
            == "Nothing relevant. That is an answer, not a failure.\n"@,
{
}

/// A checkup names the version of a daemon that runs, and says what is wrong with
/// one that does not.
pub proof fn a_checkup_tells_a_daemon_that_runs(outcome: Result<Json, Failure>, r: String)
    requires
        call_ensures(doctor_daemon, (outcome,), r),
    ensures
        outcome matches Ok(report) ==> text::stands_in(
            "running, version "@ + shown_as(report@, "version"@, "?"@),
            r@,
        ),
        outcome matches Err(e) ==> text::stands_in(e.summary@, r@),
{
    match outcome {
        Ok(report) => {
            reveal_strlit("Daemon           : running, version ");
            reveal_strlit("Daemon           : ");
            reveal_strlit("running, version ");
            let version = report@.text_or("version"@, "?"@);
            assert("Daemon           : running, version "@ =~= "Daemon           : "@
                + "running, version "@);
            assert(r@ =~= "Daemon           : "@ + ("running, version "@ + version) + "\n"@);
            text::lemma_stands_in("Daemon           : "@, "running, version "@ + version, "\n"@);
        },
        Err(e) => {
            assert(e@.summary == e.summary@);
            text::lemma_stands_in("Daemon           : "@, e.summary@, "\n"@);
        },
    }
}

/// So many spaces.
pub open spec fn spaces(n: nat) -> Seq<char> {
    Seq::new(n, |i: int| ' ')
}

proof fn lemma_padded_with_spaces(s: Seq<char>, width: nat)
    requires
        s.len() <= width,
    ensures
        padded(s, width) == s + spaces((width - s.len()) as nat),
    decreases width - s.len(),
{
    if s.len() < width {
        lemma_padded_with_spaces(s.push(' '), width);
        assert(s.push(' ') + spaces((width - s.len() - 1) as nat) =~= s + spaces(
            (width - s.len()) as nat,
        ));
    } else {
        assert(s + spaces(0) =~= s);
    }
}

/// What memories say stands in one column: behind the kind, which takes twelve
/// places whatever it is.
#[verifier::spinoff_prover]
pub proof fn memories_are_printed_in_columns(value: Json, scores: Vec<String>, r: String, i: int)
    requires
        call_ensures(print_memories, (&value, &scores), r),
        0 <= i < value@.at("memories"@).items().len(),
        i < scores@.len(),
    ensures
        ({
            let memory = value@.at("memories"@).items()[i];
            let kind = shown_as(memory, "type"@, "-"@);
            kind.len() <= 12 ==> text::stands_in(
                "["@ + scores@[i]@ + "] "@ + (kind + spaces((12 - kind.len()) as nat)) + " "@
                    + shown_as(memory, "content"@, ""@) + "\n"@,
                r@,
            )
        }),
{
    let memories = value@.at("memories"@).items();
    let shown = text::texts(scores@);
    let memory = memories[i];
    let kind = memory.text_or("type"@, "-"@);
    assert(shown[i] == scores@[i]@);
    if kind.len() <= 12 {
        lemma_padded_with_spaces(kind, 12);
        lemma_memory_printed(memories, shown, i);
        let line = "["@ + scores@[i]@ + "] "@ + padded(kind, 12) + " "@ + memory.text_or(
            "content"@,
            ""@,
        ) + "\n"@;
        let nothing = Seq::<char>::empty();
        let whole = memory_lines(memory, scores@[i]@);
        text::lemma_stands_in(nothing, line, why_line(memory));
        assert(nothing + line + why_line(memory) =~= whole);
        lemma_seen_through(line, whole, r@);
    }
}

} // verus!
