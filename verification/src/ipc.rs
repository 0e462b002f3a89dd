//! The local protocol between the daemon and everything else on the machine.
//!
//! A Unix socket in the user's configuration directory, line-delimited JSON,
//! one request and one response per connection. The daemon holds the
//! credential and nothing else does, which keeps the token out of every
//! subprocess.
use vstd::prelude::*;
use vstd::string::*;

use crate::failure;
use crate::failure::{Failure, FailureView};
use crate::json::{Json, JsonView};
use crate::path;
use crate::text;

verus! {

/// What somebody wants from the daemon.
///
/// The daemon holds one presence per coding session, not one per machine, so a
/// request that acts as a session says where it comes from: its working
/// directory, which is the one fact that a hook and a tool server share.
#[allow(inconsistent_fields)]
#[derive(Debug)]
pub enum Request {
    /// Is it connected, and as whom.
    Status,
    /// Register one coding session with the gateway. Idempotent on
    /// `client_session_id`.
    Register { client_session_id: String, client: String, cwd: String },
    /// Report one session over. The others carry on.
    Unregister { client_session_id: String },
    /// Take the messages this agent has not seen: at most `limit`, for the
    /// session registered from `cwd`; without one, for all.
    Inbox { limit: Option<usize>, cwd: Option<String> },
    /// Publish a memory. The body is passed through to the gateway.
    Remember(Json),
    /// Search memories. The body becomes the query string.
    Search(Json),
    /// Message another agent.
    Message(Json),
    /// Who else is online.
    Online,
    /// Stop the daemon.
    Shutdown,
}

/// A request, mathematically.
#[allow(inconsistent_fields)]
pub enum RequestView {
    Status,
    Register { client_session_id: Seq<char>, client: Seq<char>, cwd: Seq<char> },
    Unregister { client_session_id: Seq<char> },
    Inbox { limit: Option<usize>, cwd: Option<Seq<char>> },
    Remember(JsonView),
    Search(JsonView),
    Message(JsonView),
    Online,
    Shutdown,
}

impl View for Request {
    type V = RequestView;

    open spec fn view(&self) -> RequestView {
        match self {
            Request::Status => RequestView::Status,
            Request::Register { client_session_id, client, cwd } => RequestView::Register {
                client_session_id: client_session_id@,
                client: client@,
                cwd: cwd@,
            },
            Request::Unregister { client_session_id } => RequestView::Unregister {
                client_session_id: client_session_id@,
            },
            Request::Inbox { limit, cwd } => RequestView::Inbox {
                limit: *limit,
                cwd: text::optional(*cwd),
            },
            Request::Remember(body) => RequestView::Remember(body@),
            Request::Search(body) => RequestView::Search(body@),
            Request::Message(body) => RequestView::Message(body@),
            Request::Online => RequestView::Online,
            Request::Shutdown => RequestView::Shutdown,
        }
    }
}

/// What the daemon answers.
#[derive(Debug, PartialEq, Eq)]
pub enum Response {
    /// It worked.
    Done(Json),
    /// It did not, and here is a sentence saying why.
    Error(String),
}

impl Response {
    /// The answer as a `Result`, so that callers handle failure the usual way.
    pub fn into_result(self) -> (r: Result<Json, Failure>)
        ensures
            match self {
                Response::Done(value) => r is Ok && r->Ok_0 == value,
                Response::Error(e) => r is Err && r->Err_0@ == failure::plain(e@),
            },
    {
        match self {
            Response::Done(value) => Ok(value),
            Response::Error(e) => Err(Failure { summary: e, cause: None }),
        }
    }

    /// The answer for what came of a request, in one line.
    pub fn from_result(outcome: Result<Json, Failure>) -> (r: Response)
        ensures
            match outcome {
                Ok(value) => r == Response::Done(value),
                Err(e) => r is Error && r->Error_0@ == e@.in_full(),
            },
    {
        match outcome {
            Ok(value) => Response::Done(value),
            Err(e) => Response::Error(e.full()),
        }
    }

    /// The answer to a line that is no request.
    pub fn unparseable(cause: &str) -> (r: Response)
        ensures
            r is Error,
            r->Error_0@ == "unparseable request: "@ + cause@,
    {
        let mut out: String = "unparseable request: ".to_owned();
        out.append(cause);
        Response::Error(out)
    }
}

/// Where the daemon listens.
pub open spec fn socket_of(config_dir: Seq<char>) -> Seq<char> {
    path::joined(config_dir, "daemon.sock"@)
}

/// Where the daemon listens.
pub fn socket_path(config_dir: &str) -> (r: String)
    ensures
        r@ == socket_of(config_dir@),
{
    path::join(config_dir, "daemon.sock")
}

/// Why the socket could not be connected to.
#[derive(Debug)]
pub enum ConnectError {
    /// There is no socket.
    Missing,
    /// There is one, and nobody listens.
    Refused,
    /// Anything else, in the words of the system.
    Other(String),
}

/// What a caller is told who could not connect.
pub open spec fn no_connection(socket: Seq<char>, error: ConnectError) -> FailureView {
    match error {
        ConnectError::Missing => failure::plain(
            "the kintri daemon is not running. Start it with `kintri daemon start`"@,
        ),
        ConnectError::Refused => failure::plain(
            "the kintri daemon is not running (stale socket at "@ + socket
                + "). Start it with `kintri daemon start`"@,
        ),
        ConnectError::Other(e) => failure::caused("connect to the kintri daemon"@, e@),
    }
}

/// What a caller is told who could not connect. A missing daemon is the normal
/// state on a machine where nobody started it, so it is a plain sentence.
pub fn unreachable_daemon(config_dir: &str, error: ConnectError) -> (r: Failure)
    ensures
        r@ == no_connection(socket_of(config_dir@), error),
{
    match error {
        ConnectError::Missing => Failure::new(
            "the kintri daemon is not running. Start it with `kintri daemon start`",
        ),
        ConnectError::Refused => {
            let mut out: String =
                "the kintri daemon is not running (stale socket at ".to_owned();
            out.append(socket_path(config_dir).as_str());
            out.append("). Start it with `kintri daemon start`");
            Failure::new(out.as_str())
        },
        ConnectError::Other(e) => Failure::because("connect to the kintri daemon", e.as_str()),
    }
}

/// What a caller gets for the line that the daemon answered, and for what it
/// was read as.
pub fn call(line: &str, read: Result<Response, String>) -> (r: Result<Json, Failure>)
    ensures
        text::trimmed(line@).len() == 0 ==> r is Err && r->Err_0@ == failure::plain(
            "the daemon closed the connection without answering"@,
        ),
        text::trimmed(line@).len() > 0 ==> match read {
            Ok(Response::Done(value)) => r is Ok && r->Ok_0 == value,
            Ok(Response::Error(e)) => r is Err && r->Err_0@ == failure::plain(e@),
            Err(e) => r is Err && r->Err_0@ == failure::caused(
                "the daemon's answer was not understood"@,
                e@,
            ),
        },
{
    if text::trim(line).unicode_len() == 0 {
        return Err(Failure::new("the daemon closed the connection without answering"));
    }
    match read {
        Ok(response) => response.into_result(),
        Err(e) => Err(Failure::because("the daemon's answer was not understood", e.as_str())),
    }
}

/// What came of a request arrives at the caller as it was: the answer itself, or
/// the whole sentence of what went wrong.
pub proof fn an_outcome_arrives(
    outcome: Result<Json, Failure>,
    sent: Response,
    line: &str,
    r: Result<Json, Failure>,
)
    requires
        call_ensures(Response::from_result, (outcome,), sent),
        call_ensures(call, (line, Ok(sent)), r),
        text::trimmed(line@).len() > 0,
    ensures
        r is Ok <==> outcome is Ok,
        outcome matches Ok(value) ==> r->Ok_0@ == value@,
        outcome matches Err(e) ==> r->Err_0@.in_full() == e@.in_full(),
{
}

/// The socket is in the directory that it is for.
pub proof fn a_socket_is_in_its_directory(config_dir: &str, r: String)
    requires
        call_ensures(socket_path, (config_dir,), r),
    ensures
        path::parent(r@) == path::tidy(config_dir@),
        text::has_suffix(r@, "daemon.sock"@),
{
    reveal_strlit("daemon.sock");
    let name = "daemon.sock"@;
    assert forall|i: int| 0 <= i < name.len() implies name[i] != '/' by {}
    path::a_file_is_where_it_was_put(config_dir@, name);
    assert(r@.skip(r@.len() - name.len()) =~= name);
}

/// A caller who is not answered, or not understood, or whose request is not
/// understood, is told so and why.
pub proof fn what_is_not_understood_is_a_failure(
    line: &str,
    read: Result<Response, String>,
    r: Result<Json, Failure>,
    cause: &str,
    refused: Response,
)
    requires
        call_ensures(call, (line, read), r),
        call_ensures(Response::unparseable, (cause,), refused),
    ensures
        text::blank(line@) ==> r is Err,
        !text::blank(line@) && read is Err ==> r is Err && text::has_suffix(
            r->Err_0@.in_full(),
            read->Err_0@,
        ),
        r is Ok ==> read is Ok && read->Ok_0 is Done && r->Ok_0 == read->Ok_0->Done_0,
        refused is Error && text::has_suffix(refused->Error_0@, cause@),
{
    if text::blank(line@) {
        text::a_blank_text_is_trimmed_away(line@);
    } else if text::trimmed(line@).len() == 0 {
        text::only_a_blank_text_is_trimmed_away(line@);
    } else if read is Err {
        let told = r->Err_0@.in_full();
        let why = read->Err_0@;
        assert(told.skip(told.len() - why.len()) =~= why);
    }
    let said = refused->Error_0@;
    assert(said.skip(said.len() - cause@.len()) =~= cause@);
}

/// A caller who finds no daemon is told how to start one; a socket that nobody
/// listens on is named; anything else is told in the words of the system.
pub proof fn a_missing_daemon_can_be_started(config_dir: &str, error: ConnectError, r: Failure)
    requires
        call_ensures(unreachable_daemon, (config_dir, error), r),
    ensures
        error is Other ==> text::has_suffix(r@.in_full(), error->Other_0@),
        error is Refused ==> text::stands_in(socket_of(config_dir@), r@.in_full()),
        error is Missing || error is Refused ==> text::has_suffix(
            r@.in_full(),
            "Start it with `kintri daemon start`"@,
        ),
{
    let told = r@.in_full();
    let help = "Start it with `kintri daemon start`"@;
    reveal_strlit("Start it with `kintri daemon start`");
    match error {
        ConnectError::Missing => {
            reveal_strlit("the kintri daemon is not running. Start it with `kintri daemon start`");
            assert(told.skip(told.len() - help.len()) =~= help);
        },
        ConnectError::Refused => {
            reveal_strlit("). Start it with `kintri daemon start`");
            let end = "). Start it with `kintri daemon start`"@;
            text::lemma_stands_in(
                "the kintri daemon is not running (stale socket at "@,
                socket_of(config_dir@),
                end,
            );
            assert(told.skip(told.len() - help.len()) =~= help);
        },
        ConnectError::Other(e) => {
            assert(told.skip(told.len() - e@.len()) =~= e@);
        },
    }
}

} // verus!
