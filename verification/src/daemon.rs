//! The long-lived half of the client.
//!
//! One process per developer machine, holding one presence per coding session.
//! It owns the credential, the sessions, their connections and their inboxes,
//! and it is the only thing here that talks to the network.
//!
//! Two rules it exists to keep. It never blocks the coding agent: whatever goes
//! wrong becomes a quiet retry or a sentence the agent can ignore. And a
//! message is acknowledged only when the agent has actually been handed it:
//! until then it is still owed, which is what makes a crash mid-handover
//! survivable.
//!
//! A coding agent tells its hooks which session they belong to, and tells a
//! tool server nothing. The one fact both share is the working directory, so a
//! request carries its directory and is answered as the session registered
//! from there: the newest, when two share a checkout, and the newest of all
//! when none was registered from there.
use vstd::prelude::*;
use vstd::string::*;

use crate::agent_protocol;
use crate::agent_protocol::{OnlineAgent, SessionRegistered};
use crate::client;
use crate::client::Gateway;
use crate::credentials::{Credentials, PRIVATE_FILE};
use crate::failure;
use crate::failure::Failure;
use crate::handover;
use crate::handover::Handover;
use crate::http;
use crate::http::HttpCall;
use crate::inbox;
use crate::inbox::Inbox;
use crate::ipc;
use crate::ipc::Request;
use crate::json;
use crate::json::{Json, JsonView};
use crate::model;
use crate::model::AgentSessionId;
use crate::path;
use crate::sessions;
use crate::sessions::Session;
use crate::text;
use crate::time;
use crate::time::Timestamp;
use crate::workspace::Checkout;

verus! {

// ---------------------------------------------------------------------------
// The daemon
// ---------------------------------------------------------------------------

/// What `kintri daemon start` was told.
#[derive(Debug)]
pub struct Options {
    /// Where credentials and the socket live.
    pub config_dir: String,
    /// A session to register at once, for a daemon started by hand. A daemon
    /// started for a hook begins empty and is told about sessions later.
    pub initial: Option<InitialSession>,
    /// GitHub login, if the developer configured one.
    pub github_login: Option<String>,
    /// Display name, used only as a hint.
    pub display_name: Option<String>,
}

/// A session to register at once.
#[derive(Debug)]
pub struct InitialSession {
    pub client_session_id: String,
    pub client: String,
    pub cwd: String,
}

/// Everything the daemon knows.
#[derive(Debug)]
pub struct Daemon {
    pub gateway: Gateway,
    /// The sessions that are registered.
    pub sessions: Vec<Session>,
    /// The sessions that ended while messages were being handed over: who asked
    /// before still gets what waits for them.
    pub departed: Vec<Session>,
    /// How many handovers are going on.
    pub handovers: u64,
    /// The number of the next registration.
    pub next_serial: u64,
    pub started_at: Timestamp,
    pub github_login: Option<String>,
    pub display_name: Option<String>,
}

/// Where a session is: at that position among the registered sessions, or among
/// those that ended.
#[derive(Debug)]
pub enum Place {
    Registered(usize),
    Departed(usize),
}

/// The sentence for a request that needs a session when there is none.
pub const NO_SESSION: &'static str = "no coding session is registered with the daemon yet";

/// A daemon and where it listens.
#[derive(Debug)]
pub struct Started {
    pub daemon: Daemon,
    pub socket: String,
    pub initial: Option<InitialSession>,
}

/// The daemon that was told `options`, as of a point in time.
pub fn started(credentials: &Credentials, options: Options, started_at: Timestamp) -> (r: Started)
    ensures
        r.daemon.wf(),
        r.daemon.sessions@.len() == 0,
        r.daemon.departed@.len() == 0,
        r.daemon.handovers == 0,
        r.daemon.next_serial == 0,
        r.daemon.gateway.base@ == text::without_trailing(credentials@.gateway_url, '/'),
        r.daemon.gateway.authorization@ == "Bearer "@ + credentials@.token,
        r.daemon.started_at == started_at,
        r.daemon.github_login == options.github_login,
        r.daemon.display_name == options.display_name,
        r.socket@ == ipc::socket_of(options.config_dir@),
        r.initial == options.initial,
{
    Started {
        daemon: Daemon {
            gateway: Gateway::new(credentials),
            sessions: Vec::new(),
            departed: Vec::new(),
            handovers: 0,
            next_serial: 0,
            started_at,
            github_login: options.github_login,
            display_name: options.display_name,
        },
        socket: ipc::socket_path(options.config_dir.as_str()),
        initial: options.initial,
    }
}

/// The daemon that was told `options`, as of now.
pub fn run(credentials: &Credentials, options: Options) -> (r: Started)
    ensures
        r.daemon.wf(),
        r.daemon.sessions@.len() == 0,
        r.daemon.departed@.len() == 0,
        r.daemon.handovers == 0,
        r.daemon.next_serial == 0,
        r.daemon.gateway.base@ == text::without_trailing(credentials@.gateway_url, '/'),
        r.daemon.gateway.authorization@ == "Bearer "@ + credentials@.token,
        time::shown_by_the_clock(r.daemon.started_at),
        r.daemon.github_login == options.github_login,
        r.daemon.display_name == options.display_name,
        r.socket@ == ipc::socket_of(options.config_dir@),
        r.initial == options.initial,
{
    started(credentials, options, Timestamp::now())
}

/// Whether a socket that is in the way was left behind by a daemon that died:
/// it is there, and nobody answers on it.
pub fn stale_socket(exists: bool, answers: bool) -> (r: bool)
    ensures
        r == (exists && !answers),
{
    exists && !answers
}

/// One step of opening the socket.
#[derive(Debug)]
pub enum BindStep {
    /// Make this directory, and those above it.
    CreateDirectory(String),
    /// Remove this socket if it is stale ([`stale_socket`]).
    ClearStale(String),
    /// Listen on this socket.
    Listen(String),
    /// Set the mode of this socket.
    Restrict(String, u32),
    /// Answer whoever asks on this socket.
    Serve(String),
}

/// A step of opening the socket, mathematically.
pub enum BindStepView {
    CreateDirectory(Seq<char>),
    ClearStale(Seq<char>),
    Listen(Seq<char>),
    Restrict(Seq<char>, u32),
    Serve(Seq<char>),
}

impl View for BindStep {
    type V = BindStepView;

    open spec fn view(&self) -> BindStepView {
        match self {
            BindStep::CreateDirectory(p) => BindStepView::CreateDirectory(p@),
            BindStep::ClearStale(p) => BindStepView::ClearStale(p@),
            BindStep::Listen(p) => BindStepView::Listen(p@),
            BindStep::Restrict(p, mode) => BindStepView::Restrict(p@, *mode),
            BindStep::Serve(p) => BindStepView::Serve(p@),
        }
    }
}

/// The steps that open the socket in a configuration directory.
pub open spec fn bind_steps(config_dir: Seq<char>) -> Seq<BindStepView> {
    let socket = ipc::socket_of(config_dir);
    seq![
        BindStepView::CreateDirectory(config_dir),
        BindStepView::ClearStale(socket),
        BindStepView::Listen(socket),
        BindStepView::Restrict(socket, PRIVATE_FILE),
        BindStepView::Serve(socket),
    ]
}

/// Nobody is answered on a socket that others than the user can reach: it was
/// made private before.
pub proof fn the_socket_is_private_before_anybody_is_answered(
    config_dir: Seq<char>,
    k: int,
    socket: Seq<char>,
)
    requires
        0 <= k < bind_steps(config_dir).len(),
        bind_steps(config_dir)[k] == BindStepView::Serve(socket),
    ensures
        exists|i: int, j: int|
            0 <= i < j < k && bind_steps(config_dir)[i] == BindStepView::Listen(socket)
                && bind_steps(config_dir)[j] == BindStepView::Restrict(socket, PRIVATE_FILE),
{
    assert(bind_steps(config_dir)[2] == BindStepView::Listen(socket));
    assert(bind_steps(config_dir)[3] == BindStepView::Restrict(socket, PRIVATE_FILE));
}

/// The steps that open the socket in a configuration directory.
pub fn bind_plan(config_dir: &str) -> (r: Vec<BindStep>)
    ensures
        r@.map_values(|step: BindStep| step@) == bind_steps(config_dir@),
{
    let socket = ipc::socket_path(config_dir);
    let mut steps: Vec<BindStep> = Vec::new();
    steps.push(BindStep::CreateDirectory(config_dir.to_owned()));
    steps.push(BindStep::ClearStale(socket.clone()));
    steps.push(BindStep::Listen(socket.clone()));
    steps.push(BindStep::Restrict(socket.clone(), PRIVATE_FILE));
    steps.push(BindStep::Serve(socket));
    assert(steps@.map_values(|step: BindStep| step@) =~= bind_steps(config_dir@));
    steps
}

impl BindStepView {
    /// What a step that failed fails with, for what the system said. A stale
    /// socket that stays is noticed when it is listened on.
    pub open spec fn undone(self, cause: Seq<char>) -> Option<failure::FailureView> {
        match self {
            BindStepView::CreateDirectory(_) => Some(
                failure::caused("create config directory"@, cause),
            ),
            BindStepView::ClearStale(_) => None,
            BindStepView::Listen(socket) => Some(
                failure::caused("bind "@ + socket + ". Is a daemon already running?"@, cause),
            ),
            BindStepView::Restrict(_, _) => Some(
                failure::caused("restrict the daemon socket to this user"@, cause),
            ),
            BindStepView::Serve(_) => None,
        }
    }
}

impl BindStep {
    /// What a step that failed fails with, for what the system said.
    pub fn failure(&self, cause: &str) -> (r: Option<Failure>)
        ensures
            match self@.undone(cause@) {
                Some(e) => r is Some && r->0@ == e,
                None => r is None,
            },
    {
        match self {
            BindStep::CreateDirectory(_) => Some(
                Failure::because("create config directory", cause),
            ),
            BindStep::ClearStale(_) => None,
            BindStep::Listen(socket) => Some(bind_failure(socket.as_str(), cause)),
            BindStep::Restrict(_, _) => Some(
                Failure::because("restrict the daemon socket to this user", cause),
            ),
            BindStep::Serve(_) => None,
        }
    }
}

/// The failure of a socket that could not be listened on.
pub fn bind_failure(socket: &str, cause: &str) -> (r: Failure)
    ensures
        r@ == failure::caused(
            "bind "@ + socket@ + ". Is a daemon already running?"@,
            cause@,
        ),
{
    let mut summary: String = "bind ".to_owned();
    summary.append(socket);
    summary.append(". Is a daemon already running?");
    Failure::because(summary.as_str(), cause)
}

/// The sessions that ended and are still being handed over, once `leaving` end
/// as well.
pub open spec fn departed_with(daemon: Daemon, leaving: Seq<Session>) -> Seq<Session> {
    if daemon.handovers > 0 {
        daemon.departed@ + leaving
    } else {
        Seq::empty()
    }
}

/// A session can leave, and is kept where messages are being handed over.
proof fn lemma_departed(before: Daemon, after: Daemon, k: int)
    requires
        before.wf(),
        0 <= k < before.sessions@.len(),
        after.sessions@ == before.sessions@.remove(k),
        after.departed@ == departed_with(before, seq![before.sessions@[k]]),
        after.handovers == before.handovers,
        after.next_serial == before.next_serial,
    ensures
        after.wf(),
{
    sessions::lemma_removed(before.sessions@, k);
    let (was, is) = (before.known(), after.known());
    assert forall|i: int| 0 <= i < is.len() implies (#[trigger] is[i]).serial < after.next_serial
        && inbox::orderly(is[i].inbox@) by {
        assert(is[i] == was[came_from(was.len(), k, i)]);
    }
    assert forall|i: int, j: int|
        #![trigger is[i], is[j]]
        0 <= i < j < is.len() implies is[i].serial != is[j].serial by {
        let (a, b) = (came_from(was.len(), k, i), came_from(was.len(), k, j));
        assert(is[i] == was[a] && is[j] == was[b]);
        assert(a != b);
        if a < b {
            assert(was[a].serial != was[b].serial);
        } else {
            assert(was[b].serial != was[a].serial);
        }
    }
}

/// All sessions can leave at once.
proof fn lemma_emptied(before: Daemon, after: Daemon)
    requires
        before.wf(),
        after.sessions@.len() == 0,
        after.departed@ == departed_with(before, before.sessions@),
        after.handovers == before.handovers,
        after.next_serial == before.next_serial,
    ensures
        after.wf(),
{
    let (was, is) = (before.known(), after.known());
    let n = before.sessions@.len() as int;
    let m = before.departed@.len() as int;
    assert forall|i: int| 0 <= i < is.len() implies (#[trigger] is[i]).serial < after.next_serial
        && inbox::orderly(is[i].inbox@) by {
        assert(is[i] == if i < m {
            was[n + i]
        } else {
            was[i - m]
        });
    }
    assert forall|i: int, j: int|
        #![trigger is[i], is[j]]
        0 <= i < j < is.len() implies is[i].serial != is[j].serial by {
        let a: int = if i < m {
            n + i
        } else {
            i - m
        };
        let b: int = if j < m {
            n + j
        } else {
            j - m
        };
        assert(is[i] == was[a] && is[j] == was[b]);
        if a < b {
            assert(was[a].serial != was[b].serial);
        } else {
            assert(was[b].serial != was[a].serial);
        }
    }
}

/// A session of the next number can join.
proof fn lemma_joined(before: Daemon, after: Daemon)
    requires
        before.wf(),
        before.next_serial < u64::MAX,
        after.sessions@ == before.sessions@.push(after.sessions@.last()),
        sessions::consistent(after.sessions@),
        after.sessions@.last().serial == before.next_serial,
        after.departed@ == before.departed@,
        after.handovers == before.handovers,
        after.next_serial == before.next_serial + 1,
    ensures
        after.wf(),
{
    let (was, is) = (before.known(), after.known());
    let n = before.sessions@.len() as int;
    assert forall|i: int| 0 <= i < is.len() implies (#[trigger] is[i]).serial < after.next_serial
        && inbox::orderly(is[i].inbox@) by {
        if i < n {
            assert(is[i] == was[i]);
        } else if i > n {
            assert(is[i] == was[i - 1]);
        } else {
            assert(is[i] == after.sessions@[n]);
        }
    }
    assert forall|i: int, j: int|
        #![trigger is[i], is[j]]
        0 <= i < j < is.len() implies is[i].serial != is[j].serial by {
        let a: int = if i < n {
            i
        } else {
            i - 1
        };
        let b: int = if j < n {
            j
        } else {
            j - 1
        };
        assert(i != n ==> is[i] == was[a]);
        assert(j != n ==> is[j] == was[b]);
        if i != n && j != n {
            assert(was[a].serial != was[b].serial);
        }
    }
}

/// Where a session stood that now stands at `j`, when of `all` known sessions
/// the one at `k` has ended.
pub open spec fn came_from(all: nat, k: int, j: int) -> int {
    if j < k {
        j
    } else if j < all - 1 {
        j + 1
    } else {
        k
    }
}

/// Sessions that change in nothing but what waits for them and the state of
/// their links stay in order.
pub proof fn lemma_same_sessions(before: Daemon, after: Daemon)
    requires
        before.wf(),
        after.same_sessions(before),
        forall|i: int|
            0 <= i < after.known().len() ==> inbox::orderly((#[trigger] after.known()[i]).inbox@),
    ensures
        after.wf(),
{
    let (was, is) = (before.known(), after.known());
    let (old_ones, new_ones) = (before.sessions@, after.sessions@);
    assert forall|i: int| 0 <= i < is.len() implies (#[trigger] is[i]).serial
        < after.next_serial by {
        assert(was[i].serial < before.next_serial);
    }
    assert forall|i: int, j: int|
        #![trigger is[i], is[j]]
        0 <= i < j < is.len() implies is[i].serial != is[j].serial by {
        assert(was[i].serial != was[j].serial);
    }
    assert forall|i: int, j: int|
        #![trigger new_ones[i], new_ones[j]]
        0 <= i < j < new_ones.len() implies new_ones[i].client_session_id@
        != new_ones[j].client_session_id@ by {
        assert(is[i] == new_ones[i] && is[j] == new_ones[j]);
        assert(was[i] == old_ones[i] && was[j] == old_ones[j]);
    }
    assert forall|i: int| 0 <= i < new_ones.len() implies inbox::orderly(
        (#[trigger] new_ones[i]).inbox@,
    ) by {
        assert(is[i] == new_ones[i]);
    }
}

impl Daemon {
    /// The sessions that are registered, and behind them those that ended and
    /// are still being handed over.
    pub open spec fn known(&self) -> Seq<Session> {
        self.sessions@ + self.departed@
    }

    /// No two sessions go by one id, every registration has a number of its own,
    /// every inbox is in order, and no session that ended is kept for nobody.
    pub open spec fn wf(&self) -> bool {
        &&& sessions::consistent(self.sessions@)
        &&& sessions::numbered(self.known(), self.next_serial)
        &&& forall|i: int|
            0 <= i < self.known().len() ==> inbox::orderly((#[trigger] self.known()[i]).inbox@)
        &&& self.handovers == 0 ==> self.departed@.len() == 0
    }

    /// Everything but the sessions is as in `other`.
    pub open spec fn same_but_for_sessions(&self, other: Daemon) -> bool {
        &&& self.gateway == other.gateway
        &&& self.started_at == other.started_at
        &&& self.github_login == other.github_login
        &&& self.display_name == other.display_name
    }

    /// The same sessions are registered and the same have ended as in `other`,
    /// whatever state they are in.
    pub open spec fn same_sessions(&self, other: Daemon) -> bool {
        &&& self.same_but_for_sessions(other)
        &&& self.handovers == other.handovers
        &&& self.next_serial == other.next_serial
        &&& self.sessions@.len() == other.sessions@.len()
        &&& self.departed@.len() == other.departed@.len()
        &&& forall|i: int|
            #![trigger self.known()[i]]
            0 <= i < self.known().len() ==> self.known()[i].serial == other.known()[i].serial
                && self.known()[i].client_session_id == other.known()[i].client_session_id
    }

    /// Where the session of that registration is: among those that are
    /// registered, or among those that ended.
    pub fn locate(&self, serial: u64) -> (r: Option<Place>)
        ensures
            match r {
                Some(Place::Registered(i)) => i < self.sessions@.len() && sessions::place_of(
                    self.known(),
                    serial,
                ) == Some(i as int),
                Some(Place::Departed(i)) => i < self.departed@.len() && sessions::place_of(
                    self.known(),
                    serial,
                ) == Some(self.sessions@.len() + i),
                None => sessions::place_of(self.known(), serial) is None,
            },
    {
        let ghost known = self.known();
        let ghost n = self.sessions@.len();
        let mut i: usize = self.departed.len();
        assert(known.take(n + i) =~= known);
        while i > 0
            invariant
                i <= self.departed@.len(),
                known == self.known(),
                n == self.sessions@.len(),
                sessions::place_of(known, serial) == sessions::place_of(known.take(n + i), serial),
            decreases i,
        {
            assert(known.take(n + i).drop_last() =~= known.take(n + i - 1));
            i = i - 1;
            assert(known[n + i] == self.departed@[i as int]);
            if self.departed[i].serial == serial {
                return Some(Place::Departed(i));
            }
        }
        let mut i: usize = self.sessions.len();
        while i > 0
            invariant
                i <= self.sessions@.len(),
                known == self.known(),
                sessions::place_of(known, serial) == sessions::place_of(
                    known.take(i as int),
                    serial,
                ),
            decreases i,
        {
            assert(known.take(i as int).drop_last() =~= known.take(i - 1));
            i = i - 1;
            assert(known[i as int] == self.sessions@[i as int]);
            if self.sessions[i].serial == serial {
                return Some(Place::Registered(i));
            }
        }
        None
    }

    /// Where the session of that id is.
    pub fn find(&self, client_session_id: &str) -> (r: Option<usize>)
        ensures
            match r {
                Some(i) => sessions::position(self.sessions@, client_session_id@) == Some(i as int) && i
                    < self.sessions@.len(),
                None => sessions::position(self.sessions@, client_session_id@) is None,
            },
    {
        let mut i: usize = self.sessions.len();
        assert(self.sessions@.take(i as int) =~= self.sessions@);
        while i > 0
            invariant
                i <= self.sessions@.len(),
                sessions::position(self.sessions@, client_session_id@) == sessions::position(
                    self.sessions@.take(i as int),
                    client_session_id@,
                ),
            decreases i,
        {
            assert(self.sessions@.take(i as int).drop_last() =~= self.sessions@.take(i - 1));
            i = i - 1;
            if text::same(self.sessions[i].client_session_id.as_str(), client_session_id) {
                return Some(i);
            }
        }
        None
    }

    /// Whether a session was registered from that directory.
    fn is_from(&self, i: usize, dir: Option<&str>) -> (r: bool)
        requires
            i < self.sessions@.len(),
        ensures
            r == sessions::registered_from(self.sessions@[i as int], text::optional_str(dir)),
    {
        match dir {
            Some(dir) => path::same_place(self.sessions[i].cwd.as_str(), dir),
            None => false,
        }
    }

    /// Whether some session was registered from that directory.
    fn any_from(&self, dir: Option<&str>) -> (r: bool)
        ensures
            r == sessions::some_registered_from(self.sessions@, text::optional_str(dir)),
    {
        let mut i: usize = 0;
        while i < self.sessions.len()
            invariant
                i <= self.sessions@.len(),
                forall|j: int|
                    0 <= j < i ==> !sessions::registered_from(
                        #[trigger] self.sessions@[j],
                        text::optional_str(dir),
                    ),
            decreases self.sessions@.len() - i,
        {
            if self.is_from(i, dir) {
                return true;
            }
            i = i + 1;
        }
        false
    }

    /// The sessions that a request from a directory speaks for, the newest
    /// first: those registered from there, or every session when none was. The
    /// directory has its symbolic links resolved.
    pub fn sessions_for(&self, dir: Option<&str>) -> (r: Vec<usize>)
        ensures
            r@.map_values(|i: usize| i as int) == sessions::speaking_for(
                self.sessions@,
                text::optional_str(dir),
            ),
            forall|k: int| 0 <= k < r@.len() ==> #[trigger] r@[k] < self.sessions@.len(),
    {
        let ghost sessions = self.sessions@;
        let ghost from = text::optional_str(dir);
        let any = self.any_from(dir);
        let mut out: Vec<usize> = Vec::new();
        let mut k: usize = 0;
        assert(out@.map_values(|i: usize| i as int) =~= sessions::newest_first(sessions, from, 0));
        while k < self.sessions.len()
            invariant
                k <= self.sessions@.len(),
                sessions == self.sessions@,
                from == text::optional_str(dir),
                any == sessions::some_registered_from(sessions, from),
                out@.map_values(|i: usize| i as int) == sessions::newest_first(sessions, from, k as nat),
                forall|j: int| 0 <= j < out@.len() ==> #[trigger] out@[j] < k,
            decreases self.sessions@.len() - k,
        {
            if !any || self.is_from(k, dir) {
                let ghost order = out@.map_values(|i: usize| i as int);
                let mut p: usize = out.len();
                assert(order.take(p as int) =~= order);
                assert(order.skip(p as int) =~= Seq::empty());
                assert(sessions::placed(sessions, order.take(p as int), k as int) + order.skip(p as int)
                    =~= sessions::placed(sessions, order, k as int));
                while p > 0 && self.sessions[k].started_at.is_after(
                    &self.sessions[out[p - 1]].started_at,
                )
                    invariant
                        p <= out@.len(),
                        k < self.sessions@.len(),
                        sessions == self.sessions@,
                        order == out@.map_values(|i: usize| i as int),
                        forall|j: int| 0 <= j < out@.len() ==> #[trigger] out@[j] < k,
                        sessions::placed(sessions, order.take(p as int), k as int) + order.skip(p as int)
                            == sessions::placed(sessions, order, k as int),
                    decreases p,
                {
                    let ghost head = order.take(p as int);
                    assert(head.drop_last() =~= order.take(p - 1));
                    assert(head.last() == out@[p - 1] as int);
                    assert(sessions::placed(sessions, head.drop_last(), k as int).push(head.last())
                        + order.skip(p as int) =~= sessions::placed(sessions, order.take(p - 1), k as int)
                        + order.skip(p - 1));
                    p = p - 1;
                }
                let ghost head = order.take(p as int);
                assert(p > 0 ==> head.last() == out@[p - 1] as int);
                assert(sessions::placed(sessions, head, k as int) == head.push(k as int));
                let ghost was = out@;
                out.insert(p, k);
                assert(out@.map_values(|i: usize| i as int) =~= head.push(k as int)
                    + order.skip(p as int));
                assert forall|j: int| 0 <= j < out@.len() implies #[trigger] out@[j] < k + 1 by {
                    if j < p {
                        assert(out@[j] == was[j]);
                    } else if j > p {
                        assert(out@[j] == was[j - 1]);
                    }
                }
            }
            k = k + 1;
        }
        out
    }

    /// The one session that a request from a directory acts as.
    pub fn session_for(&self, dir: Option<&str>) -> (r: Option<usize>)
        ensures
            match r {
                Some(i) => i < self.sessions@.len() && i == sessions::speaking_for(
                    self.sessions@,
                    text::optional_str(dir),
                )[0],
                None => self.sessions@.len() == 0,
            },
    {
        let all = self.sessions_for(dir);
        if all.len() > 0 {
            assert(all@.map_values(|i: usize| i as int)[0] == all@[0] as int);
            Some(all[0])
        } else {
            proof {
                if self.sessions@.len() > 0 {
                    sessions::some_session_is_chosen(self.sessions@, text::optional_str(dir));
                    assert(all@.map_values(|i: usize| i as int).len() == 0);
                }
            }
            None
        }
    }
}

// ---------------------------------------------------------------------------
// Status
// ---------------------------------------------------------------------------

/// How many messages wait in all.
pub open spec fn pending(sessions: Seq<Session>) -> nat
    decreases sessions.len(),
{
    if sessions.len() == 0 {
        0
    } else {
        pending(sessions.drop_last()) + sessions.last().inbox@.len()
    }
}

/// A number of messages, as far as it can be counted.
pub open spec fn counted(n: nat) -> u64 {
    if n <= u64::MAX {
        n as u64
    } else {
        u64::MAX
    }
}

/// Every session's link is up.
pub open spec fn all_connected(sessions: Seq<Session>) -> bool {
    forall|i: int| 0 <= i < sessions.len() ==> (#[trigger] sessions[i]).connected
}

/// What the daemon reports about itself.
pub open spec fn report(daemon: Daemon) -> JsonView {
    let sessions = daemon.sessions@;
    let order = sessions::speaking_for(sessions, None);
    JsonView::object().entry(
        "session_id"@,
        if order.len() > 0 {
            JsonView::Text(model::hyphenated(sessions[order[0]].session_id.0))
        } else {
            JsonView::Null
        },
    ).entry("connected"@, JsonView::Bool(sessions.len() > 0 && all_connected(sessions))).entry(
        "sessions"@,
        JsonView::Array(order.map_values(|k: int| sessions[k].status_json())),
    ).entry("pending_messages"@, JsonView::Unsigned(counted(pending(sessions)))).entry(
        "started_at"@,
        JsonView::Text(daemon.started_at.text()),
    ).entry("version"@, JsonView::Text(crate::VERSION@))
}

impl Daemon {
    /// What the daemon reports about itself: its sessions, the newest first,
    /// and the id of the newest for callers that expect one.
    pub fn status(&self) -> (r: Json)
        ensures
            r@ == report(*self),
    {
        let ghost sessions = self.sessions@;
        let order = self.sessions_for(None);
        let ghost places = order@.map_values(|i: usize| i as int);
        let ghost all = places.map_values(|k: int| sessions[k].status_json());
        let mut listed = Json::array();
        let mut i: usize = 0;
        assert(all.take(0) =~= Seq::empty());
        while i < order.len()
            invariant
                i <= order@.len(),
                sessions == self.sessions@,
                places == order@.map_values(|i: usize| i as int),
                all == places.map_values(|k: int| sessions[k].status_json()),
                forall|k: int| 0 <= k < order@.len() ==> #[trigger] order@[k] < sessions.len(),
                listed@ == JsonView::Array(all.take(i as int)),
            decreases order@.len() - i,
        {
            assert(places[i as int] == order@[i as int] as int);
            listed = listed.item(self.sessions[order[i]].status());
            assert(all.take(i + 1) =~= all.take(i as int).push(
                sessions[places[i as int]].status_json(),
            ));
            i = i + 1;
        }
        assert(all.take(i as int) =~= all);
        let mut total: u64 = 0;
        let mut up = true;
        let mut k: usize = 0;
        while k < self.sessions.len()
            invariant
                k <= self.sessions@.len(),
                sessions == self.sessions@,
                total == counted(pending(sessions.take(k as int))),
                up == all_connected(sessions.take(k as int)),
            decreases self.sessions@.len() - k,
        {
            let ghost next = sessions.take(k + 1);
            assert(next.drop_last() =~= sessions.take(k as int));
            assert(next.last() == sessions[k as int]);
            total = total.saturating_add(self.sessions[k].inbox.len() as u64);
            proof {
                if up && self.sessions@[k as int].connected {
                    assert forall|i: int| 0 <= i < next.len() implies (
                    #[trigger] next[i]).connected by {
                        if i < k {
                            assert(sessions.take(k as int)[i].connected);
                        }
                    }
                } else if up {
                    assert(!next[k as int].connected);
                } else {
                    let i = choose|i: int|
                        0 <= i < k && !(#[trigger] sessions.take(k as int)[i]).connected;
                    assert(!next[i].connected);
                }
            }
            up = up && self.sessions[k].connected;
            k = k + 1;
        }
        assert(sessions.take(k as int) =~= sessions);
        let newest = if order.len() > 0 {
            assert(places[0] == order@[0] as int);
            Json::Text(self.sessions[order[0]].session_id.to_text())
        } else {
            Json::Null
        };
        Json::object().entry("session_id", newest).entry(
            "connected",
            Json::Bool(self.sessions.len() > 0 && up),
        ).entry("sessions", listed).entry("pending_messages", Json::Unsigned(total)).entry(
            "started_at",
            Json::Text(self.started_at.to_text()),
        ).entry("version", Json::text(crate::VERSION))
    }
}

// ---------------------------------------------------------------------------
// Sessions come and go
// ---------------------------------------------------------------------------

/// A session that is being registered.
#[derive(Debug)]
pub struct Joining {
    pub client_session_id: String,
    pub client: String,
    /// The directory, with its symbolic links resolved.
    pub cwd: String,
    pub checkout: Checkout,
}

/// A session that is registered.
#[derive(Debug)]
pub struct Joined {
    /// Which registration it is.
    pub serial: u64,
    /// The session as JSON.
    pub description: Json,
    /// How often to heartbeat, in seconds, when the session is new and its link
    /// has to be kept up from now on.
    pub heartbeat_secs: Option<u64>,
}

/// A session that is over.
#[derive(Debug)]
pub struct Ended {
    /// Which registration it was.
    pub serial: u64,
    /// What the gateway is told.
    pub call: HttpCall,
}

/// What the gateway is told about a session.
pub open spec fn registration_body(daemon: Daemon, joining: Joining) -> JsonView {
    let checkout = joining.checkout@;
    JsonView::object().entry("client"@, JsonView::Text(joining.client@)).entry(
        "client_version"@,
        JsonView::Text(crate::VERSION@),
    ).entry("client_session_id"@, JsonView::Text(joining.client_session_id@)).entry(
        "project"@,
        json::text_or_null(checkout.project),
    ).entry("repository"@, json::text_or_null(checkout.repository)).entry(
        "branch"@,
        json::text_or_null(checkout.branch),
    ).entry("email"@, json::text_or_null(checkout.email)).entry(
        "github_login"@,
        json::text_or_null(text::optional(daemon.github_login)),
    ).entry("display_name"@, json::text_or_null(text::optional(daemon.display_name)))
}

/// How often to heartbeat: as often as the gateway says, and once a second at
/// most.
pub open spec fn heartbeat_of(registered: SessionRegistered) -> u64 {
    if registered.heartbeat_interval_secs < 1 {
        1
    } else {
        registered.heartbeat_interval_secs
    }
}

/// A session as it is when it has just been registered.
pub open spec fn fresh(
    session: Session,
    serial: u64,
    joining: Joining,
    registered: SessionRegistered,
    started_at: Timestamp,
) -> bool {
    &&& session.serial == serial
    &&& session.client_session_id@ == joining.client_session_id@
    &&& session.session_id == registered.session_id
    &&& session.client@ == joining.client@
    &&& session.cwd@ == joining.cwd@
    &&& session.checkout == joining.checkout
    &&& session.started_at == started_at
    &&& session.inbox@.len() == 0
    &&& !session.connected
}

impl Daemon {
    /// The description of a session that is registered already.
    pub fn registered(&self, client_session_id: &str) -> (r: Option<Json>)
        ensures
            match sessions::position(self.sessions@, client_session_id@) {
                Some(i) => r is Some && r->0@ == self.sessions@[i].json(),
                None => r is None,
            },
    {
        match self.find(client_session_id) {
            Some(i) => Some(self.sessions[i].describe()),
            None => None,
        }
    }

    /// The request that registers a session with the gateway.
    pub fn registration(&self, joining: &Joining) -> (r: HttpCall)
        ensures
            r@ == http::post_of("/v1/sessions"@, registration_body(*self, *joining)),
    {
        let checkout = &joining.checkout;
        let body = Json::object().entry("client", Json::text(joining.client.as_str())).entry(
            "client_version",
            Json::text(crate::VERSION),
        ).entry("client_session_id", Json::text(joining.client_session_id.as_str())).entry(
            "project",
            Json::optional(&checkout.project),
        ).entry("repository", Json::optional(&checkout.repository)).entry(
            "branch",
            Json::optional(&checkout.branch),
        ).entry("email", Json::optional(&checkout.email)).entry(
            "github_login",
            Json::optional(&self.github_login),
        ).entry("display_name", Json::optional(&self.display_name));
        self.gateway.register_session(body)
    }

    /// Take a session in that the gateway has registered, as of a point in
    /// time. One that is there already stays as it is: a second hook for the
    /// same id was faster. There has to be a number left for it.
    pub fn take_in(
        &mut self,
        joining: Joining,
        registered: SessionRegistered,
        started_at: Timestamp,
    ) -> (r: Joined)
        requires
            old(self).wf(),
            old(self).next_serial < u64::MAX,
        ensures
            final(self).wf(),
            final(self).same_but_for_sessions(*old(self)),
            final(self).departed@ == old(self).departed@,
            final(self).handovers == old(self).handovers,
            match sessions::position(old(self).sessions@, joining.client_session_id@) {
                Some(i) => {
                    &&& final(self).sessions@ == old(self).sessions@
                    &&& final(self).next_serial == old(self).next_serial
                    &&& r.serial == old(self).sessions@[i].serial
                    &&& r.description@ == old(self).sessions@[i].json()
                    &&& r.heartbeat_secs is None
                },
                None => {
                    &&& final(self).sessions@ == old(self).sessions@.push(
                        final(self).sessions@.last(),
                    )
                    &&& final(self).next_serial == old(self).next_serial + 1
                    &&& r.serial == old(self).next_serial
                    &&& fresh(
                        final(self).sessions@.last(),
                        r.serial,
                        joining,
                        registered,
                        started_at,
                    )
                    &&& r.description@ == final(self).sessions@.last().json()
                    &&& r.heartbeat_secs == Some(heartbeat_of(registered))
                },
            },
    {
        match self.find(joining.client_session_id.as_str()) {
            Some(i) => {
                return Joined {
                    serial: self.sessions[i].serial,
                    description: self.sessions[i].describe(),
                    heartbeat_secs: None,
                };
            },
            None => {},
        }
        let serial = self.next_serial;
        let ghost before = *self;
        let session = Session {
            serial,
            client_session_id: joining.client_session_id,
            session_id: registered.session_id,
            client: joining.client,
            cwd: joining.cwd,
            checkout: joining.checkout,
            started_at,
            inbox: Inbox::new(),
            connected: false,
        };
        let description = session.describe();
        proof {
            sessions::lemma_pushed(self.sessions@, session);
        }
        self.sessions.push(session);
        self.next_serial = serial + 1;
        proof {
            lemma_joined(before, *self);
        }
        let interval = registered.heartbeat_interval_secs;
        Joined {
            serial,
            description,
            heartbeat_secs: Some(
                if interval < 1 {
                    1
                } else {
                    interval
                },
            ),
        }
    }

    /// Take a session in that the gateway has registered, as of now.
    pub fn register(&mut self, joining: Joining, registered: SessionRegistered) -> (r: Joined)
        requires
            old(self).wf(),
            old(self).next_serial < u64::MAX,
        ensures
            final(self).wf(),
            final(self).same_but_for_sessions(*old(self)),
            final(self).departed@ == old(self).departed@,
            final(self).handovers == old(self).handovers,
            match sessions::position(old(self).sessions@, joining.client_session_id@) {
                Some(i) => {
                    &&& final(self).sessions@ == old(self).sessions@
                    &&& final(self).next_serial == old(self).next_serial
                    &&& r.serial == old(self).sessions@[i].serial
                    &&& r.description@ == old(self).sessions@[i].json()
                    &&& r.heartbeat_secs is None
                },
                None => {
                    &&& final(self).sessions@ == old(self).sessions@.push(
                        final(self).sessions@.last(),
                    )
                    &&& final(self).next_serial == old(self).next_serial + 1
                    &&& r.serial == old(self).next_serial
                    &&& fresh(
                        final(self).sessions@.last(),
                        r.serial,
                        joining,
                        registered,
                        final(self).sessions@.last().started_at,
                    )
                    &&& time::shown_by_the_clock(final(self).sessions@.last().started_at)
                    &&& r.description@ == final(self).sessions@.last().json()
                    &&& r.heartbeat_secs == Some(heartbeat_of(registered))
                },
            },
    {
        self.take_in(joining, registered, Timestamp::now())
    }

    /// The failure of a session that the gateway did not register.
    pub fn not_registered(cause: Failure) -> (r: Failure)
        ensures
            r@ == failure::caused("register this session with the gateway"@, cause@.in_full()),
    {
        Failure::because("register this session with the gateway", cause.full().as_str())
    }

    /// Take one session offline; the rest carry on. The gateway is to be told,
    /// when there was such a session.
    pub fn unregister(&mut self, client_session_id: &str) -> (r: Option<Ended>)
        requires
            old(self).wf(),
        ensures
            final(self).wf(),
            final(self).same_but_for_sessions(*old(self)),
            final(self).handovers == old(self).handovers,
            final(self).next_serial == old(self).next_serial,
            match sessions::position(old(self).sessions@, client_session_id@) {
                Some(i) => {
                    &&& final(self).sessions@ == old(self).sessions@.remove(i)
                    &&& final(self).departed@ == departed_with(
                        *old(self),
                        seq![old(self).sessions@[i]],
                    )
                    &&& r is Some
                    &&& r->0.serial == old(self).sessions@[i].serial
                    &&& r->0.call@ == client::end_call(old(self).sessions@[i].session_id)
                },
                None => {
                    &&& final(self).sessions@ == old(self).sessions@
                    &&& final(self).departed@ == old(self).departed@
                    &&& r is None
                },
            },
    {
        match self.find(client_session_id) {
            Some(i) => {
                let ghost before = *self;
                let session = self.sessions.remove(i);
                let ended = Ended {
                    serial: session.serial,
                    call: self.gateway.end_session(session.session_id),
                };
                if self.handovers > 0 {
                    self.departed.push(session);
                }
                proof {
                    assert(self.departed@ =~= departed_with(
                        before,
                        seq![before.sessions@[i as int]],
                    ));
                    lemma_departed(before, *self, i as int);
                }
                Some(ended)
            },
            None => None,
        }
    }

    /// Take every session offline. The gateway is to be told about each.
    pub fn shutdown(&mut self) -> (r: Vec<HttpCall>)
        requires
            old(self).wf(),
        ensures
            final(self).wf(),
            final(self).sessions@.len() == 0,
            final(self).departed@ == departed_with(*old(self), old(self).sessions@),
            final(self).handovers == old(self).handovers,
            final(self).next_serial == old(self).next_serial,
            final(self).same_but_for_sessions(*old(self)),
            r@.map_values(|call: HttpCall| call@) == old(self).sessions@.map_values(
                |s: Session| client::end_call(s.session_id),
            ),
    {
        let ghost all = self.sessions@.map_values(|s: Session| client::end_call(s.session_id));
        let mut calls: Vec<HttpCall> = Vec::new();
        let mut i: usize = 0;
        assert(calls@.map_values(|call: HttpCall| call@) =~= all.take(0));
        while i < self.sessions.len()
            invariant
                i <= self.sessions@.len(),
                *self == *old(self),
                all == self.sessions@.map_values(|s: Session| client::end_call(s.session_id)),
                calls@.map_values(|call: HttpCall| call@) == all.take(i as int),
            decreases self.sessions@.len() - i,
        {
            let ghost was = calls@;
            let call = self.gateway.end_session(self.sessions[i].session_id);
            let ghost view = call@;
            calls.push(call);
            assert(calls@.map_values(|call: HttpCall| call@) =~= was.map_values(
                |call: HttpCall| call@,
            ).push(view));
            assert(all.take(i + 1) =~= all.take(i as int).push(view));
            i = i + 1;
        }
        assert(all.take(i as int) =~= all);
        let ghost before = *self;
        if self.handovers > 0 {
            self.departed.append(&mut self.sessions);
        } else {
            self.sessions.clear();
        }
        proof {
            assert(self.departed@ =~= departed_with(before, before.sessions@));
            lemma_emptied(before, *self);
        }
        calls
    }
}

// ---------------------------------------------------------------------------
// Searching
// ---------------------------------------------------------------------------

/// What a search asks for under one name: a text as it is, the texts of a list
/// with commas between them, and anything else as JSON. Nothing for null.
pub open spec fn query_text(value: JsonView) -> Seq<char> {
    match value {
        JsonView::Text(s) => s,
        JsonView::Array(items) => text::joined(json::texts_among(items), ","@),
        JsonView::Null => Seq::empty(),
        other => json::compact(json::stored(other)),
    }
}

/// `query`, with what a search asks for under `key`, when it asks for
/// something.
pub open spec fn with_key(
    query: Seq<(Seq<char>, Seq<char>)>,
    body: JsonView,
    key: Seq<char>,
) -> Seq<(Seq<char>, Seq<char>)> {
    if query_text(body.at(key)).len() > 0 {
        query.push((key, query_text(body.at(key))))
    } else {
        query
    }
}

/// The query of a search.
pub open spec fn search_query(body: JsonView) -> Seq<(Seq<char>, Seq<char>)> {
    let query = Seq::empty();
    let query = with_key(query, body, "q"@);
    let query = with_key(query, body, "project"@);
    let query = with_key(query, body, "repository"@);
    let query = with_key(query, body, "files"@);
    let query = with_key(query, body, "technologies"@);
    with_key(query, body, "limit"@)
}

/// A limit is sent in decimal.
pub proof fn a_limit_is_a_number(limit: u64)
    ensures
        query_text(JsonView::Unsigned(limit)) == text::decimal(limit as nat),
{
}

/// Add what a search asks for under `key`, when it asks for something.
fn add_key(query: &mut Vec<(String, String)>, body: &Json, key: &str)
    ensures
        http::query_view(final(query)@) == with_key(
            http::query_view(old(query)@),
            body@,
            key@,
        ),
{
    broadcast use {json::lemma_array, json::lemma_object};

    let ghost before = http::query_view(query@);
    let asked: String = match body.get(key) {
        Some(Json::Text(s)) => s.clone(),
        Some(Json::Array(items)) => text::join(&json::texts(items), ","),
        Some(Json::Null) => String::new(),
        Some(other) => other.to_text(),
        None => String::new(),
    };
    assert(asked@ =~= query_text(body@.at(key@)));
    if asked.as_str().unicode_len() > 0 {
        query.push((key.to_owned(), asked));
        assert(http::query_view(query@) =~= before.push((key@, asked@)));
    }
}

/// The query of a search.
pub fn query_of(body: &Json) -> (r: Vec<(String, String)>)
    ensures
        http::query_view(r@) == search_query(body@),
{
    let mut query: Vec<(String, String)> = Vec::new();
    assert(http::query_view(query@) =~= Seq::empty());
    add_key(&mut query, body, "q");
    add_key(&mut query, body, "project");
    add_key(&mut query, body, "repository");
    add_key(&mut query, body, "files");
    add_key(&mut query, body, "technologies");
    add_key(&mut query, body, "limit");
    query
}

// ---------------------------------------------------------------------------
// Requests
// ---------------------------------------------------------------------------

/// What is to be done about a request.
#[derive(Debug)]
pub enum Step {
    /// Answer with this.
    Answer(Json),
    /// Answer with this failure.
    Refuse(Failure),
    /// Register this session: look at its checkout, ask the gateway, and take
    /// it in.
    Register { client_session_id: String, client: String, cwd: String },
    /// Tell the gateway that a session is over, whether or not it listens, and
    /// answer that it ended.
    End { client_session_id: String, ended: Ended },
    /// Ask the gateway, and pass its answer on.
    Forward(HttpCall),
    /// Ask the gateway for memories.
    Search(HttpCall),
    /// Ask the gateway who is online.
    Online(HttpCall),
    /// Hand messages over.
    Inbox(Handover),
    /// Answer that the daemon stops, and stop.
    Stop,
}

/// A step, mathematically.
pub enum StepView {
    Answer(JsonView),
    Refuse(failure::FailureView),
    Register { client_session_id: Seq<char>, client: Seq<char>, cwd: Seq<char> },
    End { client_session_id: Seq<char>, serial: u64, call: http::HttpCallView },
    Forward(http::HttpCallView),
    Search(http::HttpCallView),
    Online(http::HttpCallView),
    Inbox(handover::HandoverView),
    Stop,
}

impl View for Step {
    type V = StepView;

    open spec fn view(&self) -> StepView {
        match self {
            Step::Answer(value) => StepView::Answer(value@),
            Step::Refuse(e) => StepView::Refuse(e@),
            Step::Register { client_session_id, client, cwd } => StepView::Register {
                client_session_id: client_session_id@,
                client: client@,
                cwd: cwd@,
            },
            Step::End { client_session_id, ended } => StepView::End {
                client_session_id: client_session_id@,
                serial: ended.serial,
                call: ended.call@,
            },
            Step::Forward(call) => StepView::Forward(call@),
            Step::Search(call) => StepView::Search(call@),
            Step::Online(call) => StepView::Online(call@),
            Step::Inbox(run) => StepView::Inbox(run@),
            Step::Stop => StepView::Stop,
        }
    }
}

/// The directory that a request comes from, if it says.
pub open spec fn origin(request: ipc::RequestView) -> Option<Seq<char>> {
    match request {
        ipc::RequestView::Inbox { limit: _, cwd } => cwd,
        ipc::RequestView::Remember(body) => body.at("cwd"@).as_text(),
        ipc::RequestView::Message(body) => body.at("cwd"@).as_text(),
        _ => None,
    }
}

/// A body that is sent to the gateway as a session: without the directory it
/// came from, and with the session in its place.
pub open spec fn signed(body: JsonView, session: AgentSessionId) -> JsonView {
    body.without("cwd"@).with("session_id"@, JsonView::Text(model::hyphenated(session.0)))
}

/// The answer to a request to end a session.
pub open spec fn ended_json(ended: bool) -> JsonView {
    JsonView::object().entry("ended"@, JsonView::Bool(ended))
}

/// What is to be done about a request that comes from `dir`.
pub open spec fn step_of(
    daemon: Daemon,
    request: ipc::RequestView,
    dir: Option<Seq<char>>,
) -> StepView {
    let sessions = daemon.sessions@;
    let speaker = sessions[sessions::speaking_for(sessions, dir)[0]].session_id;
    match request {
        ipc::RequestView::Status => StepView::Answer(report(daemon)),
        ipc::RequestView::Register { client_session_id, client, cwd } => match sessions::position(
            sessions,
            client_session_id,
        ) {
            Some(i) => StepView::Answer(sessions[i].json()),
            None => StepView::Register { client_session_id, client, cwd },
        },
        ipc::RequestView::Unregister { client_session_id } => match sessions::position(
            sessions,
            client_session_id,
        ) {
            Some(i) => StepView::End {
                client_session_id,
                serial: sessions[i].serial,
                call: client::end_call(sessions[i].session_id),
            },
            None => StepView::Answer(ended_json(false)),
        },
        ipc::RequestView::Inbox { limit, cwd: _ } => StepView::Inbox(
            handover::handover_of(sessions, limit, dir),
        ),
        ipc::RequestView::Remember(body) => if sessions.len() > 0 {
            StepView::Forward(http::post_of("/v1/memories"@, signed(body, speaker)))
        } else {
            StepView::Refuse(failure::plain(NO_SESSION@))
        },
        ipc::RequestView::Search(body) => StepView::Search(
            http::get_of("/v1/memories/search"@, search_query(body)),
        ),
        ipc::RequestView::Message(body) => if sessions.len() > 0 {
            StepView::Forward(http::post_of("/v1/messages"@, signed(body, speaker)))
        } else {
            StepView::Refuse(failure::plain(NO_SESSION@))
        },
        ipc::RequestView::Online => StepView::Online(http::get_of("/v1/sessions"@, Seq::empty())),
        ipc::RequestView::Shutdown => StepView::Stop,
    }
}

/// The sessions that are left once a request has been dispatched: all of them,
/// but for one that it ends.
pub open spec fn sessions_after(sessions: Seq<Session>, request: ipc::RequestView) -> Seq<Session> {
    match request {
        ipc::RequestView::Unregister { client_session_id } => match sessions::position(
            sessions,
            client_session_id,
        ) {
            Some(i) => sessions.remove(i),
            None => sessions,
        },
        _ => sessions,
    }
}

/// The sessions that ended and are still being handed over, once a request has
/// been dispatched.
pub open spec fn departed_after(daemon: Daemon, request: ipc::RequestView) -> Seq<Session> {
    match request {
        ipc::RequestView::Unregister { client_session_id } => match sessions::position(
            daemon.sessions@,
            client_session_id,
        ) {
            Some(i) => departed_with(daemon, seq![daemon.sessions@[i]]),
            None => daemon.departed@,
        },
        _ => daemon.departed@,
    }
}

/// What is sent as a session names that session, and does not say where on the
/// machine it came from.
pub proof fn what_is_sent_is_signed(
    entries: Seq<(Seq<char>, JsonView)>,
    session: AgentSessionId,
)
    ensures
        signed(JsonView::Object(entries), session).field("session_id"@) == Some(
            JsonView::Text(model::hyphenated(session.0)),
        ),
        signed(JsonView::Object(entries), session).field("cwd"@) is None,
{
    reveal_strlit("session_id");
    reveal_strlit("cwd");
    assert("session_id"@.len() != "cwd"@.len());
    let value = JsonView::Text(model::hyphenated(session.0));
    let bare = json::entries_without(entries, "cwd"@);
    let rest = json::entries_without(bare, "session_id"@);
    json::lemma_without(entries, "cwd"@);
    json::lemma_without(bare, "session_id"@);
    json::lemma_kept(bare, "session_id"@, "cwd"@);
    json::lemma_entry_pushed(rest, "session_id"@, value, "session_id"@);
    json::lemma_entry_pushed(rest, "session_id"@, value, "cwd"@);
}

/// The directory that a body says it comes from.
pub fn cwd_of(body: &Json) -> (r: Option<String>)
    ensures
        text::optional(r) == body@.at("cwd"@).as_text(),
{
    match body.text_at("cwd") {
        Some(dir) => Some(dir.to_owned()),
        None => None,
    }
}

/// The directory that a request comes from, if it says.
pub fn origin_of(request: &Request) -> (r: Option<String>)
    ensures
        text::optional(r) == origin(request@),
{
    match request {
        Request::Inbox { limit: _, cwd } => match cwd {
            Some(dir) => Some(dir.clone()),
            None => None,
        },
        Request::Remember(body) => cwd_of(body),
        Request::Message(body) => cwd_of(body),
        _ => None,
    }
}

/// A body that is sent to the gateway as a session.
fn sign(body: Json, session: AgentSessionId) -> (r: Json)
    ensures
        r@ == signed(body@, session),
{
    body.without("cwd").with("session_id", Json::Text(session.to_text()))
}

/// The answer to a request to end a session.
pub fn ended(any: bool) -> (r: Json)
    ensures
        r@ == ended_json(any),
{
    Json::object().entry("ended", Json::Bool(any))
}

/// The answer to a search, for the memories that the gateway found.
pub fn found_memories(memories: Json) -> (r: Json)
    ensures
        r@ == JsonView::object().entry("memories"@, memories@),
{
    Json::object().entry("memories", memories)
}

/// The answer to who is online.
pub fn online_agents(agents: &Vec<OnlineAgent>) -> (r: Json)
    ensures
        r@ == JsonView::object().entry(
            "agents"@,
            agent_protocol::agents_json(agents@.map_values(|a: OnlineAgent| a@)),
        ),
{
    Json::object().entry("agents", agent_protocol::agents_to_json(agents))
}

/// The answer of a daemon that stops.
pub fn stopping() -> (r: Json)
    ensures
        r@ == JsonView::object().entry("stopping"@, JsonView::Bool(true)),
{
    Json::object().entry("stopping", Json::Bool(true))
}

impl Daemon {
    /// Decide what is to be done about a request. `dir` is the directory that
    /// it comes from ([`origin_of`]), with its symbolic links resolved.
    pub fn dispatch(&mut self, request: Request, dir: Option<&str>) -> (r: Step)
        requires
            old(self).wf(),
        ensures
            r@ == step_of(*old(self), request@, text::optional_str(dir)),
            final(self).wf(),
            final(self).same_but_for_sessions(*old(self)),
            final(self).sessions@ == sessions_after(old(self).sessions@, request@),
            final(self).departed@ == departed_after(*old(self), request@),
            final(self).next_serial == old(self).next_serial,
            final(self).handovers == if request is Inbox {
                handover::one_more(old(self).handovers)
            } else {
                old(self).handovers
            },
    {
        match request {
            Request::Status => Step::Answer(self.status()),
            Request::Register { client_session_id, client, cwd } => match self.registered(
                client_session_id.as_str(),
            ) {
                Some(description) => Step::Answer(description),
                None => Step::Register { client_session_id, client, cwd },
            },
            Request::Unregister { client_session_id } => match self.unregister(
                client_session_id.as_str(),
            ) {
                Some(ended) => Step::End { client_session_id, ended },
                None => Step::Answer(ended(false)),
            },
            Request::Inbox { limit, cwd: _ } => Step::Inbox(self.handover(limit, dir)),
            Request::Remember(body) => match self.session_for(dir) {
                Some(i) => Step::Forward(
                    self.gateway.remember(sign(body, self.sessions[i].session_id)),
                ),
                None => Step::Refuse(Failure::new(NO_SESSION)),
            },
            Request::Search(body) => Step::Search(self.gateway.search(query_of(&body))),
            Request::Message(body) => match self.session_for(dir) {
                Some(i) => Step::Forward(
                    self.gateway.send_message(sign(body, self.sessions[i].session_id)),
                ),
                None => Step::Refuse(Failure::new(NO_SESSION)),
            },
            Request::Online => Step::Online(self.gateway.online()),
            Request::Shutdown => Step::Stop,
        }
    }
}

// ---------------------------------------------------------------------------
// What is asked is what is sent
// ---------------------------------------------------------------------------

/// The names that a search can ask under.
pub open spec fn searched_by(key: Seq<char>) -> bool {
    ||| key == "q"@
    ||| key == "project"@
    ||| key == "repository"@
    ||| key == "files"@
    ||| key == "technologies"@
    ||| key == "limit"@
}

proof fn lemma_with_key(
    query: Seq<(Seq<char>, Seq<char>)>,
    body: JsonView,
    name: Seq<char>,
    key: Seq<char>,
)
    ensures
        http::values_under(with_key(query, body, name), key) == if name == key && query_text(
            body.at(name),
        ).len() > 0 {
            http::values_under(query, key).push(query_text(body.at(name)))
        } else {
            http::values_under(query, key)
        },
{
    http::lemma_value_pushed(query, name, query_text(body.at(name)), key);
}

/// Under each of its names a search sends what it was asked, once: a text as it
/// is, the texts of a list with commas between them, a number in decimal. Under
/// a name that it was asked nothing under, it sends nothing.
pub proof fn a_search_sends_what_was_asked(
    body: Json,
    r: Vec<(String, String)>,
    key: Seq<char>,
)
    requires
        call_ensures(query_of, (&body,), r),
        searched_by(key),
    ensures
        ({
            let sent = http::values_under(http::query_view(r@), key);
            match body@.field(key) {
                None => sent.len() == 0,
                Some(JsonView::Null) => sent.len() == 0,
                Some(JsonView::Text(s)) => if s.len() > 0 {
                    sent == seq![s]
                } else {
                    sent.len() == 0
                },
                Some(JsonView::Unsigned(n)) => sent == seq![text::decimal(n as nat)],
                Some(JsonView::Bool(b)) => sent == seq![
                    if b {
                        "true"@
                    } else {
                        "false"@
                    },
                ],
                Some(JsonView::Array(items)) => {
                    let list = text::joined(json::texts_among(items), ","@);
                    if list.len() > 0 {
                        sent == seq![list]
                    } else {
                        sent.len() == 0
                    }
                },
                Some(other) => sent == seq![json::compact(json::stored(other))] || (sent.len() == 0
                    && json::compact(json::stored(other)).len() == 0),
            }
        }),
{
    reveal_strlit("q");
    reveal_strlit("project");
    reveal_strlit("repository");
    reveal_strlit("files");
    reveal_strlit("technologies");
    reveal_strlit("limit");
    assert("q"@.len() == 1);
    assert("project"@.len() == 7);
    assert("repository"@.len() == 10);
    assert("files"@.len() == 5);
    assert("technologies"@.len() == 12);
    assert("limit"@.len() == 5);
    assert("files"@[0] != "limit"@[0]);
    reveal_strlit("true");
    reveal_strlit("false");
    let q0 = Seq::<(Seq<char>, Seq<char>)>::empty();
    lemma_with_key(q0, body@, "q"@, key);
    let q1 = with_key(q0, body@, "q"@);
    lemma_with_key(q1, body@, "project"@, key);
    let q2 = with_key(q1, body@, "project"@);
    lemma_with_key(q2, body@, "repository"@, key);
    let q3 = with_key(q2, body@, "repository"@);
    lemma_with_key(q3, body@, "files"@, key);
    let q4 = with_key(q3, body@, "files"@);
    lemma_with_key(q4, body@, "technologies"@, key);
    let q5 = with_key(q4, body@, "technologies"@);
    lemma_with_key(q5, body@, "limit"@, key);
    let q6 = with_key(q5, body@, "limit"@);
    assert(http::query_view(r@) == q6);
    let asked = query_text(body@.at(key));
    let sent = http::values_under(q6, key);
    assert(sent =~= if asked.len() > 0 {
        seq![asked]
    } else {
        Seq::empty()
    });
    match body@.field(key) {
        Some(JsonView::Unsigned(n)) => {
            text::a_number_is_read_back(n as nat);
        },
        _ => {},
    }
}

/// Pairs of a search: under a name that was asked under, and never empty.
pub open spec fn all_asked(query: Seq<(Seq<char>, Seq<char>)>, body: JsonView) -> bool {
    forall|i: int|
        0 <= i < query.len() ==> searched_by((#[trigger] query[i]).0) && body.field(
            query[i].0,
        ) is Some && query[i].1.len() > 0
}

proof fn lemma_with_key_bounded(
    query: Seq<(Seq<char>, Seq<char>)>,
    body: JsonView,
    name: Seq<char>,
)
    requires
        all_asked(query, body),
        searched_by(name),
    ensures
        all_asked(with_key(query, body, name), body),
{
    let after = with_key(query, body, name);
    assert forall|i: int| 0 <= i < after.len() implies searched_by((#[trigger] after[i]).0)
        && body.field(after[i].0) is Some && after[i].1.len() > 0 by {
        if i < query.len() {
            assert(after[i] == query[i]);
        }
    }
}

/// A search sends nothing that it was not asked.
pub proof fn a_search_sends_nothing_else(body: Json, r: Vec<(String, String)>, i: int)
    requires
        call_ensures(query_of, (&body,), r),
        0 <= i < r@.len(),
    ensures
        searched_by(r@[i].0@),
        body@.field(r@[i].0@) is Some,
        r@[i].1@.len() > 0,
{
    let q0 = Seq::<(Seq<char>, Seq<char>)>::empty();
    lemma_with_key_bounded(q0, body@, "q"@);
    let q1 = with_key(q0, body@, "q"@);
    lemma_with_key_bounded(q1, body@, "project"@);
    let q2 = with_key(q1, body@, "project"@);
    lemma_with_key_bounded(q2, body@, "repository"@);
    let q3 = with_key(q2, body@, "repository"@);
    lemma_with_key_bounded(q3, body@, "files"@);
    let q4 = with_key(q3, body@, "files"@);
    lemma_with_key_bounded(q4, body@, "technologies"@);
    let q5 = with_key(q4, body@, "technologies"@);
    lemma_with_key_bounded(q5, body@, "limit"@);
    let q6 = with_key(q5, body@, "limit"@);
    assert(http::query_view(r@) == q6);
    assert(http::query_view(r@)[i] == (r@[i].0@, r@[i].1@));
}

/// The files that a search is about are told apart again by whoever reads the
/// query, when their names hold no comma.
pub proof fn the_files_of_a_search_are_read_back(files: Seq<Seq<char>>)
    requires
        files.len() > 0,
        forall|i: int, j: int|
            #![trigger files[i][j]]
            0 <= i < files.len() && 0 <= j < files[i].len() ==> files[i][j] != ',',
    ensures
        text::pieces(query_text(json::text_array(files)), ',') == files,
{
    json::lemma_texts_among(files);
    reveal_strlit(",");
    assert(","@ =~= seq![',']);
    text::what_was_joined_is_cut_again(files, ',');
}

/// What is sent as a session keeps everything else that it was given.
pub proof fn what_is_sent_is_otherwise_unchanged(
    body: JsonView,
    session: AgentSessionId,
    name: Seq<char>,
)
    requires
        body is Object,
        name != "cwd"@,
        name != "session_id"@,
    ensures
        signed(body, session).field(name) == body.field(name),
{
    let entries = body->Object_0;
    let bare = json::entries_without(entries, "cwd"@);
    let rest = json::entries_without(bare, "session_id"@);
    json::lemma_kept(entries, "cwd"@, name);
    json::lemma_kept(bare, "session_id"@, name);
    json::lemma_entry_pushed(
        rest,
        "session_id"@,
        JsonView::Text(model::hyphenated(session.0)),
        name,
    );
}

/// A request is posted for a session: with everything it was given, but in the
/// name of that session in place of the directory it came from.
pub open spec fn posted_for(
    call: http::HttpCallView,
    path: Seq<char>,
    body: JsonView,
    session: AgentSessionId,
) -> bool {
    &&& call.method == http::Method::Post
    &&& call.path == path
    &&& call.query.len() == 0
    &&& call.body is Some
    &&& call.body->0.field("session_id"@) == Some(JsonView::Text(model::hyphenated(session.0)))
    &&& call.body->0.field("cwd"@) is None
    &&& forall|name: Seq<char>|
        name != "cwd"@ && name != "session_id"@ ==> #[trigger] call.body->0.field(name)
            == body.field(name)
}

/// A session answers for a directory: it is one of those that a request from
/// there speaks for, and none of them started later.
pub open spec fn answers_for(sessions: Seq<Session>, dir: Option<Seq<char>>, k: int) -> bool {
    &&& 0 <= k < sessions.len()
    &&& sessions::registered_from(sessions[k], dir) || !sessions::some_registered_from(
        sessions,
        dir,
    )
    &&& forall|i: int|
        0 <= i < sessions.len() && (sessions::registered_from(sessions[i], dir)
            || !sessions::some_registered_from(sessions, dir)) ==> !(
        #[trigger] sessions[i]).started_at.later(sessions[k].started_at)
}

/// A memory is published, and a message is sent, as it was given, in the name
/// of the newest session of the directory it came from.
pub proof fn what_is_published_is_what_was_given(
    daemon: Daemon,
    body: JsonView,
    dir: Option<Seq<char>>,
)
    requires
        daemon.sessions@.len() > 0,
        body is Object,
    ensures
        exists|k: int|
            answers_for(daemon.sessions@, dir, k) && ({
                let session = (#[trigger] daemon.sessions@[k]).session_id;
                &&& step_of(daemon, ipc::RequestView::Remember(body), dir) matches
                    StepView::Forward(call) && posted_for(call, "/v1/memories"@, body, session)
                &&& step_of(daemon, ipc::RequestView::Message(body), dir) matches
                    StepView::Forward(call) && posted_for(call, "/v1/messages"@, body, session)
            }),
{
    let sessions = daemon.sessions@;
    let order = sessions::speaking_for(sessions, dir);
    sessions::some_session_is_chosen(sessions, dir);
    sessions::lemma_newest_first(sessions, dir, sessions.len());
    let k = order[0];
    assert(order.contains(k));
    let session = sessions[k].session_id;
    assert forall|i: int|
        0 <= i < sessions.len() && (sessions::registered_from(sessions[i], dir)
            || !sessions::some_registered_from(sessions, dir)) implies !(
    #[trigger] sessions[i]).started_at.later(sessions[k].started_at) by {
        sessions::the_newest_answers(sessions, dir, i);
    }
    assert(answers_for(sessions, dir, k));
    what_is_sent_is_signed(body->Object_0, session);
    assert forall|name: Seq<char>| name != "cwd"@ && name != "session_id"@ implies (
    #[trigger] signed(body, session).field(name)) == body.field(name) by {
        what_is_sent_is_otherwise_unchanged(body, session, name);
    }
}

/// Without a session nothing is published and nothing is sent.
pub proof fn nobody_speaks_without_a_session(
    daemon: Daemon,
    body: JsonView,
    dir: Option<Seq<char>>,
)
    requires
        daemon.sessions@.len() == 0,
    ensures
        step_of(daemon, ipc::RequestView::Remember(body), dir) is Refuse,
        step_of(daemon, ipc::RequestView::Message(body), dir) is Refuse,
{
}

/// What a search asks the gateway is the query of its body.
pub proof fn a_search_goes_to_the_gateway(
    daemon: Daemon,
    body: Json,
    dir: Option<Seq<char>>,
    query: Vec<(String, String)>,
)
    requires
        call_ensures(query_of, (&body,), query),
    ensures
        step_of(daemon, ipc::RequestView::Search(body@), dir) matches StepView::Search(call)
            && call.method == http::Method::Get && call.path == "/v1/memories/search"@
            && call.query == http::query_view(query@) && call.body is None,
{
}

/// A session that is registered is answered with what it is, and one that is
/// not is to be registered as it was asked; a session that ends is reported over
/// to the gateway under its own id, and one that is not there is not.
pub proof fn a_session_comes_and_goes_under_its_own_id(
    daemon: Daemon,
    id: Seq<char>,
    client: Seq<char>,
    cwd: Seq<char>,
    dir: Option<Seq<char>>,
    i: int,
)
    requires
        daemon.wf(),
        0 <= i < daemon.sessions@.len(),
    ensures
        ({
            let register = step_of(
                daemon,
                ipc::RequestView::Register { client_session_id: id, client, cwd },
                dir,
            );
            let end = step_of(daemon, ipc::RequestView::Unregister { client_session_id: id }, dir);
            let session = daemon.sessions@[i];
            &&& session.client_session_id@ == id ==> register == StepView::Answer(session.json())
            &&& session.client_session_id@ == id ==> (end matches StepView::End {
                client_session_id,
                serial,
                call,
            } && client_session_id == id && serial == session.serial && call.method
                == http::Method::Post && call.path == "/v1/sessions/"@ + model::hyphenated(
                session.session_id.0,
            ) + "/end"@)
            &&& (forall|j: int|
                0 <= j < daemon.sessions@.len() ==> (
                #[trigger] daemon.sessions@[j]).client_session_id@ != id) ==> {
                &&& register == StepView::Register { client_session_id: id, client, cwd }
                &&& end matches StepView::Answer(answer) && answer.field("ended"@) == Some(
                    JsonView::Bool(false),
                )
            }
        }),
{
    broadcast use json::lemma_field_of_entry;

    let sessions = daemon.sessions@;
    sessions::lemma_position(sessions, id);
    if sessions[i].client_session_id@ == id {
        let k = sessions::position(sessions, id)->0;
        if k < i {
            assert(sessions[k].client_session_id@ != sessions[i].client_session_id@);
        } else if i < k {
            assert(sessions[i].client_session_id@ != sessions[k].client_session_id@);
        }
        assert(k == i);
    }
}

/// What is not about one session is asked as it is.
pub proof fn the_other_requests_are_what_they_say(daemon: Daemon, dir: Option<Seq<char>>)
    ensures
        step_of(daemon, ipc::RequestView::Status, dir) is Answer,
        step_of(daemon, ipc::RequestView::Shutdown, dir) is Stop,
        step_of(daemon, ipc::RequestView::Online, dir) matches StepView::Online(call)
            && call.method == http::Method::Get && call.path == "/v1/sessions"@ && call.query.len()
            == 0,
{
}

// ---------------------------------------------------------------------------
// What is said of the daemon and its sessions
// ---------------------------------------------------------------------------

/// The gateway is told who registers, from what checkout, and nothing else.
#[verifier::spinoff_prover]
pub proof fn the_gateway_is_told_who_registers(
    daemon: Daemon,
    joining: Joining,
    r: HttpCall,
    name: Seq<char>,
)
    requires
        call_ensures(Daemon::registration, (&daemon, &joining), r),
    ensures
        r@.method == http::Method::Post,
        r@.path == "/v1/sessions"@,
        r@.body is Some,
        ({
            let body = r@.body->0;
            let checkout = joining.checkout@;
            &&& body.field("client"@) == Some(JsonView::Text(joining.client@))
            &&& body.field("client_version"@) == Some(JsonView::Text(crate::VERSION@))
            &&& body.field("client_session_id"@) == Some(
                JsonView::Text(joining.client_session_id@),
            )
            &&& told(body.field("project"@), checkout.project)
            &&& told(body.field("repository"@), checkout.repository)
            &&& told(body.field("branch"@), checkout.branch)
            &&& told(body.field("email"@), checkout.email)
            &&& told(body.field("github_login"@), text::optional(daemon.github_login))
            &&& told(body.field("display_name"@), text::optional(daemon.display_name))
            &&& name != "client"@ && name != "client_version"@ && name != "client_session_id"@
                && name != "project"@ && name != "repository"@ && name != "branch"@ && name
                != "email"@ && name != "github_login"@ && name != "display_name"@ ==> body.field(
                name,
            ) is None
        }),
{
    broadcast use json::lemma_field_of_entry;

    reveal_strlit("client");
    reveal_strlit("client_version");
    reveal_strlit("client_session_id");
    reveal_strlit("project");
    reveal_strlit("repository");
    reveal_strlit("branch");
    reveal_strlit("email");
    reveal_strlit("github_login");
    reveal_strlit("display_name");
    assert("client"@.len() == 6);
    assert("client_version"@.len() == 14);
    assert("client_session_id"@.len() == 17);
    assert("project"@.len() == 7);
    assert("repository"@.len() == 10);
    assert("branch"@.len() == 6);
    assert("email"@.len() == 5);
    assert("github_login"@.len() == 12);
    assert("display_name"@.len() == 12);
    assert("client"@[0] != "branch"@[0]);
    assert("github_login"@[0] != "display_name"@[0]);
}

/// A text that may be absent is told: as it is, or as null.
pub open spec fn told(field: Option<JsonView>, fact: Option<Seq<char>>) -> bool {
    field == Some(
        match fact {
            Some(s) => JsonView::Text(s),
            None => JsonView::Null,
        },
    )
}

/// What is kept of a session that has just been registered is what the gateway
/// was told of it, under the id that the gateway gave it.
pub proof fn what_is_kept_is_what_was_told(
    daemon: Daemon,
    joining: Joining,
    call: HttpCall,
    session: Session,
    serial: u64,
    registered: SessionRegistered,
    started_at: Timestamp,
    r: Json,
)
    requires
        call_ensures(Daemon::registration, (&daemon, &joining), call),
        fresh(session, serial, joining, registered, started_at),
        call_ensures(Session::describe, (&session,), r),
    ensures
        r@.field("client_session_id"@) == call@.body->0.field("client_session_id"@),
        r@.field("client"@) == call@.body->0.field("client"@),
        r@.field("repository"@) == call@.body->0.field("repository"@),
        r@.field("branch"@) == call@.body->0.field("branch"@),
        r@.field("session_id"@) == Some(
            JsonView::Text(model::hyphenated(registered.session_id.0)),
        ),
        r@.field("cwd"@) == Some(JsonView::Text(joining.cwd@)),
        r@.field("started_at"@) == Some(JsonView::Text(started_at.text())),
        session.serial == serial,
        session.inbox@.len() == 0,
        !session.connected,
{
    broadcast use json::lemma_field_of_entry;

    the_gateway_is_told_who_registers(daemon, joining, call, "cwd"@);
    reveal_strlit("client_session_id");
    reveal_strlit("session_id");
    reveal_strlit("client");
    reveal_strlit("cwd");
    reveal_strlit("repository");
    reveal_strlit("branch");
    reveal_strlit("started_at");
    assert("client_session_id"@.len() == 17);
    assert("session_id"@.len() == 10);
    assert("client"@.len() == 6);
    assert("cwd"@.len() == 3);
    assert("repository"@.len() == 10);
    assert("branch"@.len() == 6);
    assert("started_at"@.len() == 10);
    assert("session_id"@[0] != "repository"@[0]);
    assert("session_id"@[1] != "started_at"@[1]);
    assert("client"@[0] != "branch"@[0]);
    assert("repository"@[0] != "started_at"@[0]);
}

/// A heartbeat is due as often as the gateway says, and never more than once a
/// second.
pub proof fn a_heartbeat_is_due_as_the_gateway_says(registered: SessionRegistered)
    ensures
        heartbeat_of(registered) >= 1,
        registered.heartbeat_interval_secs >= 1 ==> heartbeat_of(registered)
            == registered.heartbeat_interval_secs,
{
}

/// As many messages wait as wait for the sessions together.
pub proof fn what_waits_adds_up(a: Seq<Session>, b: Seq<Session>, one: Session)
    ensures
        pending(a + b) == pending(a) + pending(b),
        pending(seq![one]) == one.inbox@.len(),
        pending(Seq::empty()) == 0,
    decreases b.len(),
{
    assert(seq![one].drop_last() =~= Seq::empty());
    assert(pending(Seq::<Session>::empty()) == 0);
    if b.len() == 0 {
        assert(a + b =~= a);
    } else {
        what_waits_adds_up(a, b.drop_last(), one);
        assert((a + b).drop_last() =~= a + b.drop_last());
        assert((a + b).last() == b.last());
    }
}

/// The status of a daemon lists every session once, the newest first, each with
/// its own status. It says how many messages wait in all, whether every session
/// is connected, and which session is the newest.
#[verifier::spinoff_prover]
pub proof fn the_status_lists_every_session(daemon: Daemon, r: Json)
    requires
        call_ensures(Daemon::status, (&daemon,), r),
    ensures
        ({
            let sessions = daemon.sessions@;
            let order = sessions::speaking_for(sessions, None);
            let listed = r@.at("sessions"@).items();
            &&& listed.len() == sessions.len()
            &&& order.len() == sessions.len()
            &&& forall|k: int|
                0 <= k < listed.len() ==> #[trigger] listed[k] == sessions[order[k]].status_json()
            &&& forall|i: int|
                0 <= i < sessions.len() ==> exists|k: int|
                    0 <= k < listed.len() && #[trigger] listed[k] == (
                    #[trigger] sessions[i]).status_json()
            &&& pending(sessions) <= u64::MAX ==> r@.field("pending_messages"@) == Some(
                JsonView::Unsigned(pending(sessions) as u64),
            )
            &&& r@.field("connected"@) == Some(
                JsonView::Bool(
                    sessions.len() > 0 && forall|i: int|
                        0 <= i < sessions.len() ==> (#[trigger] sessions[i]).connected,
                ),
            )
            &&& sessions.len() == 0 ==> r@.field("session_id"@) == Some(JsonView::Null)
            &&& sessions.len() > 0 ==> answers_for(sessions, None, order[0]) && r@.field(
                "session_id"@,
            ) == Some(JsonView::Text(model::hyphenated(sessions[order[0]].session_id.0)))
            &&& r@.field("started_at"@) == Some(JsonView::Text(daemon.started_at.text()))
            &&& r@.field("version"@) == Some(JsonView::Text(crate::VERSION@))
        }),
{
    broadcast use json::lemma_field_of_entry;

    reveal_strlit("session_id");
    reveal_strlit("connected");
    reveal_strlit("sessions");
    reveal_strlit("pending_messages");
    reveal_strlit("started_at");
    reveal_strlit("version");
    assert("session_id"@.len() == 10);
    assert("connected"@.len() == 9);
    assert("sessions"@.len() == 8);
    assert("pending_messages"@.len() == 16);
    assert("started_at"@.len() == 10);
    assert("version"@.len() == 7);
    assert("session_id"@[1] != "started_at"@[1]);
    let sessions = daemon.sessions@;
    let order = sessions::speaking_for(sessions, None);
    let listed = r@.at("sessions"@).items();
    sessions::everybody_is_asked_once(sessions);
    sessions::lemma_newest_first(sessions, None, sessions.len());
    assert(listed =~= order.map_values(|k: int| sessions[k].status_json()));
    assert forall|i: int| 0 <= i < sessions.len() implies exists|k: int|
        0 <= k < listed.len() && #[trigger] listed[k] == (#[trigger] sessions[i]).status_json() by {
        assert(order.contains(i));
        let k = choose|k: int| 0 <= k < order.len() && order[k] == i;
        assert(listed[k] == sessions[i].status_json());
    }
    if sessions.len() > 0 {
        assert(order.contains(order[0]));
        assert forall|i: int| 0 <= i < sessions.len() implies !(
        #[trigger] sessions[i]).started_at.later(sessions[order[0]].started_at) by {
            sessions::the_newest_answers(sessions, None, i);
        }
    }
}

/// What the gateway found, and who it says is online, is passed on.
pub proof fn what_the_gateway_says_is_passed_on(
    memories: Json,
    found: Json,
    agents: Vec<OnlineAgent>,
    online: Json,
    listed: Json,
    any: bool,
    over: Json,
    stops: Json,
)
    requires
        call_ensures(found_memories, (memories,), found),
        call_ensures(online_agents, (&agents,), online),
        call_ensures(agent_protocol::agents_to_json, (&agents,), listed),
        call_ensures(ended, (any,), over),
        call_ensures(stopping, (), stops),
    ensures
        found@.field("memories"@) == Some(memories@),
        online@.field("agents"@) == Some(listed@),
        over@.field("ended"@) == Some(JsonView::Bool(any)),
        stops@.field("stopping"@) == Some(JsonView::Bool(true)),
{
    broadcast use json::lemma_field_of_entry;

}

// ---------------------------------------------------------------------------
// Where a daemon listens, and whom it knows
// ---------------------------------------------------------------------------

/// A request ends the session that it names, and no other.
pub proof fn only_the_session_that_is_named_ends(
    sessions: Seq<Session>,
    request: ipc::RequestView,
    i: int,
)
    requires
        sessions::consistent(sessions),
        0 <= i < sessions.len(),
    ensures
        sessions_after(sessions, request).contains(sessions[i]) <==> !(request is Unregister
            && request->Unregister_client_session_id == sessions[i].client_session_id@),
        request !is Unregister ==> sessions_after(sessions, request) == sessions,
{
    if request is Unregister {
        let id = request->Unregister_client_session_id;
        sessions::lemma_position(sessions, id);
        match sessions::position(sessions, id) {
            Some(k) => {
                let left = sessions.remove(k);
                if i < k {
                    assert(left[i] == sessions[i]);
                    assert(sessions[i].client_session_id@ != sessions[k].client_session_id@);
                } else if i > k {
                    assert(left[i - 1] == sessions[i]);
                } else if left.contains(sessions[i]) {
                    let j = choose|j: int| 0 <= j < left.len() && left[j] == sessions[i];
                    let from: int = if j < k {
                        j
                    } else {
                        j + 1
                    };
                    assert(left[j] == sessions[from]);
                    if from < k {
                        assert(sessions[from].client_session_id@ != sessions[k].client_session_id@);
                    } else {
                        assert(sessions[k].client_session_id@ != sessions[from].client_session_id@);
                    }
                }
            },
            None => {
                assert(sessions.contains(sessions[i]));
            },
        }
    } else {
        assert(sessions.contains(sessions[i]));
    }
}

/// A session is found under its own id, and is described as it describes
/// itself; whoever is not registered is not found.
pub proof fn a_session_is_found_under_its_id(
    daemon: Daemon,
    id: &str,
    at: Option<usize>,
    said: Option<Json>,
    i: int,
    own: Json,
)
    requires
        daemon.wf(),
        call_ensures(Daemon::find, (&daemon, id), at),
        call_ensures(Daemon::registered, (&daemon, id), said),
        0 <= i < daemon.sessions@.len(),
        call_ensures(Session::describe, (&daemon.sessions@[i],), own),
    ensures
        daemon.sessions@[i].client_session_id@ == id@ <==> at is Some && at->0 == i,
        daemon.sessions@[i].client_session_id@ == id@ ==> said is Some && said->0@ == own@,
        at is Some <==> said is Some,
{
    let sessions = daemon.sessions@;
    sessions::lemma_position(sessions, id@);
    if sessions[i].client_session_id@ == id@ {
        let k = sessions::position(sessions, id@)->0;
        if i < k {
            assert(sessions[i].client_session_id@ != sessions[k].client_session_id@);
        }
    }
}

/// A request from a directory is answered as a session that was registered from
/// there, where there is one, and as the newest of those it could be; somebody
/// answers whenever anybody is registered.
pub proof fn a_directory_is_answered_by_its_newest_session(
    daemon: Daemon,
    dir: Option<&str>,
    r: Option<usize>,
)
    requires
        call_ensures(Daemon::session_for, (&daemon, dir), r),
    ensures
        r is Some <==> daemon.sessions@.len() > 0,
        r is Some ==> answers_for(daemon.sessions@, text::optional_str(dir), r->0 as int),
{
    let sessions = daemon.sessions@;
    let from = text::optional_str(dir);
    if r is Some {
        let order = sessions::speaking_for(sessions, from);
        sessions::some_session_is_chosen(sessions, from);
        sessions::lemma_newest_first(sessions, from, sessions.len());
        let k = order[0];
        assert(order.contains(k));
        assert forall|i: int|
            0 <= i < sessions.len() && (sessions::registered_from(sessions[i], from)
                || !sessions::some_registered_from(sessions, from)) implies !(
        #[trigger] sessions[i]).started_at.later(sessions[k].started_at) by {
            sessions::the_newest_answers(sessions, from, i);
        }
    }
}

/// A daemon starts with the credentials and the options that it was given, and
/// without any session; its socket is in the directory that it was given.
pub proof fn a_daemon_starts_as_it_was_told(
    credentials: Credentials,
    options: Options,
    started_at: Timestamp,
    r: Started,
    header: String,
)
    requires
        call_ensures(started, (&credentials, options, started_at), r),
        call_ensures(Credentials::header, (&credentials,), header),
    ensures
        r.daemon.sessions@.len() == 0,
        r.daemon.gateway.authorization@ == header@,
        credentials.gateway_url@.len() > 0 && credentials.gateway_url@.last() != '/'
            ==> r.daemon.gateway.base@ == credentials.gateway_url@,
        r.daemon.started_at == started_at,
        r.daemon.github_login == options.github_login,
        r.daemon.display_name == options.display_name,
        r.initial == options.initial,
        path::parent(r.socket@) == path::tidy(options.config_dir@),
{
    reveal_strlit("daemon.sock");
    path::a_file_is_where_it_was_put(options.config_dir@, "daemon.sock"@);
}

/// At which step of a plan a step is taken.
pub open spec fn taken_at(steps: Seq<BindStep>, k: int, step: BindStepView) -> bool {
    0 <= k < steps.len() && steps[k]@ == step
}

/// A socket is opened in a directory that is there, once a stale one is out of
/// the way, and is closed to others before anybody is answered; all of it is
/// about the socket that callers look for.
#[verifier::spinoff_prover]
pub proof fn a_socket_is_opened_in_order(config_dir: &str, r: Vec<BindStep>, socket: String)
    requires
        call_ensures(bind_plan, (config_dir,), r),
        call_ensures(ipc::socket_path, (config_dir,), socket),
    ensures
        exists|made: int, cleared: int, open: int, closed: int, served: int|
            {
                &&& made < cleared < open < closed < served
                &&& #[trigger] taken_at(r@, made, BindStepView::CreateDirectory(config_dir@))
                &&& #[trigger] taken_at(r@, cleared, BindStepView::ClearStale(socket@))
                &&& #[trigger] taken_at(r@, open, BindStepView::Listen(socket@))
                &&& #[trigger] taken_at(r@, closed, BindStepView::Restrict(socket@, 0o600))
                &&& #[trigger] taken_at(r@, served, BindStepView::Serve(socket@))
            },
{
    let views = r@.map_values(|step: BindStep| step@);
    let steps = bind_steps(config_dir@);
    assert(views.len() == 5);
    assert forall|k: int| 0 <= k < 5 implies r@[k]@ == #[trigger] steps[k] by {
        assert(views[k] == r@[k]@);
    }
    assert(steps[0] == BindStepView::CreateDirectory(config_dir@));
    assert(steps[1] == BindStepView::ClearStale(socket@));
    assert(steps[2] == BindStepView::Listen(socket@));
    assert(steps[3] == BindStepView::Restrict(socket@, 0o600));
    assert(steps[4] == BindStepView::Serve(socket@));
    assert(taken_at(r@, 0, BindStepView::CreateDirectory(config_dir@)));
    assert(taken_at(r@, 1, BindStepView::ClearStale(socket@)));
    assert(taken_at(r@, 2, BindStepView::Listen(socket@)));
    assert(taken_at(r@, 3, BindStepView::Restrict(socket@, 0o600)));
    assert(taken_at(r@, 4, BindStepView::Serve(socket@)));
}

/// A socket that somebody answers on is left alone, and so is one that is not
/// there.
pub proof fn a_socket_that_answers_is_left_alone(exists: bool, answers: bool, stale: bool)
    requires
        call_ensures(stale_socket, (exists, answers), stale),
    ensures
        answers ==> !stale,
        !exists ==> !stale,
        exists && !answers ==> stale,
{
}

/// A daemon that cannot listen says why and where; one that cannot close its
/// socket to others does not go on either. A stale socket that stays stops
/// nothing by itself.
pub proof fn a_daemon_that_cannot_listen_says_why(step: BindStep, cause: &str, r: Option<Failure>)
    requires
        call_ensures(BindStep::failure, (&step, cause), r),
    ensures
        r is None <==> step is ClearStale || step is Serve,
        r is Some ==> text::has_suffix(r->0@.in_full(), cause@),
        step is Listen ==> text::stands_in(step->Listen_0@, r->0.summary@),
{
    if r is Some {
        let told = r->0@.in_full();
        assert(told.skip(told.len() - cause@.len()) =~= cause@);
    }
    match step {
        BindStep::Listen(socket) => {
            assert(r->0@.summary == r->0.summary@);
            text::lemma_stands_in("bind "@, socket@, ". Is a daemon already running?"@);
        },
        _ => {},
    }
}

/// A session that the gateway did not take is told of with the whole of what
/// went wrong.
pub proof fn a_registration_that_failed_says_why(cause: Failure, r: Failure)
    requires
        call_ensures(Daemon::not_registered, (cause,), r),
    ensures
        text::has_suffix(r@.in_full(), cause@.in_full()),
{
    let told = r@.in_full();
    let why = cause@.in_full();
    assert(told.skip(told.len() - why.len()) =~= why);
}

/// Whoever says where a request comes from is believed, and a request that acts
/// as no session comes from nowhere.
pub proof fn a_request_comes_from_where_it_says(
    body: Json,
    said: Option<String>,
    request: Request,
    r: Option<String>,
    dir: Seq<char>,
)
    requires
        call_ensures(cwd_of, (&body,), said),
        call_ensures(origin_of, (&request,), r),
    ensures
        said is Some && said->0@ == dir <==> body@.field("cwd"@) == Some(JsonView::Text(dir)),
        request is Remember && request->Remember_0 == body ==> text::optional(r)
            == text::optional(said),
        request is Message && request->Message_0 == body ==> text::optional(r) == text::optional(
            said,
        ),
        request is Inbox ==> text::optional(r) == text::optional(request->Inbox_cwd),
        request !is Remember && request !is Message && request !is Inbox ==> r is None,
{
    assert(text::optional(said) == body@.at("cwd"@).as_text());
    assert(text::optional(r) == origin(request@));
}

// ---------------------------------------------------------------------------
// Sessions come and go, and leave the others alone
// ---------------------------------------------------------------------------

/// A session that is taken in is there afterwards, once, and its caller is told
/// what it is; everybody else stays where they are. Its link is to be kept up
/// from then on only if it is new.
#[verifier::spinoff_prover]
pub proof fn a_session_is_taken_in_once()
    ensures
        forall|
            daemon: &mut Daemon,
            joining: Joining,
            registered: SessionRegistered,
            at: Timestamp,
            r: Joined,
        |
            daemon.wf() && daemon.next_serial < u64::MAX && #[trigger] call_ensures(
                Daemon::take_in,
                (daemon, joining, registered, at),
                r,
            ) ==> {
                let known = exists|i: int|
                    0 <= i < daemon.sessions@.len() && (
                    #[trigger] daemon.sessions@[i]).client_session_id@
                        == joining.client_session_id@;
                let last = final(daemon).sessions@.last();
                &&& known ==> final(daemon).sessions@ == daemon.sessions@ && r.heartbeat_secs is None
                &&& !known ==> {
                    &&& final(daemon).sessions@.len() == daemon.sessions@.len() + 1
                    &&& final(daemon).sessions@.drop_last() == daemon.sessions@
                    &&& last.client_session_id@ == joining.client_session_id@
                    &&& last.session_id == registered.session_id
                    &&& last.cwd@ == joining.cwd@
                    &&& last.client@ == joining.client@
                    &&& last.checkout == joining.checkout
                    &&& last.started_at == at
                    &&& last.inbox@.len() == 0
                    &&& !last.connected
                    &&& last.serial == r.serial
                    &&& r.heartbeat_secs is Some
                    &&& r.heartbeat_secs->0 >= 1
                }
                &&& final(daemon).departed@ == daemon.departed@
            },
{
    assert forall|
        daemon: &mut Daemon,
        joining: Joining,
        registered: SessionRegistered,
        at: Timestamp,
        r: Joined,
    |
        daemon.wf() && daemon.next_serial < u64::MAX && #[trigger] call_ensures(
            Daemon::take_in,
            (daemon, joining, registered, at),
            r,
        ) implies {
        let known = exists|i: int|
            0 <= i < daemon.sessions@.len() && (#[trigger] daemon.sessions@[i]).client_session_id@
                == joining.client_session_id@;
        let last = final(daemon).sessions@.last();
        &&& known ==> final(daemon).sessions@ == daemon.sessions@ && r.heartbeat_secs is None
        &&& !known ==> {
            &&& final(daemon).sessions@.len() == daemon.sessions@.len() + 1
            &&& final(daemon).sessions@.drop_last() == daemon.sessions@
            &&& last.client_session_id@ == joining.client_session_id@
            &&& last.session_id == registered.session_id
            &&& last.cwd@ == joining.cwd@
            &&& last.client@ == joining.client@
            &&& last.checkout == joining.checkout
            &&& last.started_at == at
            &&& last.inbox@.len() == 0
            &&& !last.connected
            &&& last.serial == r.serial
            &&& r.heartbeat_secs is Some
            &&& r.heartbeat_secs->0 >= 1
        }
        &&& final(daemon).departed@ == daemon.departed@
    } by {
        sessions::lemma_position(daemon.sessions@, joining.client_session_id@);
        assert(daemon.sessions@.push(final(daemon).sessions@.last()).drop_last()
            =~= daemon.sessions@);
    }
}

/// A session that ends is gone, and the gateway is told under its own id; one
/// that is not there ends nothing. Whoever else is registered stays.
#[verifier::spinoff_prover]
pub proof fn a_session_ends_alone()
    ensures
        forall|daemon: &mut Daemon, id: &str, r: Option<Ended>, i: int|
            daemon.wf() && #[trigger] call_ensures(Daemon::unregister, (daemon, id), r) && 0 <= i
                < daemon.sessions@.len() ==> {
                let session = #[trigger] daemon.sessions@[i];
                let named = session.client_session_id@ == id@;
                &&& final(daemon).sessions@.contains(session) <==> !named
                &&& named ==> r is Some && r->0.serial == session.serial && r->0.call@.method
                    == http::Method::Post && r->0.call@.path == "/v1/sessions/"@
                    + model::hyphenated(session.session_id.0) + "/end"@
                &&& named && daemon.handovers > 0 ==> final(daemon).departed@.contains(session)
                &&& r is None ==> final(daemon).sessions@ == daemon.sessions@
                &&& r is Some ==> final(daemon).sessions@.len() == daemon.sessions@.len() - 1
            },
{
    assert forall|daemon: &mut Daemon, id: &str, r: Option<Ended>, i: int|
        daemon.wf() && #[trigger] call_ensures(Daemon::unregister, (daemon, id), r) && 0 <= i
            < daemon.sessions@.len() implies {
        let session = #[trigger] daemon.sessions@[i];
        let named = session.client_session_id@ == id@;
        &&& final(daemon).sessions@.contains(session) <==> !named
        &&& named ==> r is Some && r->0.serial == session.serial && r->0.call@.method
            == http::Method::Post && r->0.call@.path == "/v1/sessions/"@ + model::hyphenated(
            session.session_id.0,
        ) + "/end"@
        &&& named && daemon.handovers > 0 ==> final(daemon).departed@.contains(session)
        &&& r is None ==> final(daemon).sessions@ == daemon.sessions@
        &&& r is Some ==> final(daemon).sessions@.len() == daemon.sessions@.len() - 1
    } by {
        let sessions = daemon.sessions@;
        let request = ipc::RequestView::Unregister { client_session_id: id@ };
        only_the_session_that_is_named_ends(sessions, request, i);
        sessions::lemma_position(sessions, id@);
        assert(final(daemon).sessions@ == sessions_after(sessions, request));
        if sessions[i].client_session_id@ == id@ {
            let k = sessions::position(sessions, id@)->0;
            if i < k {
                assert(sessions[i].client_session_id@ != sessions[k].client_session_id@);
            }
            if daemon.handovers > 0 {
                let left = daemon.departed@ + seq![sessions[k]];
                assert(left[daemon.departed@.len() as int] == sessions[i]);
            }
        }
    }
}

/// A daemon that stops reports every session over to the gateway, each under its
/// own id, and keeps none.
pub proof fn a_daemon_that_stops_ends_every_session()
    ensures
        forall|daemon: &mut Daemon, r: Vec<HttpCall>, i: int|
            #[trigger] call_ensures(Daemon::shutdown, (daemon,), r) && 0 <= i
                < daemon.sessions@.len() ==> {
                let session = #[trigger] daemon.sessions@[i];
                &&& final(daemon).sessions@.len() == 0
                &&& r@.len() == daemon.sessions@.len()
                &&& r@[i]@.method == http::Method::Post
                &&& r@[i]@.path == "/v1/sessions/"@ + model::hyphenated(session.session_id.0)
                    + "/end"@
            },
{
    assert forall|daemon: &mut Daemon, r: Vec<HttpCall>, i: int|
        #[trigger] call_ensures(Daemon::shutdown, (daemon,), r) && 0 <= i
            < daemon.sessions@.len() implies {
        let session = #[trigger] daemon.sessions@[i];
        &&& final(daemon).sessions@.len() == 0
        &&& r@.len() == daemon.sessions@.len()
        &&& r@[i]@.method == http::Method::Post
        &&& r@[i]@.path == "/v1/sessions/"@ + model::hyphenated(session.session_id.0) + "/end"@
    } by {
        let calls = r@.map_values(|call: HttpCall| call@);
        let ends = daemon.sessions@.map_values(|s: Session| client::end_call(s.session_id));
        assert(calls.len() == r@.len());
        assert(calls[i] == r@[i]@);
        assert(ends[i] == client::end_call(daemon.sessions@[i].session_id));
    }
}

/// What a request comes to is what is done about it, and a request that does
/// not end a session leaves them all as they are.
pub proof fn a_request_leaves_the_sessions_alone()
    ensures
        forall|daemon: &mut Daemon, request: Request, dir: Option<&str>, r: Step|
            daemon.wf() && #[trigger] call_ensures(Daemon::dispatch, (daemon, request, dir), r) ==> {
                &&& request !is Unregister ==> final(daemon).sessions@ == daemon.sessions@
                &&& request is Status ==> r is Answer
                &&& request is Search ==> r is Search
                &&& request is Online ==> r is Online
                &&& request is Inbox <==> r is Inbox
                &&& request is Shutdown <==> r is Stop
                &&& request is Remember || request is Message ==> (r is Forward
                    <==> daemon.sessions@.len() > 0)
                &&& request is Inbox && daemon.handovers < u64::MAX ==> final(daemon).handovers
                    == daemon.handovers + 1
                &&& request !is Inbox ==> final(daemon).handovers == daemon.handovers
            },
{
}

/// Nobody goes by that id.
pub open spec fn unknown(sessions: Seq<Session>, id: Seq<char>) -> bool {
    forall|j: int| 0 <= j < sessions.len() ==> (#[trigger] sessions[j]).client_session_id@ != id
}

/// Whoever is not registered is not found; they are to be registered as they
/// ask, and there is nothing of theirs to end.
pub proof fn whoever_is_not_registered_is_not_found(
    daemon: Daemon,
    id: &str,
    at: Option<usize>,
    said: Option<Json>,
    client: Seq<char>,
    cwd: Seq<char>,
    dir: Option<Seq<char>>,
)
    requires
        unknown(daemon.sessions@, id@),
        call_ensures(Daemon::find, (&daemon, id), at),
        call_ensures(Daemon::registered, (&daemon, id), said),
    ensures
        at is None,
        said is None,
        step_of(
            daemon,
            ipc::RequestView::Register { client_session_id: id@, client, cwd },
            dir,
        ) == (StepView::Register { client_session_id: id@, client, cwd }),
        step_of(daemon, ipc::RequestView::Unregister { client_session_id: id@ }, dir) matches
            StepView::Answer(answer) && answer.field("ended"@) == Some(JsonView::Bool(false)),
        sessions_after(
            daemon.sessions@,
            ipc::RequestView::Unregister { client_session_id: id@ },
        ) == daemon.sessions@,
{
    broadcast use json::lemma_field_of_entry;

    sessions::lemma_position(daemon.sessions@, id@);
}

/// A session that is not there does not end, and a daemon without sessions has
/// nothing to report when it stops.
pub proof fn nothing_ends_that_is_not_there()
    ensures
        forall|daemon: &mut Daemon, id: &str, r: Option<Ended>|
            unknown(daemon.sessions@, id@) && #[trigger] call_ensures(
                Daemon::unregister,
                (daemon, id),
                r,
            ) ==> r is None && final(daemon).sessions@ == daemon.sessions@
                && final(daemon).departed@ == daemon.departed@,
        forall|daemon: &mut Daemon, r: Vec<HttpCall>|
            #[trigger] call_ensures(Daemon::shutdown, (daemon,), r) ==> r@.len()
                == daemon.sessions@.len() && final(daemon).sessions@.len() == 0,
{
    assert forall|daemon: &mut Daemon, id: &str, r: Option<Ended>|
        unknown(daemon.sessions@, id@) && #[trigger] call_ensures(
            Daemon::unregister,
            (daemon, id),
            r,
        ) implies r is None && final(daemon).sessions@ == daemon.sessions@
        && final(daemon).departed@ == daemon.departed@ by {
        sessions::lemma_position(daemon.sessions@, id@);
    }
    assert forall|daemon: &mut Daemon, r: Vec<HttpCall>|
        #[trigger] call_ensures(Daemon::shutdown, (daemon,), r) implies r@.len()
        == daemon.sessions@.len() && final(daemon).sessions@.len() == 0 by {
        let calls = r@.map_values(|call: HttpCall| call@);
        let ends = daemon.sessions@.map_values(|s: Session| client::end_call(s.session_id));
        assert(calls.len() == r@.len());
        assert(ends.len() == daemon.sessions@.len());
    }
}

/// What is no object cannot be signed, and is sent as it is.
pub proof fn what_is_no_object_is_sent_as_it_is(body: JsonView, session: AgentSessionId)
    requires
        body !is Object,
    ensures
        signed(body, session) == body,
{
}

} // verus!
