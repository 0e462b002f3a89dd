//! One session's connection to the gateway: what it sends, what it makes of
//! what it receives, and when it tries again.
use vstd::prelude::*;
use vstd::string::*;

use crate::agent_protocol::{ClientFrame, MessageView, ServerFrame};
use crate::client;
use crate::daemon;
use crate::daemon::{Daemon, Place};
use crate::failure;
use crate::failure::Failure;
use crate::http::HttpCall;
use crate::model::AgentSessionId;
use crate::sessions;
use crate::sessions::Session;
use crate::text;

verus! {

// ---------------------------------------------------------------------------
// Trying again
// ---------------------------------------------------------------------------

/// How long to wait before the next attempt, in seconds, after so many that
/// failed in a row; the last wait repeats.
pub open spec fn backoff_secs(attempt: nat) -> u64 {
    if attempt == 0 {
        1
    } else if attempt == 1 {
        2
    } else if attempt == 2 {
        5
    } else if attempt == 3 {
        10
    } else if attempt == 4 {
        30
    } else {
        60
    }
}

/// The attempt from which on the wait stays the same.
pub const LAST_ATTEMPT: usize = 5;

/// `std::time::SystemTime`, a point of the machine's clock.
#[verifier::external_type_specification]
#[verifier::external_body]
pub struct ExSystemTime(std::time::SystemTime);

/// `std::time::SystemTime::now`: what the machine's clock shows.
#[verifier::external_body]
fn system_clock() -> std::time::SystemTime {
    std::time::SystemTime::now()
}

/// `std::time::SystemTime::duration_since` the start of 1970; none when the
/// clock shows an earlier point.
#[verifier::external_body]
fn since_epoch(now: &std::time::SystemTime) -> Option<core::time::Duration> {
    now.duration_since(std::time::UNIX_EPOCH).ok()
}

/// `core::time::Duration::subsec_nanos`: less than a whole second.
#[verifier::external_body]
fn subsec_nanos(duration: &core::time::Duration) -> (r: u32)
    ensures
        r < 1_000_000_000,
{
    duration.subsec_nanos()
}

/// The part of a delay that keeps a fleet from reconnecting in lockstep, in
/// milliseconds: up to a quarter of the delay, by the nanoseconds of the clock.
pub fn jitter_of(nanos: u64, base_secs: u64) -> (r: u64)
    requires
        base_secs * 250 + 1 <= u64::MAX,
    ensures
        r == nanos as int % (base_secs * 250 + 1),
        r <= base_secs * 250,
{
    nanos % (base_secs * 250 + 1)
}

/// The machine's clock was asked, and showed `now`; `elapsed` is what that is
/// from the start of 1970 on, if it is not before.
pub closed spec fn clock_showed(
    now: std::time::SystemTime,
    elapsed: Option<core::time::Duration>,
) -> bool {
    call_ensures(system_clock, (), now) && call_ensures(since_epoch, (&now,), elapsed)
}

/// A duration ends with so many nanoseconds behind its last whole second.
pub closed spec fn ends_with_nanos(duration: core::time::Duration, nanos: u32) -> bool {
    call_ensures(subsec_nanos, (&duration,), nanos)
}

/// The machine's clock was asked, and showed so many nanoseconds behind a whole
/// second; none, when it shows a point before 1970.
pub open spec fn clock_nanos(nanos: u64) -> bool {
    exists|now: std::time::SystemTime, elapsed: Option<core::time::Duration>| #[trigger]
        clock_showed(now, elapsed) && match elapsed {
            Some(duration) => nanos <= u32::MAX && ends_with_nanos(duration, nanos as u32),
            None => nanos == 0,
        }
}

/// Up to a quarter of the delay, in milliseconds, so that a fleet does not
/// reconnect in lockstep: which part of it, the nanoseconds of the clock say.
pub fn jitter_ms(base_secs: u64) -> (r: u64)
    requires
        base_secs * 250 + 1 <= u64::MAX,
    ensures
        exists|nanos: u64| #[trigger]
            clock_nanos(nanos) && nanos < 1_000_000_000 && r == nanos as int % (base_secs * 250
                + 1),
        r <= base_secs * 250,
{
    let now = system_clock();
    let elapsed = since_epoch(&now);
    let ghost told = elapsed;
    let nanos: u64 = match elapsed {
        Some(duration) => subsec_nanos(&duration) as u64,
        None => 0,
    };
    proof {
        assert(clock_showed(now, told));
        assert(clock_nanos(nanos));
    }
    jitter_of(nanos, base_secs)
}

/// How often a link has failed in a row, as far as that matters.
#[derive(Debug)]
pub struct Link {
    pub attempt: usize,
}

/// A link that has failed once more.
pub open spec fn one_more(attempt: nat) -> nat {
    if attempt < LAST_ATTEMPT {
        attempt + 1
    } else {
        LAST_ATTEMPT as nat
    }
}

/// How often a link has failed, as far as that matters, behind `failures` in a
/// row.
pub open spec fn after_failures(failures: nat) -> nat
    decreases failures,
{
    if failures == 0 {
        0
    } else {
        one_more(after_failures((failures - 1) as nat))
    }
}

/// The wait before the next attempt depends on how many failed in a row, and
/// on nothing else, however long the link stays down.
pub proof fn the_wait_follows_the_failures(failures: nat)
    ensures
        backoff_secs(after_failures(failures)) == backoff_secs(failures),
        after_failures(failures) == if failures < LAST_ATTEMPT {
            failures
        } else {
            LAST_ATTEMPT as nat
        },
    decreases failures,
{
    if failures > 0 {
        the_wait_follows_the_failures((failures - 1) as nat);
    }
}

/// The longer a link is down, the longer it waits, up to a minute.
pub proof fn the_wait_never_shrinks(earlier: nat, later: nat)
    requires
        earlier <= later,
    ensures
        1 <= backoff_secs(earlier) <= backoff_secs(later) <= 60,
{
}

/// The wait after so many attempts that failed in a row, in seconds.
pub fn backoff(attempt: usize) -> (r: u64)
    ensures
        r == backoff_secs(attempt as nat),
{
    match attempt {
        0 => 1,
        1 => 2,
        2 => 5,
        3 => 10,
        4 => 30,
        _ => 60,
    }
}

impl Link {
    /// A link that has not failed yet.
    pub fn new() -> (r: Link)
        ensures
            r.attempt == 0,
    {
        Link { attempt: 0 }
    }

    /// The link went down: how long to wait, in whole seconds. One that was
    /// closed cleanly starts over; it still reconnects, because the session is
    /// alive as long as it is registered.
    pub fn down(&mut self, clean: bool) -> (r: u64)
        ensures
            ({
                let attempt: nat = if clean {
                    0
                } else {
                    old(self).attempt as nat
                };
                &&& r == backoff_secs(attempt)
                &&& final(self).attempt == one_more(attempt)
            }),
    {
        if clean {
            self.attempt = 0;
        }
        let base = backoff(self.attempt);
        if self.attempt < LAST_ATTEMPT {
            self.attempt = self.attempt + 1;
        } else {
            self.attempt = LAST_ATTEMPT;
        }
        base
    }

    /// The link went down: how long to wait, in milliseconds.
    pub fn retry_after(&mut self, clean: bool) -> (r: u64)
        ensures
            ({
                let attempt: nat = if clean {
                    0
                } else {
                    old(self).attempt as nat
                };
                &&& exists|nanos: u64| #[trigger]
                    clock_nanos(nanos) && nanos < 1_000_000_000 && r == backoff_secs(attempt)
                        * 1000 + nanos as int % (backoff_secs(attempt) * 250 + 1)
                &&& backoff_secs(attempt) * 1000 <= r <= backoff_secs(attempt) * 1250
                &&& final(self).attempt == one_more(attempt)
            }),
    {
        let base = self.down(clean);
        base * 1000 + jitter_ms(base)
    }
}

// ---------------------------------------------------------------------------
// What happens on a connection
// ---------------------------------------------------------------------------

/// What was being done when a connection could not be made or kept.
pub const OPENING: &'static str = "open the agent connection";

pub const CREDENTIAL: &'static str = "credential";

pub const WRITING: &'static str = "write to the agent connection";

pub const READING: &'static str = "read from the agent connection";

/// Something that happened on a connection.
#[derive(Debug)]
pub enum LinkEvent {
    /// The session ended.
    Stopped,
    /// A heartbeat is due.
    HeartbeatDue,
    /// There is nothing more to read.
    Ended,
    /// Reading failed.
    Unreadable(String),
    /// A frame arrived, or a text that is none.
    Frame(Result<ServerFrame, String>),
    /// The transport asks whether anybody is there.
    Ping(Vec<u8>),
    /// The other side closes the connection.
    Closed,
    /// Anything else that a connection carries.
    Other,
}

/// What is to be done about it.
#[derive(Debug)]
pub enum LinkStep {
    /// Nothing.
    Stay,
    /// Send this frame.
    Send(ClientFrame),
    /// Answer the transport.
    Pong(Vec<u8>),
    /// Put this message into the session's inbox.
    Deliver(MessageView),
    /// Leave the connection; nothing went wrong.
    Close,
    /// Leave the connection; this went wrong.
    Fail(Failure),
}

/// The first frame on a connection: it binds the connection to a session.
pub fn opening(session_id: AgentSessionId) -> (r: ClientFrame)
    ensures
        r matches ClientFrame::Connect { session_id: bound, client_version } && bound == session_id
            && text::optional(client_version) == Some(crate::VERSION@),
{
    ClientFrame::Connect { session_id, client_version: Some(crate::VERSION.to_owned()) }
}

/// What is to be done about what happened on a connection. Only a fatal error
/// ends it: an error that is not, and a frame that is not understood, do not.
pub fn react(event: LinkEvent) -> (r: LinkStep)
    ensures
        match event {
            LinkEvent::Stopped | LinkEvent::Ended | LinkEvent::Closed => r is Close,
            LinkEvent::HeartbeatDue => r == LinkStep::Send(ClientFrame::Heartbeat),
            LinkEvent::Unreadable(e) => r is Fail && r->Fail_0@ == failure::caused(READING@, e@),
            LinkEvent::Frame(Ok(ServerFrame::Message(message))) => r == LinkStep::Deliver(message),
            LinkEvent::Frame(Ok(ServerFrame::Ping)) => r == LinkStep::Send(ClientFrame::Pong),
            LinkEvent::Frame(Ok(ServerFrame::Error { message: _, fatal })) => if fatal {
                r is Close
            } else {
                r is Stay
            },
            LinkEvent::Frame(_) => r is Stay,
            LinkEvent::Ping(payload) => r == LinkStep::Pong(payload),
            LinkEvent::Other => r is Stay,
        },
{
    match event {
        LinkEvent::Stopped | LinkEvent::Ended | LinkEvent::Closed => LinkStep::Close,
        LinkEvent::HeartbeatDue => LinkStep::Send(ClientFrame::Heartbeat),
        LinkEvent::Unreadable(e) => LinkStep::Fail(Failure::because(READING, e.as_str())),
        LinkEvent::Frame(Ok(frame)) => match frame {
            ServerFrame::Message(message) => LinkStep::Deliver(message),
            ServerFrame::Ping => LinkStep::Send(ClientFrame::Pong),
            ServerFrame::Connected { .. } => LinkStep::Stay,
            ServerFrame::HeartbeatAck { .. } => LinkStep::Stay,
            ServerFrame::Error { message: _, fatal } => if fatal {
                LinkStep::Close
            } else {
                LinkStep::Stay
            },
        },
        LinkEvent::Frame(Err(_)) => LinkStep::Stay,
        LinkEvent::Ping(payload) => LinkStep::Pong(payload),
        LinkEvent::Other => LinkStep::Stay,
    }
}

/// Two sessions are the same, but for the state of their links.
pub open spec fn same_but_for_link(a: Session, b: Session) -> bool {
    &&& a.serial == b.serial
    &&& a.client_session_id == b.client_session_id
    &&& a.session_id == b.session_id
    &&& a.client == b.client
    &&& a.cwd == b.cwd
    &&& a.checkout == b.checkout
    &&& a.started_at == b.started_at
    &&& a.inbox == b.inbox
}

impl Daemon {
    /// Note that a session's link is up, or down.
    pub fn set_connected(&mut self, serial: u64, connected: bool)
        requires
            old(self).wf(),
        ensures
            final(self).wf(),
            final(self).same_sessions(*old(self)),
            match sessions::place_of(old(self).known(), serial) {
                Some(i) => {
                    &&& final(self).known() == old(self).known().update(
                        i,
                        final(self).known()[i],
                    )
                    &&& same_but_for_link(final(self).known()[i], old(self).known()[i])
                    &&& final(self).known()[i].connected == connected
                },
                None => final(self).known() == old(self).known(),
            },
    {
        let ghost before = *self;
        let ghost was = self.known();
        match self.locate(serial) {
            Some(Place::Registered(k)) => {
                assert(was[k as int] == before.sessions@[k as int]);
                self.sessions[k].connected = connected;
                assert(self.known() =~= was.update(k as int, self.known()[k as int]));
            },
            Some(Place::Departed(k)) => {
                let ghost i = before.sessions@.len() + k;
                assert(was[i] == before.departed@[k as int]);
                self.departed[k].connected = connected;
                assert(self.known() =~= was.update(i, self.known()[i]));
            },
            None => {},
        }
        proof {
            let is = self.known();
            sessions::lemma_place(was, serial);
            assert forall|i: int| 0 <= i < is.len() implies (#[trigger] is[i]).serial
                == was[i].serial && is[i].client_session_id == was[i].client_session_id
                && is[i].inbox == was[i].inbox by {
                if sessions::place_of(was, serial) != Some(i) {
                    assert(is[i] == was[i]);
                }
            }
            daemon::lemma_same_sessions(before, *self);
        }
    }

    /// A heartbeat is due: the request that keeps a session's presence alive
    /// while its link is down. While the link is up, the heartbeat goes over
    /// it, and none is needed.
    pub fn keep_alive(&self, serial: u64) -> (r: Option<HttpCall>)
        ensures
            match sessions::place_of(self.known(), serial) {
                Some(i) => if self.known()[i].connected {
                    r is None
                } else {
                    r is Some && r->0@ == client::heartbeat_call(self.known()[i].session_id)
                },
                None => r is None,
            },
    {
        let session = match self.locate(serial) {
            Some(Place::Registered(i)) => &self.sessions[i],
            Some(Place::Departed(i)) => &self.departed[i],
            None => {
                return None;
            },
        };
        if session.connected {
            None
        } else {
            Some(self.gateway.heartbeat(session.session_id))
        }
    }
}

/// A connection is left when the session ends, when the other side is gone and
/// when the gateway says that it is over, and for no other reason. Every message
/// that arrives is delivered, and everybody who asks is answered.
pub proof fn a_connection_ends_for_a_reason(event: LinkEvent, r: LinkStep)
    requires
        call_ensures(react, (event,), r),
    ensures
        r is Close || r is Fail <==> (event is Stopped || event is Ended || event is Closed
            || event is Unreadable || (event matches LinkEvent::Frame(Ok(ServerFrame::Error {
            message: _,
            fatal,
        })) && fatal)),
        r is Fail <==> event is Unreadable,
        r matches LinkStep::Deliver(message) ==> event == LinkEvent::Frame(
            Ok(ServerFrame::Message(message)),
        ),
        event matches LinkEvent::Frame(Ok(ServerFrame::Message(message))) ==> r
            == LinkStep::Deliver(message),
        event matches LinkEvent::Ping(payload) ==> r == LinkStep::Pong(payload),
        event is HeartbeatDue ==> r == LinkStep::Send(ClientFrame::Heartbeat),
        event == LinkEvent::Frame(Ok(ServerFrame::Ping)) ==> r == LinkStep::Send(
            ClientFrame::Pong,
        ),
{
}

/// A connection is bound to the session that it was opened for.
pub proof fn a_connection_is_bound_to_its_session(session_id: AgentSessionId, r: ClientFrame)
    requires
        call_ensures(opening, (session_id,), r),
    ensures
        r matches ClientFrame::Connect { session_id: bound, .. } && bound == session_id,
{
}

/// Presence is kept alive over HTTP exactly while the link of a session is down,
/// and under the id of that session.
pub proof fn presence_is_kept_alive_while_the_link_is_down(
    daemon: Daemon,
    i: int,
    r: Option<HttpCall>,
)
    requires
        daemon.wf(),
        0 <= i < daemon.sessions@.len(),
        call_ensures(Daemon::keep_alive, (&daemon, daemon.sessions@[i].serial), r),
    ensures
        r is Some <==> !daemon.sessions@[i].connected,
        r is Some ==> r->0@.path == "/v1/sessions/"@ + crate::model::hyphenated(
            daemon.sessions@[i].session_id.0,
        ) + "/heartbeat"@,
{
    assert(daemon.known()[i] == daemon.sessions@[i]);
    sessions::lemma_found(daemon.known(), daemon.next_serial, i);
}

/// The wait after so many failures is a second at first and a minute in the end.
/// Until then each is at least twice the one before, and the five before the
/// first minute take forty-eight seconds together.
pub proof fn the_waits_grow_to_a_minute(
    w0: u64,
    w1: u64,
    w2: u64,
    w3: u64,
    w4: u64,
    many: usize,
    later: u64,
    some: usize,
    short: u64,
    long: u64,
)
    requires
        call_ensures(backoff, (0usize,), w0),
        call_ensures(backoff, (1usize,), w1),
        call_ensures(backoff, (2usize,), w2),
        call_ensures(backoff, (3usize,), w3),
        call_ensures(backoff, (4usize,), w4),
        many >= 5,
        call_ensures(backoff, (many,), later),
        some < 5,
        call_ensures(backoff, (some,), short),
        call_ensures(backoff, ((some + 1) as usize,), long),
    ensures
        w0 == 1,
        later == 60,
        2 * short <= long <= 3 * short,
        w0 + w1 + w2 + w3 + w4 == 48,
{
}

/// What is added to a wait is at most a quarter of it, however fast the clock
/// runs.
pub proof fn the_clock_adds_at_most_a_quarter(nanos: u64, secs: u64, r: u64)
    requires
        secs * 250 + 1 <= u64::MAX,
        call_ensures(jitter_of, (nanos, secs), r),
    ensures
        r * 4 <= secs * 1000,
        nanos <= secs * 250 ==> r == nanos,
{
    if nanos <= secs * 250 {
        vstd::arithmetic::div_mod::lemma_small_mod(nanos as nat, (secs * 250 + 1) as nat);
    }
}

/// A link that goes down waits the longer the more often it failed, and starts
/// over once it was closed cleanly.
pub proof fn a_link_starts_over_once_it_was_closed_cleanly()
    ensures
        forall|link: &mut Link, clean: bool, r: u64|
            #[trigger] call_ensures(Link::down, (link, clean), r) ==> {
                &&& clean ==> r == 1 && final(link).attempt == 1
                &&& !clean && link.attempt == 0 ==> r == 1
                &&& !clean && link.attempt >= 5 ==> r == 60
                &&& !clean && link.attempt < 5 ==> final(link).attempt == link.attempt + 1
                &&& !clean && link.attempt >= 5 ==> final(link).attempt == 5
            },
{
}

/// Whether a link is up is noted of its own session, and nothing else changes.
pub proof fn a_link_is_noted_of_its_own_session()
    ensures
        forall|daemon: &mut Daemon, serial: u64, connected: bool, i: int|
            daemon.wf() && #[trigger] call_ensures(
                Daemon::set_connected,
                (daemon, serial, connected),
                (),
            ) && 0 <= i < daemon.known().len() ==> {
                let was = #[trigger] daemon.known()[i];
                let is = final(daemon).known()[i];
                &&& final(daemon).known().len() == daemon.known().len()
                &&& was.serial == serial ==> is.connected == connected
                &&& was.serial != serial ==> is == was
                &&& is.serial == was.serial && is.session_id == was.session_id && is.inbox
                    == was.inbox && is.cwd == was.cwd && is.client_session_id
                    == was.client_session_id
            },
{
    assert forall|daemon: &mut Daemon, serial: u64, connected: bool, i: int|
        daemon.wf() && #[trigger] call_ensures(
            Daemon::set_connected,
            (daemon, serial, connected),
            (),
        ) && 0 <= i < daemon.known().len() implies {
        let was = #[trigger] daemon.known()[i];
        let is = final(daemon).known()[i];
        &&& final(daemon).known().len() == daemon.known().len()
        &&& was.serial == serial ==> is.connected == connected
        &&& was.serial != serial ==> is == was
        &&& is.serial == was.serial && is.session_id == was.session_id && is.inbox == was.inbox
            && is.cwd == was.cwd && is.client_session_id == was.client_session_id
    } by {
        let known = daemon.known();
        sessions::lemma_place(known, serial);
        if known[i].serial == serial {
            sessions::lemma_found(known, daemon.next_serial, i);
        }
    }
}

} // verus!
