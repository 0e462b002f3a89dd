//! Handing messages over to whoever asks.
//!
//! A message is acknowledged to the gateway when it is handed over, and not
//! before: until then it is still owed, and a crash loses nothing.
use vstd::prelude::*;
use vstd::string::*;

use crate::agent_protocol;
use crate::agent_protocol::{Message, MessageView};
use crate::client;
use crate::client::Gateway;
use crate::daemon;
use crate::daemon::{Daemon, Place};
use crate::http;
use crate::http::HttpCall;
use crate::inbox;
use crate::inbox::Inbox;
use crate::json;
use crate::json::{Json, JsonView};
use crate::model;
use crate::model::AgentSessionId;
use crate::sessions;
use crate::sessions::Session;
use crate::text;

verus! {

/// How many messages are handed over when nobody says how many.
pub const DEFAULT_TAKE: usize = 50;

/// A session whose inbox is still to be emptied: the registration, whatever
/// becomes of it meanwhile.
#[derive(Debug)]
pub struct Waiting {
    pub serial: u64,
    pub session_id: AgentSessionId,
}

/// The handover of messages to one caller: the sessions still to be asked, how
/// many messages at most, and those taken so far.
#[derive(Debug)]
pub struct Handover {
    pub waiting: Vec<Waiting>,
    pub take: usize,
    pub taken: Vec<MessageView>,
}

/// A handover, mathematically.
pub struct HandoverView {
    pub waiting: Seq<(u64, AgentSessionId)>,
    pub take: nat,
    pub taken: Seq<Message>,
}

impl View for Handover {
    type V = HandoverView;

    open spec fn view(&self) -> HandoverView {
        HandoverView {
            waiting: self.waiting@.map_values(
                |w: Waiting| (w.serial, w.session_id),
            ),
            take: self.take as nat,
            taken: agent_protocol::messages(self.taken@),
        }
    }
}

/// The handover to a caller in that directory, before anything was taken.
pub open spec fn handover_of(
    sessions: Seq<Session>,
    limit: Option<usize>,
    dir: Option<Seq<char>>,
) -> HandoverView {
    HandoverView {
        waiting: sessions::speaking_for(sessions, dir).map_values(
            |k: int| (sessions[k].serial, sessions[k].session_id),
        ),
        take: match limit {
            Some(n) => n as nat,
            None => DEFAULT_TAKE as nat,
        },
        taken: Seq::empty(),
    }
}

/// What waits for the session of that registration; nothing, when there is
/// none.
pub open spec fn waiting_for(known: Seq<Session>, serial: u64) -> Seq<Message> {
    match sessions::place_of(known, serial) {
        Some(i) => known[i].inbox@,
        None => Seq::empty(),
    }
}

/// One handover more, as far as they can be counted.
pub open spec fn one_more(handovers: u64) -> u64 {
    if handovers < u64::MAX {
        (handovers + 1) as u64
    } else {
        handovers
    }
}

/// How many of `waiting` are handed over to somebody who took `taken` and takes
/// `take` in all.
pub open spec fn handed_over(take: nat, taken: nat, waiting: nat) -> nat {
    let room: nat = if take > taken {
        (take - taken) as nat
    } else {
        0
    };
    if room < waiting {
        room
    } else {
        waiting
    }
}

/// Two sessions are the same, but for what waits for them.
pub open spec fn same_but_for_inbox(a: Session, b: Session) -> bool {
    &&& a.serial == b.serial
    &&& a.client_session_id == b.client_session_id
    &&& a.session_id == b.session_id
    &&& a.client == b.client
    &&& a.cwd == b.cwd
    &&& a.checkout == b.checkout
    &&& a.started_at == b.started_at
    &&& a.connected == b.connected
}

/// `after` is `before`, but for what waits for the session of that
/// registration.
pub open spec fn inbox_changed(
    before: Seq<Session>,
    after: Seq<Session>,
    serial: u64,
    waiting: Seq<Message>,
) -> bool {
    match sessions::place_of(before, serial) {
        Some(i) => {
            &&& after.len() == before.len()
            &&& after == before.update(i, after[i])
            &&& same_but_for_inbox(after[i], before[i])
            &&& after[i].inbox@ == waiting
        },
        None => after == before,
    }
}

proof fn lemma_inbox_changed(before: Daemon, after: Daemon, serial: u64, waiting: Seq<Message>)
    requires
        before.wf(),
        after.same_but_for_sessions(before),
        after.handovers == before.handovers,
        after.next_serial == before.next_serial,
        after.sessions@.len() == before.sessions@.len(),
        after.departed@.len() == before.departed@.len(),
        inbox_changed(before.known(), after.known(), serial, waiting),
        inbox::orderly(waiting),
    ensures
        after.wf(),
        after.same_sessions(before),
{
    let (was, is) = (before.known(), after.known());
    sessions::lemma_place(was, serial);
    assert forall|i: int| 0 <= i < is.len() implies (#[trigger] is[i]).serial == was[i].serial
        && is[i].client_session_id == was[i].client_session_id && inbox::orderly(
        is[i].inbox@,
    ) by {
        if sessions::place_of(was, serial) != Some(i) {
            assert(is[i] == was[i]);
        }
    }
    daemon::lemma_same_sessions(before, after);
}

impl Daemon {
    /// Begin the handover to a caller in a directory. Until it is concluded,
    /// the sessions that it asks are kept, though they end.
    pub fn handover(&mut self, limit: Option<usize>, dir: Option<&str>) -> (r: Handover)
        requires
            old(self).wf(),
        ensures
            r@ == handover_of(old(self).sessions@, limit, text::optional_str(dir)),
            final(self).wf(),
            final(self).same_but_for_sessions(*old(self)),
            final(self).sessions@ == old(self).sessions@,
            final(self).departed@ == old(self).departed@,
            final(self).next_serial == old(self).next_serial,
            final(self).handovers == one_more(old(self).handovers),
    {
        if self.handovers < u64::MAX {
            self.handovers = self.handovers + 1;
        }
        let ghost sessions = self.sessions@;
        let order = self.sessions_for(dir);
        let ghost places = order@.map_values(|i: usize| i as int);
        let ghost all = places.map_values(
            |k: int| (sessions[k].serial, sessions[k].session_id),
        );
        let mut waiting: Vec<Waiting> = Vec::new();
        let mut i: usize = 0;
        assert(waiting@.map_values(|w: Waiting| (w.serial, w.session_id)) =~= all.take(
            0,
        ));
        while i < order.len()
            invariant
                i <= order@.len(),
                sessions == self.sessions@,
                places == order@.map_values(|i: usize| i as int),
                all == places.map_values(
                    |k: int| (sessions[k].serial, sessions[k].session_id),
                ),
                forall|k: int| 0 <= k < order@.len() ==> #[trigger] order@[k] < sessions.len(),
                waiting@.map_values(|w: Waiting| (w.serial, w.session_id)) == all.take(
                    i as int,
                ),
            decreases order@.len() - i,
        {
            let session = &self.sessions[order[i]];
            let ghost was = waiting@;
            assert(places[i as int] == order@[i as int] as int);
            waiting.push(
                Waiting {
                    serial: session.serial,
                    session_id: session.session_id,
                },
            );
            assert(waiting@.map_values(|w: Waiting| (w.serial, w.session_id))
                =~= was.map_values(|w: Waiting| (w.serial, w.session_id)).push(
                all[i as int],
            ));
            assert(all.take(i + 1) =~= all.take(i as int).push(all[i as int]));
            i = i + 1;
        }
        assert(all.take(i as int) =~= all);
        let r = Handover {
            waiting,
            take: match limit {
                Some(n) => n,
                None => DEFAULT_TAKE,
            },
            taken: Vec::new(),
        };
        assert(r@.taken =~= Seq::empty());
        r
    }

    /// Change what waits for one session: messages that arrived join it, and
    /// the oldest of what then waits are handed out, up to `room`.
    fn exchange(&mut self, serial: u64, arrived: Vec<MessageView>, room: usize) -> (r: Vec<
        MessageView,
    >)
        requires
            old(self).wf(),
        ensures
            final(self).wf(),
            final(self).same_sessions(*old(self)),
            ({
                let all = inbox::received_all(
                    waiting_for(old(self).known(), serial),
                    agent_protocol::messages(arrived@),
                );
                let n: int = if room < all.len() {
                    room as int
                } else {
                    all.len() as int
                };
                &&& agent_protocol::messages(r@) == all.take(n)
                &&& inbox_changed(old(self).known(), final(self).known(), serial, all.skip(n))
            }),
    {
        let ghost before = *self;
        let ghost was = self.known();
        match self.locate(serial) {
            Some(Place::Registered(i)) => {
                assert(was[i as int] == before.sessions@[i as int]);
                assert(inbox::orderly(was[i as int].inbox@));
                let r = swap(&mut self.sessions[i].inbox, arrived, room);
                proof {
                    assert(self.known() =~= was.update(i as int, self.known()[i as int]));
                    lemma_inbox_changed(
                        before,
                        *self,
                        serial,
                        self.sessions@[i as int].inbox@,
                    );
                }
                r
            },
            Some(Place::Departed(i)) => {
                let ghost k = before.sessions@.len() + i;
                assert(was[k] == before.departed@[i as int]);
                assert(inbox::orderly(was[k].inbox@));
                let r = swap(&mut self.departed[i].inbox, arrived, room);
                proof {
                    assert(self.known() =~= was.update(k, self.known()[k]));
                    lemma_inbox_changed(
                        before,
                        *self,
                        serial,
                        self.departed@[i as int].inbox@,
                    );
                }
                r
            },
            None => {
                let mut inbox = Inbox::new();
                assert(inbox@ =~= Seq::empty());
                swap(&mut inbox, arrived, room)
            },
        }
    }
}

/// Put messages that arrived into an inbox, and take the oldest of what then
/// waits out of it, up to `room`.
fn swap(inbox: &mut Inbox, arrived: Vec<MessageView>, room: usize) -> (r: Vec<MessageView>)
    requires
        inbox::orderly(old(inbox)@),
    ensures
        ({
            let all = inbox::received_all(old(inbox)@, agent_protocol::messages(arrived@));
            let n: int = if room < all.len() {
                room as int
            } else {
                all.len() as int
            };
            &&& agent_protocol::messages(r@) == all.take(n)
            &&& final(inbox)@ == all.skip(n)
            &&& inbox::orderly(all.skip(n))
        }),
{
    let ghost before = inbox@;
    let ghost came = agent_protocol::messages(arrived@);
    inbox.push_all(arrived);
    let held = inbox.len();
    let n: usize = if room < held {
        room
    } else {
        held
    };
    let r = inbox.drain(n);
    proof {
        inbox::lemma_received_all(before, came);
        inbox::draining_loses_nothing(inbox::received_all(before, came), n as int);
    }
    r
}

/// The requests that acknowledge messages to the gateway for a session.
pub open spec fn acknowledgements(handed: Seq<Message>, session: AgentSessionId) -> Seq<
    http::HttpCallView,
> {
    handed.map_values(|m: Message| client::ack_call(m.id, session))
}

/// What waits for the first of the waiting sessions, once what was found at the
/// gateway has joined it.
pub open spec fn gathered(known: Seq<Session>, run: HandoverView, found: Seq<Message>) -> Seq<
    Message,
> {
    inbox::received_all(waiting_for(known, run.waiting[0].0), found)
}

/// How much of that is handed over.
pub open spec fn handed(known: Seq<Session>, run: HandoverView, found: Seq<Message>) -> Seq<
    Message,
> {
    let all = gathered(known, run, found);
    all.take(handed_over(run.take, run.taken.len(), all.len()) as int)
}

/// The handover behind the first of the waiting sessions.
pub open spec fn advanced(
    known: Seq<Session>,
    run: HandoverView,
    found: Seq<Message>,
) -> HandoverView {
    let taken = run.taken + handed(known, run, found);
    HandoverView {
        waiting: if taken.len() >= run.take {
            Seq::empty()
        } else {
            run.waiting.skip(1)
        },
        take: run.take,
        taken,
    }
}

/// A handover never hands over more than was asked for.
pub proof fn a_handover_keeps_to_its_limit(
    known: Seq<Session>,
    run: HandoverView,
    found: Seq<Message>,
)
    requires
        run.taken.len() <= run.take,
    ensures
        advanced(known, run, found).taken.len() <= run.take,
{
}

/// Exactly what is handed over is acknowledged: each message that was taken in
/// a step has its acknowledgement, in the same order, and there is no other.
pub proof fn what_is_handed_over_is_acknowledged(
    known: Seq<Session>,
    run: HandoverView,
    found: Seq<Message>,
    i: int,
)
    requires
        run.waiting.len() > 0,
        run.taken.len() <= i < advanced(known, run, found).taken.len(),
    ensures
        ({
            let session = run.waiting[0].1;
            let sent = acknowledgements(handed(known, run, found), session);
            let taken = advanced(known, run, found).taken;
            &&& sent.len() == taken.len() - run.taken.len()
            &&& sent[i - run.taken.len()] == client::ack_call(taken[i].id, session)
        }),
{
    let out = handed(known, run, found);
    assert(advanced(known, run, found).taken[i] == out[i - run.taken.len()]);
}

/// Nothing is handed over twice from one inbox, and nothing is lost: what was
/// gathered is what is handed over, and behind it what still waits.
pub proof fn a_handover_splits_what_waits(
    daemon: Daemon,
    run: HandoverView,
    found: Seq<Message>,
)
    requires
        daemon.wf(),
        run.waiting.len() > 0,
    ensures
        ({
            let all = gathered(daemon.known(), run, found);
            let out = handed(daemon.known(), run, found);
            &&& all == out + all.skip(out.len() as int)
            &&& forall|i: int|
                #![trigger out[i]]
                0 <= i < out.len() ==> !inbox::holds(all.skip(out.len() as int), out[i].id)
        }),
{
    let known = daemon.known();
    let serial = run.waiting[0].0;
    let before = waiting_for(known, serial);
    sessions::lemma_place(known, serial);
    assert(inbox::orderly(before)) by {
        match sessions::place_of(known, serial) {
            Some(i) => {
                assert(inbox::orderly(known[i].inbox@));
            },
            None => {},
        }
    }
    inbox::lemma_received_all(before, found);
    let all = gathered(known, run, found);
    inbox::draining_loses_nothing(
        all,
        handed_over(run.take, run.taken.len(), all.len()) as int,
    );
}

/// Handing over what waits for one session changes nothing that waits for
/// another.
pub proof fn a_handover_leaves_the_others_alone(
    before: Daemon,
    after: Daemon,
    serial: u64,
    waiting: Seq<Message>,
    other: u64,
)
    requires
        before.wf(),
        after.wf(),
        inbox_changed(before.known(), after.known(), serial, waiting),
        serial != other,
    ensures
        waiting_for(after.known(), other) == waiting_for(before.known(), other),
{
    let (was, is) = (before.known(), after.known());
    sessions::lemma_place(was, serial);
    sessions::lemma_place(was, other);
    sessions::lemma_place(is, other);
    match sessions::place_of(was, serial) {
        Some(k) => {
            match sessions::place_of(was, other) {
                Some(i) => {
                    assert(is[i] == was[i]);
                    sessions::lemma_found(is, after.next_serial, i);
                },
                None => {
                    match sessions::place_of(is, other) {
                        Some(i) => {
                            assert(was[i].serial == other);
                        },
                        None => {},
                    }
                },
            }
        },
        None => {},
    }
}

/// A session that ends while messages are being handed over is handed over all
/// the same: what waits for it, and for every other session, waits on.
pub proof fn an_ended_session_is_still_handed_over(
    before: Daemon,
    after: Daemon,
    k: int,
    serial: u64,
)
    requires
        before.wf(),
        before.handovers > 0,
        0 <= k < before.sessions@.len(),
        after.sessions@ == before.sessions@.remove(k),
        after.departed@ == daemon::departed_with(before, seq![before.sessions@[k]]),
    ensures
        waiting_for(after.known(), serial) == waiting_for(before.known(), serial),
{
    let (was, is) = (before.known(), after.known());
    sessions::lemma_place(was, serial);
    sessions::lemma_place(is, serial);
    match sessions::place_of(is, serial) {
        Some(j) => {
            let i = daemon::came_from(was.len(), k, j);
            assert(is[j] == was[i]);
            sessions::lemma_found(was, before.next_serial, i);
        },
        None => {
            match sessions::place_of(was, serial) {
                Some(i) => {
                    let j: int = if i < k {
                        i
                    } else if i == k {
                        is.len() - 1
                    } else {
                        i - 1
                    };
                    assert(is[j] == was[i]);
                },
                None => {},
            }
        },
    }
}

/// A session that is registered under the id of one that ended is another
/// session: what waits for the one that ended is not handed to it, and nothing
/// that waits for anybody changes.
pub proof fn a_new_session_has_an_inbox_of_its_own(
    before: Daemon,
    after: Daemon,
    serial: u64,
)
    requires
        before.wf(),
        after.wf(),
        after.sessions@ == before.sessions@.push(after.sessions@.last()),
        after.sessions@.last().serial == before.next_serial,
        after.sessions@.last().inbox@.len() == 0,
        after.departed@ == before.departed@,
    ensures
        waiting_for(after.known(), serial) == waiting_for(before.known(), serial),
        waiting_for(after.known(), before.next_serial).len() == 0,
{
    let (was, is) = (before.known(), after.known());
    let n = before.sessions@.len() as int;
    assert(is[n] == after.sessions@.last());
    sessions::lemma_found(is, after.next_serial, n);
    sessions::lemma_place(was, serial);
    sessions::lemma_place(is, serial);
    match sessions::place_of(was, serial) {
        Some(i) => {
            let j: int = if i < n {
                i
            } else {
                i + 1
            };
            assert(is[j] == was[i]);
            sessions::lemma_found(is, after.next_serial, j);
        },
        None => {
            match sessions::place_of(is, serial) {
                Some(j) => {
                    if j < n {
                        assert(was[j] == is[j]);
                    } else if j > n {
                        assert(was[j - 1] == is[j]);
                    } else {
                        assert(waiting_for(is, serial) =~= waiting_for(was, serial));
                    }
                },
                None => {},
            }
        },
    }
}

/// The handovers `runs` follow one another, each behind the next session, with
/// what was found for it at the gateway and with the sessions as they are when
/// it is their turn, whatever happened to them meanwhile.
pub open spec fn follows(
    states: Seq<Seq<Session>>,
    runs: Seq<HandoverView>,
    founds: Seq<Seq<Message>>,
) -> bool {
    &&& states.len() == founds.len()
    &&& runs.len() == founds.len() + 1
    &&& forall|k: int|
        #![trigger founds[k]]
        0 <= k < founds.len() ==> {
            &&& runs[k].waiting.len() > 0
            &&& runs[k + 1] == advanced(states[k], runs[k], founds[k])
        }
}

/// Everything that waited for the first `n` of the sessions that were asked, one
/// after the other: for each, what waited when it was its turn, once what was
/// found for it had joined.
pub open spec fn everything(
    states: Seq<Seq<Session>>,
    waiting: Seq<(u64, AgentSessionId)>,
    founds: Seq<Seq<Message>>,
    n: nat,
) -> Seq<Message>
    decreases n,
{
    if n == 0 {
        Seq::empty()
    } else {
        everything(states, waiting, founds, (n - 1) as nat) + inbox::received_all(
            waiting_for(states[n - 1], waiting[n - 1].0),
            founds[n - 1],
        )
    }
}

proof fn lemma_so_far(
    states: Seq<Seq<Session>>,
    runs: Seq<HandoverView>,
    founds: Seq<Seq<Message>>,
    m: int,
)
    requires
        follows(states, runs, founds),
        0 <= m <= founds.len(),
        runs[0].taken.len() == 0,
    ensures
        m <= runs[0].waiting.len(),
        runs[m].take == runs[0].take,
        runs[m].waiting == if m > 0 && runs[m].taken.len() >= runs[0].take {
            Seq::empty()
        } else {
            runs[0].waiting.skip(m)
        },
        ({
            let all = everything(states, runs[0].waiting, founds, m as nat);
            runs[m].taken == all.take(handed_over(runs[0].take, 0, all.len()) as int)
        }),
    decreases m,
{
    let start = runs[0].waiting;
    let take = runs[0].take;
    if m == 0 {
        assert(start.skip(0) =~= start);
        assert(runs[0].taken =~= Seq::empty());
        assert(everything(states, start, founds, 0).take(0) =~= Seq::empty());
    } else {
        let k = m - 1;
        lemma_so_far(states, runs, founds, k);
        let found = founds[k];
        assert(runs[k].waiting.len() > 0);
        assert(runs[k].waiting == start.skip(k));
        assert(runs[k].waiting[0] == start[k]);
        let before = everything(states, start, founds, k as nat);
        let more = gathered(states[k], runs[k], found);
        let all = everything(states, start, founds, m as nat);
        assert(all == before + more);
        // The handover went on, so nothing of what came before was left behind.
        if k > 0 {
            assert(runs[k].taken.len() < take);
        }
        assert(before.take(before.len() as int) =~= before);
        assert(runs[k].taken =~= before);
        let h = handed_over(take, before.len(), more.len());
        assert(handed_over(take, 0, all.len()) == before.len() + h);
        assert(all.take((before.len() + h) as int) =~= before + more.take(h as int));
        assert(start.skip(k).skip(1) =~= start.skip(m));
    }
}

/// A handover that has come to its end has handed over the first of everything
/// that waited for the sessions it asked, as many as were wanted or as there
/// were. It asked no session twice, and it asked them all, unless it had enough
/// before.
pub proof fn a_handover_takes_the_first_of_everything(
    start: Daemon,
    states: Seq<Seq<Session>>,
    runs: Seq<HandoverView>,
    founds: Seq<Seq<Message>>,
    limit: Option<usize>,
    dir: Option<Seq<char>>,
)
    requires
        start.wf(),
        follows(states, runs, founds),
        runs[0] == handover_of(start.sessions@, limit, dir),
        runs.last().waiting.len() == 0,
    ensures
        ({
            let asked = runs[0].waiting;
            let all = everything(states, asked, founds, founds.len());
            let taken = runs.last().taken;
            &&& taken == all.take(handed_over(runs[0].take, 0, all.len()) as int)
            &&& taken.len() == if runs[0].take < all.len() {
                runs[0].take
            } else {
                all.len()
            }
            &&& taken == all.take(taken.len() as int)
            &&& taken.len() < runs[0].take ==> founds.len() == asked.len()
            &&& forall|i: int, j: int|
                #![trigger asked[i], asked[j]]
                0 <= i < j < asked.len() ==> asked[i].0 != asked[j].0
        }),
{
    let n = founds.len() as int;
    let sessions = start.sessions@;
    let order = sessions::speaking_for(sessions, dir);
    let asked = runs[0].waiting;
    sessions::lemma_newest_first(sessions, dir, sessions.len());
    sessions::lemma_once(sessions, dir, sessions.len());
    assert forall|i: int, j: int|
        #![trigger asked[i], asked[j]]
        0 <= i < j < asked.len() implies asked[i].0 != asked[j].0 by {
        assert(order.contains(order[i]));
        assert(order.contains(order[j]));
        let (a, b) = (order[i], order[j]);
        assert(a != b);
        let known = start.known();
        assert(known[a] == sessions[a] && known[b] == sessions[b]);
        if a < b {
            assert(known[a].serial != known[b].serial);
        } else {
            assert(known[b].serial != known[a].serial);
        }
    }
    lemma_so_far(states, runs, founds, n);
    assert(runs.last() == runs[n]);
}

impl Handover {
    /// The request for what the next session is owed: a message for an agent
    /// that is connected elsewhere is never pushed, only stored, and this is
    /// where it is found. None when no session is left to ask.
    pub fn poll(&self, gateway: &Gateway) -> (r: Option<HttpCall>)
        ensures
            self@.waiting.len() == 0 ==> r is None,
            self@.waiting.len() > 0 ==> r is Some && r->0@ == client::inbox_call(
                self@.waiting[0].1,
                self.take,
            ),
    {
        if self.waiting.len() == 0 {
            None
        } else {
            Some(gateway.inbox(self.waiting[0].session_id, self.take))
        }
    }

    /// What the caller is answered.
    pub fn answer(&self) -> (r: Json)
        ensures
            r@ == answer_json(self@.taken),
    {
        Json::object().entry("messages", agent_protocol::messages_to_json(&self.taken))
    }
}

/// The answer to a caller who was handed these messages.
pub open spec fn answer_json(taken: Seq<Message>) -> JsonView {
    JsonView::object().entry("messages"@, agent_protocol::messages_json(taken))
}

/// Put `more` behind `list`.
fn extend(list: &mut Vec<MessageView>, more: Vec<MessageView>)
    ensures
        agent_protocol::messages(final(list)@) == agent_protocol::messages(old(list)@)
            + agent_protocol::messages(more@),
{
    let mut more = more;
    let ghost before = agent_protocol::messages(list@);
    let ghost added = agent_protocol::messages(more@);
    list.append(&mut more);
    assert(agent_protocol::messages(list@) =~= before + added);
}

impl Daemon {
    /// Take what waits for the next session of a handover, with what was found
    /// at the gateway; nothing was found when it did not answer. What is handed
    /// over is acknowledged, and nothing else is: the gateway called it
    /// delivered when the bytes went out, but it has arrived only now.
    pub fn collect(&mut self, run: &mut Handover, found: Option<Vec<MessageView>>) -> (r: Vec<
        HttpCall,
    >)
        requires
            old(self).wf(),
            old(run)@.waiting.len() > 0,
        ensures
            final(self).wf(),
            final(self).same_sessions(*old(self)),
            ({
                let arrived = match found {
                    Some(list) => agent_protocol::messages(list@),
                    None => Seq::empty(),
                };
                let known = old(self).known();
                let out = handed(known, old(run)@, arrived);
                &&& final(run)@ == advanced(known, old(run)@, arrived)
                &&& r@.map_values(|call: HttpCall| call@) == acknowledgements(
                    out,
                    old(run)@.waiting[0].1,
                )
                &&& inbox_changed(
                    known,
                    final(self).known(),
                    old(run)@.waiting[0].0,
                    gathered(known, old(run)@, arrived).skip(out.len() as int),
                )
            }),
    {
        let ghost start = run@;
        let ghost known = self.known();
        let arrived: Vec<MessageView> = match found {
            Some(list) => list,
            None => Vec::new(),
        };
        let ghost came = agent_protocol::messages(arrived@);
        proof {
            if found is None {
                assert(came =~= Seq::empty());
            }
        }
        let room: usize = if run.take > run.taken.len() {
            run.take - run.taken.len()
        } else {
            0
        };
        let next = run.waiting.remove(0);
        assert(run@.waiting =~= start.waiting.skip(1));
        assert(start.waiting[0] == (next.serial, next.session_id));
        let drained = self.exchange(next.serial, arrived, room);
        let ghost out = handed(known, start, came);
        assert(agent_protocol::messages(drained@) == out);
        let mut calls: Vec<HttpCall> = Vec::new();
        let mut i: usize = 0;
        let ghost all = acknowledgements(out, next.session_id);
        assert(calls@.map_values(|call: HttpCall| call@) =~= all.take(0));
        while i < drained.len()
            invariant
                i <= drained@.len(),
                agent_protocol::messages(drained@) == out,
                all == acknowledgements(out, next.session_id),
                calls@.map_values(|call: HttpCall| call@) == all.take(i as int),
            decreases drained@.len() - i,
        {
            let ghost was = calls@;
            let call = self.gateway.acknowledge(drained[i].id, next.session_id);
            let ghost view = call@;
            calls.push(call);
            assert(out[i as int] == drained@[i as int]@);
            assert(calls@.map_values(|call: HttpCall| call@) =~= was.map_values(
                |call: HttpCall| call@,
            ).push(view));
            assert(all.take(i + 1) =~= all.take(i as int).push(view));
            i = i + 1;
        }
        assert(all.len() == drained@.len());
        assert(all.take(i as int) =~= all);
        extend(&mut run.taken, drained);
        assert(run@.taken =~= start.taken + out);
        if run.taken.len() >= run.take {
            run.waiting.clear();
            assert(run@.waiting =~= Seq::empty());
        }
        calls
    }

    /// A handover is over: what the caller is answered. When no other is going
    /// on, the sessions that ended meanwhile are forgotten.
    pub fn conclude(&mut self, run: Handover) -> (r: Json)
        requires
            old(self).wf(),
        ensures
            r@ == answer_json(run@.taken),
            final(self).wf(),
            final(self).same_but_for_sessions(*old(self)),
            final(self).sessions@ == old(self).sessions@,
            final(self).next_serial == old(self).next_serial,
            final(self).handovers == if old(self).handovers > 0 {
                old(self).handovers - 1
            } else {
                0
            },
            final(self).departed@ == if final(self).handovers > 0 {
                old(self).departed@
            } else {
                Seq::empty()
            },
    {
        let ghost before = *self;
        if self.handovers > 0 {
            self.handovers = self.handovers - 1;
        }
        if self.handovers == 0 {
            self.departed.clear();
            proof {
                let (was, is) = (before.known(), self.known());
                assert forall|i: int| 0 <= i < is.len() implies is[i] == was[i] by {}
            }
        }
        run.answer()
    }

    /// Take in a message that the gateway pushed over a session's link.
    pub fn deliver(&mut self, serial: u64, message: MessageView)
        requires
            old(self).wf(),
        ensures
            final(self).wf(),
            final(self).same_sessions(*old(self)),
            inbox_changed(
                old(self).known(),
                final(self).known(),
                serial,
                inbox::received(waiting_for(old(self).known(), serial), message@),
            ),
    {
        let mut arrived: Vec<MessageView> = Vec::new();
        let ghost before = waiting_for(self.known(), serial);
        arrived.push(message);
        let ghost one = agent_protocol::messages(arrived@);
        proof {
            assert(one =~= seq![message@]);
            assert(one.drop_last() =~= Seq::empty());
            assert(inbox::received_all(before, Seq::empty()) == before);
            assert(inbox::received_all(before, one) == inbox::received(before, message@));
        }
        let _ = self.exchange(serial, arrived, 0);
        proof {
            let all = inbox::received(before, message@);
            assert(all.skip(0) =~= all);
        }
    }
}

// ---------------------------------------------------------------------------
// What is handed over is what is shown
// ---------------------------------------------------------------------------

/// The caller is shown every message that was taken, each once and in order.
pub proof fn the_caller_is_shown_what_was_taken(run: Handover, r: Json, i: int)
    requires
        call_ensures(Handover::answer, (&run,), r),
        0 <= i < run.taken@.len(),
    ensures
        ({
            let shown = r@.at("messages"@).items();
            let message = run.taken@[i];
            &&& r@.at("messages"@) is Array
            &&& shown.len() == run.taken@.len()
            &&& shown[i].field("id"@) == Some(JsonView::Text(model::hyphenated(message.id.0)))
            &&& shown[i].field("content"@) == Some(JsonView::Text(message.content@))
            &&& shown[i].field("from"@) == Some(
                match message.from {
                    Some(name) => JsonView::Text(name@),
                    None => JsonView::Null,
                },
            )
        }),
{
    broadcast use json::lemma_field_of_entry;

    reveal_strlit("id");
    reveal_strlit("content");
    reveal_strlit("from");
    reveal_strlit("from_session_id");
    reveal_strlit("created_at");
    reveal_strlit("messages");
    assert("id"@.len() == 2);
    assert("content"@.len() == 7);
    assert("from"@.len() == 4);
    assert("from_session_id"@.len() == 15);
    assert("created_at"@.len() == 10);
    assert("messages"@.len() == 8);
}

/// Two messages that were taken are two items of the answer.
pub proof fn two_messages_taken_are_two_messages_shown(run: Handover, r: Json, i: int, j: int)
    requires
        call_ensures(Handover::answer, (&run,), r),
        0 <= i < run.taken@.len(),
        0 <= j < run.taken@.len(),
        run.taken@[i].id != run.taken@[j].id,
    ensures
        r@.at("messages"@).items()[i] != r@.at("messages"@).items()[j],
{
    the_caller_is_shown_what_was_taken(run, r, i);
    the_caller_is_shown_what_was_taken(run, r, j);
    model::two_identifiers_are_two_texts(run.taken@[i].id.0, run.taken@[j].id.0);
}

/// The answer to a handover that is concluded holds every message that was
/// taken, each once and in order: what was acknowledged is shown.
pub proof fn what_is_acknowledged_is_answered(
    known: Seq<Session>,
    run: HandoverView,
    found: Seq<Message>,
    i: int,
)
    requires
        run.waiting.len() > 0,
        0 <= i < handed(known, run, found).len(),
    ensures
        ({
            let message = handed(known, run, found)[i];
            let ack = acknowledgements(handed(known, run, found), run.waiting[0].1)[i];
            let taken = advanced(known, run, found).taken;
            let shown = answer_json(taken).at("messages"@).items();
            &&& shown.len() == taken.len()
            &&& shown[run.taken.len() + i].field("id"@) == Some(
                JsonView::Text(model::hyphenated(message.id.0)),
            )
            &&& shown[run.taken.len() + i].field("content"@) == Some(
                JsonView::Text(message.content),
            )
            &&& ack.method == http::Method::Post
            &&& ack.path == "/v1/messages/"@ + model::hyphenated(message.id.0) + "/ack"@
            &&& ack.body is Some
            &&& ack.body->0.field("session_id"@) == Some(
                JsonView::Text(model::hyphenated(run.waiting[0].1.0)),
            )
        }),
{
    broadcast use json::lemma_field_of_entry;

    reveal_strlit("id");
    reveal_strlit("content");
    reveal_strlit("from");
    reveal_strlit("from_session_id");
    reveal_strlit("created_at");
    reveal_strlit("messages");
    reveal_strlit("session_id");
    assert("id"@.len() == 2);
    assert("content"@.len() == 7);
    assert("from"@.len() == 4);
    assert("from_session_id"@.len() == 15);
    assert("created_at"@.len() == 10);
    assert("messages"@.len() == 8);
    assert("session_id"@.len() == 10);
    assert("created_at"@[0] != "session_id"@[0]);
    let out = handed(known, run, found);
    let taken = advanced(known, run, found).taken;
    assert(taken[run.taken.len() + i] == out[i]);
}

/// A handover asks for as many messages as its caller wants, and for fifty when
/// they do not say. It begins with nothing taken, and asks every session that
/// the caller speaks for.
pub proof fn a_handover_begins_with_what_is_wanted(
    sessions: Seq<Session>,
    limit: Option<usize>,
    dir: Option<Seq<char>>,
    i: int,
)
    requires
        0 <= i < sessions.len(),
    ensures
        ({
            let run = handover_of(sessions, limit, dir);
            &&& run.taken.len() == 0
            &&& limit matches Some(n) ==> run.take == n
            &&& limit is None ==> run.take == 50
            &&& sessions::registered_from(sessions[i], dir) || dir is None
                ==> run.waiting.contains((sessions[i].serial, sessions[i].session_id))
        }),
{
    let run = handover_of(sessions, limit, dir);
    if sessions::registered_from(sessions[i], dir) || dir is None {
        sessions::nobody_of_a_directory_is_passed_over(sessions, dir, i);
        let order = sessions::speaking_for(sessions, dir);
        let k = choose|k: int| 0 <= k < order.len() && order[k] == i;
        assert(run.waiting[k] == (sessions[i].serial, sessions[i].session_id));
    }
}

/// The gateway is asked what the next session is owed, and for no more than is
/// wanted.
pub proof fn the_next_session_is_asked_about(run: Handover, gateway: Gateway, r: Option<HttpCall>)
    requires
        call_ensures(Handover::poll, (&run, &gateway), r),
    ensures
        run.waiting@.len() == 0 <==> r is None,
        r is Some ==> {
            let call = r->0@;
            &&& call.method == http::Method::Get
            &&& call.path == "/v1/messages/inbox"@
            &&& http::values_under(call.query, "session_id"@) == seq![
                model::hyphenated(run.waiting@[0].session_id.0),
            ]
            &&& http::values_under(call.query, "limit"@) == seq![
                text::decimal(run.take as nat),
            ]
        },
{
    assert(run@.waiting.len() == run.waiting@.len());
    if run.waiting@.len() > 0 {
        assert(run@.waiting[0] == (run.waiting@[0].serial, run.waiting@[0].session_id));
        client::the_gateway_is_asked_about_one_session(run.waiting@[0].session_id, run.take);
    }
}

// ---------------------------------------------------------------------------
// What a handover leaves behind
// ---------------------------------------------------------------------------

/// A handover that begins is counted, and counted off when it ends. It changes
/// nobody who is registered; those who ended while it ran are forgotten with the
/// last of the handovers, and not before.
pub proof fn a_handover_is_counted_while_it_runs()
    ensures
        forall|daemon: &mut Daemon, limit: Option<usize>, dir: Option<&str>, r: Handover|
            #[trigger] call_ensures(Daemon::handover, (daemon, limit, dir), r) ==> {
                &&& daemon.handovers < u64::MAX ==> final(daemon).handovers == daemon.handovers + 1
                &&& final(daemon).handovers > 0
                &&& final(daemon).sessions@ == daemon.sessions@
                &&& final(daemon).departed@ == daemon.departed@
            },
        forall|daemon: &mut Daemon, run: Handover, r: Json|
            #[trigger] call_ensures(Daemon::conclude, (daemon, run), r) ==> {
                &&& daemon.handovers > 0 ==> final(daemon).handovers == daemon.handovers - 1
                &&& daemon.handovers > 1 ==> final(daemon).departed@ == daemon.departed@
                &&& daemon.handovers <= 1 ==> final(daemon).departed@.len() == 0
                &&& final(daemon).sessions@ == daemon.sessions@
                &&& r@.at("messages"@).items().len() == run@.taken.len()
            },
{
    assert forall|daemon: &mut Daemon, run: Handover, r: Json|
        #[trigger] call_ensures(Daemon::conclude, (daemon, run), r) implies {
        &&& daemon.handovers > 0 ==> final(daemon).handovers == daemon.handovers - 1
        &&& daemon.handovers > 1 ==> final(daemon).departed@ == daemon.departed@
        &&& daemon.handovers <= 1 ==> final(daemon).departed@.len() == 0
        &&& final(daemon).sessions@ == daemon.sessions@
        &&& r@.at("messages"@).items().len() == run@.taken.len()
    } by {
        broadcast use json::lemma_field_of_entry;

    }
}

/// A message that arrives waits for the session that it is for, behind what
/// waited before; nobody else is touched.
#[verifier::spinoff_prover]
pub proof fn a_message_waits_for_its_own_session()
    ensures
        forall|daemon: &mut Daemon, serial: u64, message: MessageView, i: int|
            daemon.wf() && #[trigger] call_ensures(
                Daemon::deliver,
                (daemon, serial, message),
                (),
            ) && 0 <= i < daemon.known().len() ==> {
                let was = #[trigger] daemon.known()[i];
                let is = final(daemon).known()[i];
                &&& final(daemon).known().len() == daemon.known().len()
                &&& was.serial != serial ==> is == was
                &&& was.serial == serial ==> inbox::holds(is.inbox@, message.id)
                &&& was.serial == serial && !inbox::holds(was.inbox@, message.id)
                    && was.inbox@.len() < 500 ==> is.inbox@ == was.inbox@.push(message@)
                &&& was.serial == serial && inbox::holds(was.inbox@, message.id) ==> is.inbox@
                    == was.inbox@
                &&& is.serial == was.serial && is.session_id == was.session_id && is.cwd == was.cwd
                    && is.connected == was.connected
            },
{
    assert forall|daemon: &mut Daemon, serial: u64, message: MessageView, i: int|
        daemon.wf() && #[trigger] call_ensures(Daemon::deliver, (daemon, serial, message), ())
            && 0 <= i < daemon.known().len() implies {
        let was = #[trigger] daemon.known()[i];
        let is = final(daemon).known()[i];
        &&& final(daemon).known().len() == daemon.known().len()
        &&& was.serial != serial ==> is == was
        &&& was.serial == serial ==> inbox::holds(is.inbox@, message.id)
        &&& was.serial == serial && !inbox::holds(was.inbox@, message.id) && was.inbox@.len()
            < 500 ==> is.inbox@ == was.inbox@.push(message@)
        &&& was.serial == serial && inbox::holds(was.inbox@, message.id) ==> is.inbox@ == was.inbox@
        &&& is.serial == was.serial && is.session_id == was.session_id && is.cwd == was.cwd
            && is.connected == was.connected
    } by {
        let known = daemon.known();
        sessions::lemma_place(known, serial);
        if known[i].serial == serial {
            sessions::lemma_found(known, daemon.next_serial, i);
            inbox::an_inbox_stays_orderly(known[i].inbox@, message@);
        }
    }
}

/// A step of a handover asks the session whose turn it is: what is taken leaves
/// its inbox from the front and joins what was taken before, each with one
/// acknowledgement; the others keep what waits for them.
#[verifier::spinoff_prover]
pub proof fn a_step_takes_from_the_session_whose_turn_it_is()
    ensures
        forall|
            daemon: &mut Daemon,
            run: &mut Handover,
            found: Option<Vec<MessageView>>,
            r: Vec<HttpCall>,
            i: int,
        |
            daemon.wf() && run@.waiting.len() > 0 && #[trigger] call_ensures(
                Daemon::collect,
                (daemon, run, found),
                r,
            ) && 0 <= i < daemon.known().len() ==> {
                let was = #[trigger] daemon.known()[i];
                let is = final(daemon).known()[i];
                let before = run@.taken.len() as int;
                &&& run@.taken == final(run)@.taken.take(before)
                &&& r@.len() == final(run)@.taken.len() - before
                &&& was.serial != run@.waiting[0].0 ==> is == was
                &&& was.serial == run@.waiting[0].0 && found is None ==> was.inbox@
                    == final(run)@.taken.skip(before) + is.inbox@
                &&& run@.taken.len() <= run@.take ==> final(run)@.taken.len() <= run@.take
                &&& final(run)@.take == run@.take
            },
{
    assert forall|
        daemon: &mut Daemon,
        run: &mut Handover,
        found: Option<Vec<MessageView>>,
        r: Vec<HttpCall>,
        i: int,
    |
        daemon.wf() && run@.waiting.len() > 0 && #[trigger] call_ensures(
            Daemon::collect,
            (daemon, run, found),
            r,
        ) && 0 <= i < daemon.known().len() implies {
        let was = #[trigger] daemon.known()[i];
        let is = final(daemon).known()[i];
        let before = run@.taken.len() as int;
        &&& run@.taken == final(run)@.taken.take(before)
        &&& r@.len() == final(run)@.taken.len() - before
        &&& was.serial != run@.waiting[0].0 ==> is == was
        &&& was.serial == run@.waiting[0].0 && found is None ==> was.inbox@
            == final(run)@.taken.skip(before) + is.inbox@
        &&& run@.taken.len() <= run@.take ==> final(run)@.taken.len() <= run@.take
        &&& final(run)@.take == run@.take
    } by {
        let known = daemon.known();
        let serial = run@.waiting[0].0;
        let before = run@.taken.len() as int;
        sessions::lemma_place(known, serial);
        let arrived = match found {
            Some(list) => agent_protocol::messages(list@),
            None => Seq::empty(),
        };
        let out = handed(known, run@, arrived);
        assert(final(run)@.taken.take(before) =~= run@.taken);
        assert(final(run)@.taken.skip(before) =~= out);
        assert(r@.map_values(|call: HttpCall| call@).len() == r@.len());
        if known[i].serial == serial {
            sessions::lemma_found(known, daemon.next_serial, i);
            if found is None {
                assert(gathered(known, run@, arrived) == known[i].inbox@);
                assert(known[i].inbox@ =~= out + known[i].inbox@.skip(out.len() as int));
            }
        }
    }
}

} // verus!
