//! The registered sessions, and which of them a request speaks for.
use vstd::prelude::*;
use vstd::string::*;

use crate::inbox;
use crate::inbox::Inbox;
use crate::json;
use crate::json::{Json, JsonView};
use crate::model;
use crate::model::AgentSessionId;
use crate::path;
use crate::text;
use crate::time::Timestamp;
use crate::workspace::Checkout;

verus! {

// ---------------------------------------------------------------------------
// Sessions
// ---------------------------------------------------------------------------

/// One registered coding session: its presence on the gateway, its link and
/// its inbox.
#[derive(Debug)]
pub struct Session {
    /// Which registration this is. A session that is registered again under the
    /// id of one that ended is another session.
    pub serial: u64,
    pub client_session_id: String,
    pub session_id: AgentSessionId,
    pub client: String,
    /// The directory the session was started in; how requests find it.
    pub cwd: String,
    pub checkout: Checkout,
    pub started_at: Timestamp,
    pub inbox: Inbox,
    pub connected: bool,
}

impl Session {
    /// The session as JSON.
    pub open spec fn json(self) -> JsonView {
        JsonView::object().entry("client_session_id"@, JsonView::Text(self.client_session_id@)).entry(
            "session_id"@,
            JsonView::Text(model::hyphenated(self.session_id.0)),
        ).entry("client"@, JsonView::Text(self.client@)).entry(
            "cwd"@,
            JsonView::Text(self.cwd@),
        ).entry("repository"@, json::text_or_null(self.checkout@.repository)).entry(
            "branch"@,
            json::text_or_null(self.checkout@.branch),
        ).entry("started_at"@, JsonView::Text(self.started_at.text()))
    }

    /// The session as JSON, with the state of its link and of its inbox.
    pub open spec fn status_json(self) -> JsonView {
        self.json().entry("connected"@, JsonView::Bool(self.connected)).entry(
            "pending_messages"@,
            JsonView::Unsigned(self.inbox@.len() as u64),
        )
    }

    /// The session as JSON.
    pub fn describe(&self) -> (r: Json)
        ensures
            r@ == self.json(),
    {
        Json::object().entry("client_session_id", Json::text(self.client_session_id.as_str())).entry(
            "session_id",
            Json::Text(self.session_id.to_text()),
        ).entry("client", Json::text(self.client.as_str())).entry(
            "cwd",
            Json::text(self.cwd.as_str()),
        ).entry("repository", Json::optional(&self.checkout.repository)).entry(
            "branch",
            Json::optional(&self.checkout.branch),
        ).entry("started_at", Json::Text(self.started_at.to_text()))
    }

    /// The session as JSON, with the state of its link and of its inbox.
    pub fn status(&self) -> (r: Json)
        ensures
            r@ == self.status_json(),
    {
        self.describe().entry("connected", Json::Bool(self.connected)).entry(
            "pending_messages",
            Json::Unsigned(self.inbox.len() as u64),
        )
    }
}

/// Where the session of that id is.
pub open spec fn position(sessions: Seq<Session>, id: Seq<char>) -> Option<int>
    decreases sessions.len(),
{
    if sessions.len() == 0 {
        None
    } else if sessions.last().client_session_id@ == id {
        Some(sessions.len() - 1)
    } else {
        position(sessions.drop_last(), id)
    }
}

/// No two sessions go by one id, and every inbox is in order.
pub open spec fn consistent(sessions: Seq<Session>) -> bool {
    &&& forall|i: int, j: int|
        #![trigger sessions[i], sessions[j]]
        0 <= i < j < sessions.len() ==> sessions[i].client_session_id@
            != sessions[j].client_session_id@
    &&& forall|i: int| 0 <= i < sessions.len() ==> inbox::orderly((#[trigger] sessions[i]).inbox@)
}

/// What a position is: the last that holds the id.
pub proof fn lemma_position(sessions: Seq<Session>, id: Seq<char>)
    ensures
        match position(sessions, id) {
            Some(i) => 0 <= i < sessions.len() && sessions[i].client_session_id@ == id && forall|
                j: int,
            |
                i < j < sessions.len() ==> (#[trigger] sessions[j]).client_session_id@ != id,
            None => forall|j: int|
                0 <= j < sessions.len() ==> (#[trigger] sessions[j]).client_session_id@ != id,
        },
    decreases sessions.len(),
{
    if sessions.len() > 0 && sessions.last().client_session_id@ != id {
        let rest = sessions.drop_last();
        lemma_position(rest, id);
        assert forall|j: int| 0 <= j < sessions.len() - 1 implies sessions[j] == rest[j] by {}
    }
}

/// Where the session of that registration is.
pub open spec fn place_of(known: Seq<Session>, serial: u64) -> Option<int>
    decreases known.len(),
{
    if known.len() == 0 {
        None
    } else if known.last().serial == serial {
        Some(known.len() - 1)
    } else {
        place_of(known.drop_last(), serial)
    }
}

/// Every registration has a number of its own, below `next`.
pub open spec fn numbered(known: Seq<Session>, next: u64) -> bool {
    &&& forall|i: int| 0 <= i < known.len() ==> (#[trigger] known[i]).serial < next
    &&& forall|i: int, j: int|
        #![trigger known[i], known[j]]
        0 <= i < j < known.len() ==> known[i].serial != known[j].serial
}

/// What a place is: the last that holds the number.
pub proof fn lemma_place(known: Seq<Session>, serial: u64)
    ensures
        match place_of(known, serial) {
            Some(i) => 0 <= i < known.len() && known[i].serial == serial,
            None => forall|j: int| 0 <= j < known.len() ==> (#[trigger] known[j]).serial != serial,
        },
    decreases known.len(),
{
    if known.len() > 0 && known.last().serial != serial {
        let rest = known.drop_last();
        lemma_place(rest, serial);
        assert forall|j: int| 0 <= j < known.len() - 1 implies known[j] == rest[j] by {}
    }
}

/// A session is found by its number.
pub proof fn lemma_found(known: Seq<Session>, next: u64, i: int)
    requires
        numbered(known, next),
        0 <= i < known.len(),
    ensures
        place_of(known, known[i].serial) == Some(i),
{
    lemma_place(known, known[i].serial);
}

// ---------------------------------------------------------------------------
// Which session a request speaks for
// ---------------------------------------------------------------------------

/// A session was registered from that directory.
pub open spec fn registered_from(session: Session, dir: Option<Seq<char>>) -> bool {
    dir matches Some(dir) && path::alike(session.cwd@, dir)
}

/// Some session was registered from that directory.
pub open spec fn some_registered_from(sessions: Seq<Session>, dir: Option<Seq<char>>) -> bool {
    exists|i: int| 0 <= i < sessions.len() && registered_from(#[trigger] sessions[i], dir)
}

/// A request from that directory speaks for a session: one registered from
/// there, or any at all when none was.
pub open spec fn chosen(sessions: Seq<Session>, dir: Option<Seq<char>>, i: int) -> bool {
    registered_from(sessions[i], dir) || !some_registered_from(sessions, dir)
}

/// `order` with session `k` in its place: behind every session that did not
/// start earlier.
pub open spec fn placed(sessions: Seq<Session>, order: Seq<int>, k: int) -> Seq<int>
    decreases order.len(),
{
    if order.len() > 0 && sessions[k].started_at.later(sessions[order.last()].started_at) {
        placed(sessions, order.drop_last(), k).push(order.last())
    } else {
        order.push(k)
    }
}

/// Those of the first `n` sessions that a request speaks for, the newest
/// first.
pub open spec fn newest_first(sessions: Seq<Session>, dir: Option<Seq<char>>, n: nat) -> Seq<int>
    decreases n,
{
    if n == 0 {
        Seq::empty()
    } else {
        let before = newest_first(sessions, dir, (n - 1) as nat);
        if chosen(sessions, dir, n - 1) {
            placed(sessions, before, n - 1)
        } else {
            before
        }
    }
}

/// The sessions that a request from that directory speaks for, the newest
/// first.
pub open spec fn speaking_for(sessions: Seq<Session>, dir: Option<Seq<char>>) -> Seq<int> {
    newest_first(sessions, dir, sessions.len())
}

/// Putting a session in its place keeps the order.
proof fn lemma_placed(sessions: Seq<Session>, order: Seq<int>, k: int)
    requires
        forall|i: int, j: int|
            #![trigger order[i], order[j]]
            0 <= i < j < order.len() ==> !sessions[order[j]].started_at.later(
                sessions[order[i]].started_at,
            ),
    ensures
        placed(sessions, order, k).len() == order.len() + 1,
        forall|i: int, j: int|
            #![trigger placed(sessions, order, k)[i], placed(sessions, order, k)[j]]
            0 <= i < j < placed(sessions, order, k).len() ==> !sessions[placed(
                sessions,
                order,
                k,
            )[j]].started_at.later(sessions[placed(sessions, order, k)[i]].started_at),
        forall|x: int|
            #[trigger] placed(sessions, order, k).contains(x) <==> (x == k || order.contains(x)),
    decreases order.len(),
{
    let result = placed(sessions, order, k);
    if order.len() > 0 && sessions[k].started_at.later(sessions[order.last()].started_at) {
        let rest = order.drop_last();
        assert forall|i: int, j: int|
            #![trigger rest[i], rest[j]]
            0 <= i < j < rest.len() implies !sessions[rest[j]].started_at.later(
            sessions[rest[i]].started_at,
        ) by {
            assert(rest[i] == order[i] && rest[j] == order[j]);
        }
        lemma_placed(sessions, rest, k);
        let inner = placed(sessions, rest, k);
        assert(result == inner.push(order.last()));
        assert forall|x: int| #[trigger] result.contains(x) <==> (x == k || order.contains(x)) by {
            if result.contains(x) {
                let i = choose|i: int| 0 <= i < result.len() && result[i] == x;
                if i < inner.len() {
                    assert(inner[i] == x);
                    assert(inner.contains(x));
                    if x != k {
                        let m = choose|m: int| 0 <= m < rest.len() && rest[m] == x;
                        assert(order[m] == x);
                    }
                } else {
                    assert(order[order.len() - 1] == x);
                }
            }
            if x == k {
                assert(inner.contains(x));
                let i = choose|i: int| 0 <= i < inner.len() && inner[i] == x;
                assert(result[i] == x);
            }
            if order.contains(x) {
                let m = choose|m: int| 0 <= m < order.len() && order[m] == x;
                if m < rest.len() {
                    assert(rest[m] == x);
                    assert(inner.contains(x));
                    let i = choose|i: int| 0 <= i < inner.len() && inner[i] == x;
                    assert(result[i] == x);
                } else {
                    assert(result[inner.len() as int] == x);
                }
            }
        }
        assert forall|i: int, j: int|
            #![trigger result[i], result[j]]
            0 <= i < j < result.len() implies !sessions[result[j]].started_at.later(
            sessions[result[i]].started_at,
        ) by {
            assert(result[i] == inner[i]);
            if j < inner.len() {
                assert(result[j] == inner[j]);
            } else {
                assert(inner.contains(inner[i]));
                if inner[i] != k {
                    let m = choose|m: int| 0 <= m < rest.len() && rest[m] == inner[i];
                    assert(order[m] == inner[i]);
                    assert(order[order.len() - 1] == result[j]);
                }
            }
        }
    } else {
        assert(result == order.push(k));
        assert forall|x: int| #[trigger] result.contains(x) <==> (x == k || order.contains(x)) by {
            if result.contains(x) {
                let i = choose|i: int| 0 <= i < result.len() && result[i] == x;
                if i < order.len() {
                    assert(order[i] == x);
                }
            }
            if x == k {
                assert(result[order.len() as int] == x);
            }
            if order.contains(x) {
                let m = choose|m: int| 0 <= m < order.len() && order[m] == x;
                assert(result[m] == x);
            }
        }
        assert forall|i: int, j: int|
            #![trigger result[i], result[j]]
            0 <= i < j < result.len() implies !sessions[result[j]].started_at.later(
            sessions[result[i]].started_at,
        ) by {
            assert(result[i] == order[i]);
            if j < order.len() {
                assert(result[j] == order[j]);
            } else {
                assert(order[order.len() - 1] == order.last());
                if i < order.len() - 1 {
                    assert(!sessions[order.last()].started_at.later(sessions[order[i]].started_at));
                }
            }
        }
    }
}

/// The sessions come newest first: none starts later than one before it. And
/// they are exactly those that the request speaks for.
pub proof fn lemma_newest_first(sessions: Seq<Session>, dir: Option<Seq<char>>, n: nat)
    requires
        n <= sessions.len(),
    ensures
        ({
            let order = newest_first(sessions, dir, n);
            &&& forall|i: int, j: int|
                #![trigger order[i], order[j]]
                0 <= i < j < order.len() ==> !sessions[order[j]].started_at.later(
                    sessions[order[i]].started_at,
                )
            &&& forall|x: int| #[trigger]
                order.contains(x) <==> (0 <= x < n && chosen(sessions, dir, x))
        }),
    decreases n,
{
    if n > 0 {
        let before = newest_first(sessions, dir, (n - 1) as nat);
        lemma_newest_first(sessions, dir, (n - 1) as nat);
        if chosen(sessions, dir, n - 1) {
            lemma_placed(sessions, before, n - 1);
        }
    }
}

/// The newest of the sessions that a request speaks for comes first, and there
/// is one as soon as any session is registered.
pub proof fn the_newest_answers(sessions: Seq<Session>, dir: Option<Seq<char>>, i: int)
    requires
        0 <= i < sessions.len(),
        chosen(sessions, dir, i),
    ensures
        speaking_for(sessions, dir).len() > 0,
        0 <= speaking_for(sessions, dir)[0] < sessions.len(),
        chosen(sessions, dir, speaking_for(sessions, dir)[0]),
        !sessions[i].started_at.later(sessions[speaking_for(sessions, dir)[0]].started_at),
{
    let order = speaking_for(sessions, dir);
    lemma_newest_first(sessions, dir, sessions.len());
    assert(order.contains(i));
    let k = choose|k: int| 0 <= k < order.len() && order[k] == i;
    assert(order.contains(order[0]));
    if k > 0 {
        assert(!sessions[order[k]].started_at.later(sessions[order[0]].started_at));
    }
}

/// Somebody is always answered for once a session is registered: from
/// whatever directory a request comes, some session is chosen.
pub proof fn some_session_is_chosen(sessions: Seq<Session>, dir: Option<Seq<char>>)
    requires
        sessions.len() > 0,
    ensures
        speaking_for(sessions, dir).len() > 0,
{
    if some_registered_from(sessions, dir) {
        let i = choose|i: int|
            0 <= i < sessions.len() && registered_from(#[trigger] sessions[i], dir);
        the_newest_answers(sessions, dir, i);
    } else {
        the_newest_answers(sessions, dir, 0);
    }
}

/// A request from a directory that a session was registered from is answered
/// as a session registered from there, whatever other sessions there are.
pub proof fn a_directory_finds_its_own_session(
    sessions: Seq<Session>,
    dir: Option<Seq<char>>,
    k: int,
)
    requires
        some_registered_from(sessions, dir),
        0 <= k < speaking_for(sessions, dir).len(),
    ensures
        0 <= speaking_for(sessions, dir)[k] < sessions.len(),
        registered_from(sessions[speaking_for(sessions, dir)[k]], dir),
{
    lemma_newest_first(sessions, dir, sessions.len());
    assert(speaking_for(sessions, dir).contains(speaking_for(sessions, dir)[k]));
}

proof fn lemma_placed_once(sessions: Seq<Session>, order: Seq<int>, k: int)
    requires
        order.no_duplicates(),
        !order.contains(k),
    ensures
        placed(sessions, order, k).no_duplicates(),
        forall|x: int| #[trigger]
            placed(sessions, order, k).contains(x) ==> x == k || order.contains(x),
    decreases order.len(),
{
    let result = placed(sessions, order, k);
    if order.len() > 0 && sessions[k].started_at.later(sessions[order.last()].started_at) {
        let rest = order.drop_last();
        assert forall|x: int| #[trigger] rest.contains(x) implies order.contains(x) && x
            != order.last() by {
            let m = choose|m: int| 0 <= m < rest.len() && rest[m] == x;
            assert(order[m] == x);
        }
        assert(order.contains(order.last()));
        lemma_placed_once(sessions, rest, k);
        let inner = placed(sessions, rest, k);
        assert forall|i: int, j: int| 0 <= i < result.len() && 0 <= j < result.len() && i
            != j implies result[i] != result[j] by {
            if i < inner.len() {
                assert(inner.contains(inner[i]));
            }
            if j < inner.len() {
                assert(inner.contains(inner[j]));
            }
        }
        assert forall|x: int| #[trigger] result.contains(x) implies x == k || order.contains(
            x,
        ) by {
            let i = choose|i: int| 0 <= i < result.len() && result[i] == x;
            if i < inner.len() {
                assert(inner.contains(x));
            }
        }
    } else {
        assert forall|i: int, j: int| 0 <= i < result.len() && 0 <= j < result.len() && i
            != j implies result[i] != result[j] by {
            if i < order.len() {
                assert(order.contains(order[i]));
            }
            if j < order.len() {
                assert(order.contains(order[j]));
            }
        }
        assert forall|x: int| #[trigger] result.contains(x) implies x == k || order.contains(
            x,
        ) by {
            let i = choose|i: int| 0 <= i < result.len() && result[i] == x;
            if i < order.len() {
                assert(order[i] == x);
            }
        }
    }
}

/// No session is spoken for twice.
pub proof fn lemma_once(sessions: Seq<Session>, dir: Option<Seq<char>>, n: nat)
    requires
        n <= sessions.len(),
    ensures
        newest_first(sessions, dir, n).no_duplicates(),
    decreases n,
{
    if n > 0 {
        lemma_once(sessions, dir, (n - 1) as nat);
        lemma_newest_first(sessions, dir, (n - 1) as nat);
        if chosen(sessions, dir, n - 1) {
            lemma_placed_once(
                sessions,
                newest_first(sessions, dir, (n - 1) as nat),
                n - 1,
            );
        }
    }
}

/// Who asks from no directory speaks for every session.
pub proof fn without_a_directory_everybody_is_asked(sessions: Seq<Session>, i: int)
    requires
        0 <= i < sessions.len(),
    ensures
        speaking_for(sessions, None).contains(i),
{
    lemma_newest_first(sessions, None, sessions.len());
}

// ---------------------------------------------------------------------------
// Coming and going
// ---------------------------------------------------------------------------

/// A session that was registered is known from then on: registering it again
/// finds it, and adds nothing.
pub proof fn a_registered_session_is_found(sessions: Seq<Session>, session: Session)
    requires
        position(sessions, session.client_session_id@) is None,
    ensures
        position(sessions.push(session), session.client_session_id@) == Some(sessions.len() as int),
{
    assert(sessions.push(session).last() == session);
}

/// A session that was reported over is forgotten, and every other session is
/// kept as it was.
pub proof fn an_ended_session_is_forgotten_alone(
    sessions: Seq<Session>,
    id: Seq<char>,
    other: int,
)
    requires
        consistent(sessions),
        position(sessions, id) is Some,
        0 <= other < sessions.len(),
        sessions[other].client_session_id@ != id,
    ensures
        ({
            let left = sessions.remove(position(sessions, id)->0);
            &&& position(left, id) is None
            &&& position(left, sessions[other].client_session_id@) is Some
            &&& left[position(left, sessions[other].client_session_id@)->0] == sessions[other]
        }),
{
    let i = position(sessions, id)->0;
    let left = sessions.remove(i);
    let name = sessions[other].client_session_id@;
    lemma_position(sessions, id);
    lemma_position(left, id);
    lemma_position(left, name);
    let at: int = if other < i {
        other
    } else {
        other - 1
    };
    assert(left[at] == sessions[other]);
    assert forall|j: int| 0 <= j < left.len() implies (#[trigger] left[j]).client_session_id@
        != id && (left[j].client_session_id@ == name ==> j == at) by {
        let from: int = if j < i {
            j
        } else {
            j + 1
        };
        assert(left[j] == sessions[from]);
        assert(sessions[from].client_session_id@ != sessions[i].client_session_id@);
        if from != other {
            assert(sessions[from].client_session_id@ != sessions[other].client_session_id@);
        }
    }
}

/// A session of a new id can join.
pub proof fn lemma_pushed(sessions: Seq<Session>, session: Session)
    requires
        consistent(sessions),
        position(sessions, session.client_session_id@) is None,
        inbox::orderly(session.inbox@),
    ensures
        consistent(sessions.push(session)),
{
    lemma_position(sessions, session.client_session_id@);
    let after = sessions.push(session);
    assert forall|i: int, j: int|
        #![trigger after[i], after[j]]
        0 <= i < j < after.len() implies after[i].client_session_id@
        != after[j].client_session_id@ by {
        assert(after[i] == sessions[i]);
        if j < sessions.len() {
            assert(after[j] == sessions[j]);
        }
    }
    assert forall|i: int| 0 <= i < after.len() implies inbox::orderly(
        (#[trigger] after[i]).inbox@,
    ) by {
        if i < sessions.len() {
            assert(after[i] == sessions[i]);
        }
    }
}

/// A session can leave.
pub proof fn lemma_removed(sessions: Seq<Session>, k: int)
    requires
        consistent(sessions),
        0 <= k < sessions.len(),
    ensures
        consistent(sessions.remove(k)),
{
    let after = sessions.remove(k);
    assert forall|i: int, j: int|
        #![trigger after[i], after[j]]
        0 <= i < j < after.len() implies after[i].client_session_id@
        != after[j].client_session_id@ by {
        let a: int = if i < k {
            i
        } else {
            i + 1
        };
        let b: int = if j < k {
            j
        } else {
            j + 1
        };
        assert(after[i] == sessions[a]);
        assert(after[j] == sessions[b]);
    }
    assert forall|i: int| 0 <= i < after.len() implies inbox::orderly(
        (#[trigger] after[i]).inbox@,
    ) by {
        let a: int = if i < k {
            i
        } else {
            i + 1
        };
        assert(after[i] == sessions[a]);
    }
}

// ---------------------------------------------------------------------------
// What is said of a session
// ---------------------------------------------------------------------------

/// A session is described by what it is, and its status adds the state of its
/// link and how many messages wait for it.
pub proof fn a_session_is_described_as_it_is(session: Session, r: Json, status: Json)
    requires
        call_ensures(Session::describe, (&session,), r),
        call_ensures(Session::status, (&session,), status),
    ensures
        r@.field("client_session_id"@) == Some(JsonView::Text(session.client_session_id@)),
        r@.field("session_id"@) == Some(JsonView::Text(model::hyphenated(session.session_id.0))),
        r@.field("client"@) == Some(JsonView::Text(session.client@)),
        r@.field("cwd"@) == Some(JsonView::Text(session.cwd@)),
        r@.field("repository"@) == Some(
            match session.checkout.repository {
                Some(name) => JsonView::Text(name@),
                None => JsonView::Null,
            },
        ),
        r@.field("branch"@) == Some(
            match session.checkout.branch {
                Some(name) => JsonView::Text(name@),
                None => JsonView::Null,
            },
        ),
        r@.field("started_at"@) == Some(JsonView::Text(session.started_at.text())),
        forall|name: Seq<char>|
            name != "client_session_id"@ && name != "session_id"@ && name != "client"@ && name != "cwd"@ && name != "repository"@ && name != "branch"@ && name != "started_at"@ ==> (#[trigger] r@.field(
                name,
            )) is None,
        status@.field("connected"@) == Some(JsonView::Bool(session.connected)),
        status@.field("pending_messages"@) == Some(
            JsonView::Unsigned(session.inbox@.len() as u64),
        ),
        forall|name: Seq<char>|
            name != "connected"@ && name != "pending_messages"@ ==> (#[trigger] status@.field(name))
                == r@.field(name),
{
    broadcast use json::lemma_field_of_entry;

    reveal_strlit("client_session_id");
    reveal_strlit("session_id");
    reveal_strlit("client");
    reveal_strlit("cwd");
    reveal_strlit("repository");
    reveal_strlit("branch");
    reveal_strlit("started_at");
    reveal_strlit("connected");
    reveal_strlit("pending_messages");
    assert("client_session_id"@.len() == 17);
    assert("session_id"@.len() == 10);
    assert("client"@.len() == 6);
    assert("cwd"@.len() == 3);
    assert("repository"@.len() == 10);
    assert("branch"@.len() == 6);
    assert("started_at"@.len() == 10);
    assert("connected"@.len() == 9);
    assert("pending_messages"@.len() == 16);
    assert("session_id"@[0] != "repository"@[0]);
    assert("session_id"@[1] != "started_at"@[1]);
    assert("client"@[0] != "branch"@[0]);
    assert("repository"@[0] != "started_at"@[0]);
}

/// A request from a directory speaks for every session that was registered from
/// there, and for every session at all when none was.
pub proof fn nobody_of_a_directory_is_passed_over(
    sessions: Seq<Session>,
    dir: Option<Seq<char>>,
    i: int,
)
    requires
        0 <= i < sessions.len(),
        registered_from(sessions[i], dir) || forall|j: int|
            0 <= j < sessions.len() ==> !registered_from(#[trigger] sessions[j], dir),
    ensures
        speaking_for(sessions, dir).contains(i),
{
    lemma_newest_first(sessions, dir, sessions.len());
}

/// The sessions that a request speaks for come newest first, and each once.
pub proof fn the_newest_comes_first(sessions: Seq<Session>, dir: Option<Seq<char>>, i: int, j: int)
    requires
        0 <= i < j < speaking_for(sessions, dir).len(),
    ensures
        ({
            let order = speaking_for(sessions, dir);
            &&& 0 <= order[i] < sessions.len()
            &&& 0 <= order[j] < sessions.len()
            &&& order[i] != order[j]
            &&& !sessions[order[j]].started_at.later(sessions[order[i]].started_at)
        }),
{
    let order = speaking_for(sessions, dir);
    lemma_newest_first(sessions, dir, sessions.len());
    lemma_once(sessions, dir, sessions.len());
    assert(order.contains(order[i]));
    assert(order.contains(order[j]));
}

/// Who asks from no directory speaks for as many sessions as there are.
pub proof fn everybody_is_asked_once(sessions: Seq<Session>)
    ensures
        speaking_for(sessions, None).len() == sessions.len(),
{
    let order = speaking_for(sessions, None);
    let n = sessions.len();
    lemma_newest_first(sessions, None, n);
    lemma_once(sessions, None, n);
    let places = vstd::set_lib::set_int_range(0, n as int);
    vstd::set_lib::lemma_int_range(0, n as int);
    order.unique_seq_to_set();
    assert(order.to_set() =~= places) by {
        assert forall|x: int| #[trigger] order.to_set().contains(x) <==> places.contains(x) by {
            assert(order.to_set().contains(x) <==> order.contains(x));
        }
    }
}

proof fn lemma_placed_between(sessions: Seq<Session>, order: Seq<int>, k: int)
    ensures
        exists|m: int|
            0 <= m <= order.len() && placed(sessions, order, k) == #[trigger] order.take(m).push(k)
                + order.skip(m) && forall|q: int|
                m <= q < order.len() ==> sessions[k].started_at.later(
                    sessions[#[trigger] order[q]].started_at,
                ),
    decreases order.len(),
{
    if order.len() > 0 && sessions[k].started_at.later(sessions[order.last()].started_at) {
        let rest = order.drop_last();
        lemma_placed_between(sessions, rest, k);
        let m = choose|m: int|
            0 <= m <= rest.len() && placed(sessions, rest, k) == #[trigger] rest.take(m).push(k)
                + rest.skip(m) && forall|q: int|
                m <= q < rest.len() ==> sessions[k].started_at.later(
                    sessions[#[trigger] rest[q]].started_at,
                );
        assert(placed(sessions, order, k) =~= order.take(m).push(k) + order.skip(m));
        assert forall|q: int| m <= q < order.len() implies sessions[k].started_at.later(
            sessions[#[trigger] order[q]].started_at,
        ) by {
            if q < rest.len() {
                assert(rest[q] == order[q]);
            }
        }
    } else {
        let m = order.len() as int;
        assert(order.take(m) =~= order);
        assert(order.take(m).push(k) + order.skip(m) =~= order.push(k));
    }
}

proof fn lemma_in_turn(sessions: Seq<Session>, dir: Option<Seq<char>>, n: nat)
    requires
        n <= sessions.len(),
    ensures
        ({
            let order = newest_first(sessions, dir, n);
            forall|i: int, j: int|
                #![trigger order[i], order[j]]
                0 <= i < j < order.len() && !sessions[order[i]].started_at.later(
                    sessions[order[j]].started_at,
                ) ==> order[i] < order[j]
        }),
    decreases n,
{
    if n > 0 {
        let before = newest_first(sessions, dir, (n - 1) as nat);
        lemma_in_turn(sessions, dir, (n - 1) as nat);
        lemma_newest_first(sessions, dir, (n - 1) as nat);
        if chosen(sessions, dir, n - 1) {
            let k = n - 1;
            let order = newest_first(sessions, dir, n);
            lemma_placed_between(sessions, before, k);
            let m = choose|m: int|
                0 <= m <= before.len() && placed(sessions, before, k) == #[trigger] before.take(
                    m,
                ).push(k) + before.skip(m) && forall|q: int|
                    m <= q < before.len() ==> sessions[k].started_at.later(
                        sessions[#[trigger] before[q]].started_at,
                    );
            assert forall|i: int, j: int|
                #![trigger order[i], order[j]]
                0 <= i < j < order.len() && !sessions[order[i]].started_at.later(
                    sessions[order[j]].started_at,
                ) implies order[i] < order[j] by {
                if j < m {
                    assert(order[i] == before[i]);
                    assert(order[j] == before[j]);
                } else if j == m {
                    assert(order[i] == before[i]);
                    assert(before.contains(before[i]));
                } else {
                    assert(order[j] == before[j - 1]);
                    if i < m {
                        assert(order[i] == before[i]);
                    } else if i > m {
                        assert(order[i] == before[i - 1]);
                    }
                }
            }
        }
    }
}

/// Sessions that started at the same point are asked in the order in which they
/// were registered.
pub proof fn those_of_one_point_come_in_turn(
    sessions: Seq<Session>,
    dir: Option<Seq<char>>,
    i: int,
    j: int,
)
    requires
        0 <= i < j < speaking_for(sessions, dir).len(),
        sessions[speaking_for(sessions, dir)[i]].started_at == sessions[speaking_for(
            sessions,
            dir,
        )[j]].started_at,
    ensures
        speaking_for(sessions, dir)[i] < speaking_for(sessions, dir)[j],
{
    lemma_in_turn(sessions, dir, sessions.len());
}

} // verus!
