//! The agent network wire format.
//!
//! The shapes that a daemon and the gateway exchange. Frames are JSON with a
//! `type` tag, because a protocol that a person can read in a log is one that a
//! person can debug.
use vstd::prelude::*;
use vstd::string::*;

use crate::json;
use crate::json::{Json, JsonView};
use crate::model;
use crate::model::{AgentMessageId, AgentSessionId};
use crate::text;
use crate::time::Timestamp;

verus! {

// ---------------------------------------------------------------------------
// REST
// ---------------------------------------------------------------------------

/// `POST /v1/sessions`: register, or register again, one coding session.
#[derive(Debug)]
pub struct RegisterSession {
    /// Which agent this is.
    pub client: String,
    /// The client's own version string.
    pub client_version: Option<String>,
    /// The agent's own session id. Repeating it updates one row instead of
    /// creating a second presence for one agent.
    pub client_session_id: String,
    /// Project name, as the developer's checkout knows it.
    pub project: Option<String>,
    /// Repository, ideally `owner/name`.
    pub repository: Option<String>,
    /// Branch.
    pub branch: Option<String>,
    /// Email from the local git config, for identity resolution.
    pub email: Option<String>,
    /// GitHub login, for identity resolution.
    pub github_login: Option<String>,
    /// Human name, used only as a display hint.
    pub display_name: Option<String>,
}

/// What the daemon needs to keep presence alive.
#[derive(Debug, Clone, Copy)]
pub struct SessionRegistered {
    /// The platform's id for this session. Used everywhere afterwards.
    pub session_id: AgentSessionId,
    /// When presence lapses without a further heartbeat.
    pub expires_at: Timestamp,
    /// How often to heartbeat. Comfortably under the time to live, so that one
    /// lost heartbeat does not take a live agent offline.
    pub heartbeat_interval_secs: u64,
}

/// `POST /v1/sessions/{id}/heartbeat`.
#[derive(Debug, Clone, Copy)]
pub struct Heartbeat {
    /// The new expiry.
    pub expires_at: Timestamp,
}

/// One other agent currently online, as `GET /v1/sessions` reports it.
///
/// Deliberately thin. This answers "who could I talk to", not "what is
/// everyone doing".
#[derive(Debug)]
pub struct OnlineAgent {
    /// The session to address a message to.
    pub session_id: AgentSessionId,
    /// Display name of the person behind it, when identity resolved one.
    pub developer: Option<String>,
    /// What they are working in.
    pub repository: Option<String>,
    /// Which branch.
    pub branch: Option<String>,
    /// When they were last heard from.
    pub last_seen_at: Timestamp,
}

/// `GET /v1/memories/search`: what the workspace already knows about this.
#[derive(Debug)]
pub struct SearchMemories {
    /// Free text.
    pub q: Option<String>,
    /// Narrow to a project.
    pub project: Option<String>,
    /// Narrow to a repository.
    pub repository: Option<String>,
    /// Files the asking agent is working on. The heaviest relevance signal.
    pub files: Option<String>,
    /// Technologies in play.
    pub technologies: Option<String>,
    /// How many to return.
    pub limit: Option<usize>,
}

/// `POST /v1/messages`: tell another agent something now.
#[derive(Debug)]
pub struct SendMessage {
    /// The session to reach.
    pub target_session_id: AgentSessionId,
    /// The message.
    pub content: String,
    /// The sending session, when the agent has one.
    pub session_id: Option<AgentSessionId>,
}

/// One message as an agent receives it.
#[derive(Debug)]
pub struct MessageView {
    /// Identifier, to acknowledge with.
    pub id: AgentMessageId,
    /// The message.
    pub content: String,
    /// Who sent it, when identity knows.
    pub from: Option<String>,
    /// The sending session, so that a reply can be addressed.
    pub from_session_id: Option<AgentSessionId>,
    /// When it was sent.
    pub created_at: Timestamp,
}

/// A message, mathematically.
pub struct Message {
    pub id: AgentMessageId,
    pub content: Seq<char>,
    pub from: Option<Seq<char>>,
    pub from_session_id: Option<AgentSessionId>,
    pub created_at: Timestamp,
}

impl View for MessageView {
    type V = Message;

    open spec fn view(&self) -> Message {
        Message {
            id: self.id,
            content: self.content@,
            from: text::optional(self.from),
            from_session_id: self.from_session_id,
            created_at: self.created_at,
        }
    }
}

/// The messages of a sequence.
pub open spec fn messages(views: Seq<MessageView>) -> Seq<Message> {
    views.map_values(|m: MessageView| m@)
}

/// An agent that is online, mathematically.
pub struct Agent {
    pub session_id: AgentSessionId,
    pub developer: Option<Seq<char>>,
    pub repository: Option<Seq<char>>,
    pub branch: Option<Seq<char>>,
    pub last_seen_at: Timestamp,
}

impl View for OnlineAgent {
    type V = Agent;

    open spec fn view(&self) -> Agent {
        Agent {
            session_id: self.session_id,
            developer: text::optional(self.developer),
            repository: text::optional(self.repository),
            branch: text::optional(self.branch),
            last_seen_at: self.last_seen_at,
        }
    }
}

/// A session that may be absent, as JSON.
pub open spec fn session_or_null(id: Option<AgentSessionId>) -> JsonView {
    match id {
        Some(id) => JsonView::Text(model::hyphenated(id.0)),
        None => JsonView::Null,
    }
}

impl Message {
    /// The message as JSON.
    pub open spec fn json(self) -> JsonView {
        JsonView::object().entry("id"@, JsonView::Text(model::hyphenated(self.id.0))).entry(
            "content"@,
            JsonView::Text(self.content),
        ).entry("from"@, json::text_or_null(self.from)).entry(
            "from_session_id"@,
            session_or_null(self.from_session_id),
        ).entry("created_at"@, JsonView::Text(self.created_at.text()))
    }
}

impl Agent {
    /// The agent as JSON.
    pub open spec fn json(self) -> JsonView {
        JsonView::object().entry(
            "session_id"@,
            JsonView::Text(model::hyphenated(self.session_id.0)),
        ).entry("developer"@, json::text_or_null(self.developer)).entry(
            "repository"@,
            json::text_or_null(self.repository),
        ).entry("branch"@, json::text_or_null(self.branch)).entry(
            "last_seen_at"@,
            JsonView::Text(self.last_seen_at.text()),
        )
    }
}

/// The messages of a sequence, as JSON.
pub open spec fn messages_json(messages: Seq<Message>) -> JsonView {
    JsonView::Array(messages.map_values(|m: Message| m.json()))
}

/// The agents of a sequence, as JSON.
pub open spec fn agents_json(agents: Seq<Agent>) -> JsonView {
    JsonView::Array(agents.map_values(|a: Agent| a.json()))
}

/// The trimmed parts that have something in them.
pub open spec fn non_empty(parts: Seq<Seq<char>>) -> Seq<Seq<char>>
    decreases parts.len(),
{
    if parts.len() == 0 {
        Seq::empty()
    } else {
        let kept = non_empty(parts.drop_last());
        let part = text::trimmed(parts.last());
        if part.len() > 0 {
            kept.push(part)
        } else {
            kept
        }
    }
}

/// A session that may be absent, as JSON.
fn optional_session(id: Option<AgentSessionId>) -> (r: Json)
    ensures
        r@ == session_or_null(id),
{
    match id {
        Some(id) => Json::Text(id.to_text()),
        None => Json::Null,
    }
}

impl SearchMemories {
    /// Split a comma-separated query parameter into trimmed, non-empty items.
    pub fn split(raw: Option<&str>) -> (r: Vec<String>)
        ensures
            text::texts(r@) == match raw {
                Some(s) => non_empty(text::pieces(s@, ',')),
                None => Seq::empty(),
            },
    {
        let mut out: Vec<String> = Vec::new();
        match raw {
            Some(s) => {
                let parts = text::split(s, ',');
                let ghost all = text::texts(parts@);
                let mut i: usize = 0;
                assert(text::texts(out@) =~= non_empty(all.take(0)));
                while i < parts.len()
                    invariant
                        i <= parts@.len(),
                        all == text::texts(parts@),
                        text::texts(out@) == non_empty(all.take(i as int)),
                    decreases parts@.len() - i,
                {
                    let ghost next = all.take(i + 1);
                    let ghost before = out@;
                    assert(next.drop_last() =~= all.take(i as int));
                    assert(next.last() == parts@[i as int]@);
                    let part = text::trim(parts[i].as_str());
                    if part.unicode_len() > 0 {
                        out.push(part.to_owned());
                        assert(text::texts(out@) =~= text::texts(before).push(part@));
                    }
                    i = i + 1;
                }
                assert(all.take(i as int) =~= all);
            },
            None => {
                assert(text::texts(out@) =~= Seq::empty());
            },
        }
        out
    }
}

impl MessageView {
    /// The message as JSON.
    pub fn to_json(&self) -> (r: Json)
        ensures
            r@ == self@.json(),
    {
        Json::object().entry("id", Json::Text(self.id.to_text())).entry(
            "content",
            Json::text(self.content.as_str()),
        ).entry("from", Json::optional(&self.from)).entry(
            "from_session_id",
            optional_session(self.from_session_id),
        ).entry("created_at", Json::Text(self.created_at.to_text()))
    }
}

impl OnlineAgent {
    /// The agent as JSON.
    pub fn to_json(&self) -> (r: Json)
        ensures
            r@ == self@.json(),
    {
        Json::object().entry("session_id", Json::Text(self.session_id.to_text())).entry(
            "developer",
            Json::optional(&self.developer),
        ).entry("repository", Json::optional(&self.repository)).entry(
            "branch",
            Json::optional(&self.branch),
        ).entry("last_seen_at", Json::Text(self.last_seen_at.to_text()))
    }
}

/// Messages as JSON.
pub fn messages_to_json(list: &Vec<MessageView>) -> (r: Json)
    ensures
        r@ == messages_json(messages(list@)),
{
    let ghost all = messages(list@).map_values(|m: Message| m.json());
    let mut out = Json::array();
    let mut i: usize = 0;
    assert(all.take(0) =~= Seq::empty());
    while i < list.len()
        invariant
            i <= list@.len(),
            all == messages(list@).map_values(|m: Message| m.json()),
            out@ == JsonView::Array(all.take(i as int)),
        decreases list@.len() - i,
    {
        out = out.item(list[i].to_json());
        assert(all.take(i + 1) =~= all.take(i as int).push(list@[i as int]@.json()));
        i = i + 1;
    }
    assert(all.take(i as int) =~= all);
    out
}

/// Agents as JSON.
pub fn agents_to_json(list: &Vec<OnlineAgent>) -> (r: Json)
    ensures
        r@ == agents_json(list@.map_values(|a: OnlineAgent| a@)),
{
    let ghost all = list@.map_values(|a: OnlineAgent| a@).map_values(|a: Agent| a.json());
    let mut out = Json::array();
    let mut i: usize = 0;
    assert(all.take(0) =~= Seq::empty());
    while i < list.len()
        invariant
            i <= list@.len(),
            all == list@.map_values(|a: OnlineAgent| a@).map_values(|a: Agent| a.json()),
            out@ == JsonView::Array(all.take(i as int)),
        decreases list@.len() - i,
    {
        out = out.item(list[i].to_json());
        assert(all.take(i + 1) =~= all.take(i as int).push(list@[i as int]@.json()));
        i = i + 1;
    }
    assert(all.take(i as int) =~= all);
    out
}

// ---------------------------------------------------------------------------
// WebSocket
// ---------------------------------------------------------------------------

/// A frame from a daemon.
#[derive(Debug)]
pub enum ClientFrame {
    /// Bind this connection to a session. Always the first frame.
    Connect {
        /// The session registered over REST.
        session_id: AgentSessionId,
        /// The daemon's version.
        client_version: Option<String>,
    },
    /// Keep presence alive. Cheaper than the REST call and on the same
    /// connection, so a daemon that can talk at all stays online.
    Heartbeat,
    /// Confirm a message arrived.
    Ack {
        /// The message being acknowledged.
        message_id: AgentMessageId,
    },
    /// Answer to a `Ping`.
    Pong,
}

/// A frame from the gateway.
#[derive(Debug)]
pub enum ServerFrame {
    /// The connection is bound and presence is live.
    Connected {
        /// Echoed back, so that a daemon reconnecting can be sure which session
        /// it is on.
        session_id: AgentSessionId,
        /// How often to heartbeat.
        heartbeat_interval_secs: u64,
        /// The gateway's version.
        server_version: String,
    },
    /// Presence extended.
    HeartbeatAck {
        /// The new expiry.
        expires_at: Timestamp,
    },
    /// A message for this agent. Goes to the local inbox, not to the agent.
    Message(MessageView),
    /// Liveness check for an idle connection.
    Ping,
    /// Something was wrong with the last frame. The connection stays open
    /// unless `fatal` is set: a daemon that sent one bad frame should not
    /// lose its presence over it.
    Error {
        /// What went wrong, safe to log.
        message: String,
        /// Whether the gateway is about to close the connection.
        fatal: bool,
    },
}

// ---------------------------------------------------------------------------
// Nothing is lost on the way
// ---------------------------------------------------------------------------

/// A message is written with everything it holds.
pub proof fn a_message_is_written_whole(message: MessageView, r: Json)
    requires
        call_ensures(MessageView::to_json, (&message,), r),
    ensures
        r@.field("id"@) == Some(JsonView::Text(model::hyphenated(message.id.0))),
        r@.field("content"@) == Some(JsonView::Text(message.content@)),
        r@.field("from"@) == Some(
            match message.from {
                Some(name) => JsonView::Text(name@),
                None => JsonView::Null,
            },
        ),
        r@.field("from_session_id"@) == Some(
            match message.from_session_id {
                Some(id) => JsonView::Text(model::hyphenated(id.0)),
                None => JsonView::Null,
            },
        ),
        r@.field("created_at"@) == Some(JsonView::Text(message.created_at.text())),
        forall|name: Seq<char>|
            name != "id"@ && name != "content"@ && name != "from"@ && name != "from_session_id"@ && name != "created_at"@ ==> (#[trigger] r@.field(
                name,
            )) is None,
{
    broadcast use json::lemma_field_of_entry;

    reveal_strlit("id");
    reveal_strlit("content");
    reveal_strlit("from");
    reveal_strlit("from_session_id");
    reveal_strlit("created_at");
    assert("id"@.len() == 2);
    assert("content"@.len() == 7);
    assert("from"@.len() == 4);
    assert("from_session_id"@.len() == 15);
    assert("created_at"@.len() == 10);
}

/// Messages that are written as a list are all there, one item for each and in
/// their order, and every item holds what its message holds.
pub proof fn every_message_is_listed(list: Vec<MessageView>, r: Json, i: int)
    requires
        call_ensures(messages_to_json, (&list,), r),
        0 <= i < list@.len(),
    ensures
        r@ is Array,
        r@.items().len() == list@.len(),
        r@.items()[i].field("id"@) == Some(JsonView::Text(model::hyphenated(list@[i].id.0))),
        r@.items()[i].field("content"@) == Some(JsonView::Text(list@[i].content@)),
        r@.items()[i].field("from"@) == Some(
            match list@[i].from {
                Some(name) => JsonView::Text(name@),
                None => JsonView::Null,
            },
        ),
        r@.items()[i].field("from_session_id"@) == Some(
            match list@[i].from_session_id {
                Some(id) => JsonView::Text(model::hyphenated(id.0)),
                None => JsonView::Null,
            },
        ),
        r@.items()[i].field("created_at"@) == Some(JsonView::Text(list@[i].created_at.text())),
{
    broadcast use json::lemma_field_of_entry;

    reveal_strlit("id");
    reveal_strlit("content");
    reveal_strlit("from");
    reveal_strlit("from_session_id");
    reveal_strlit("created_at");
    assert("id"@.len() == 2);
    assert("content"@.len() == 7);
    assert("from"@.len() == 4);
    assert("from_session_id"@.len() == 15);
    assert("created_at"@.len() == 10);
}

/// Two messages that are listed are two items.
pub proof fn two_messages_are_two_items(list: Vec<MessageView>, r: Json, i: int, j: int)
    requires
        call_ensures(messages_to_json, (&list,), r),
        0 <= i < list@.len(),
        0 <= j < list@.len(),
        list@[i].id != list@[j].id,
    ensures
        r@.items()[i] != r@.items()[j],
{
    every_message_is_listed(list, r, i);
    every_message_is_listed(list, r, j);
    model::two_identifiers_are_two_texts(list@[i].id.0, list@[j].id.0);
}

/// Agents that are written as a list are all there, one item for each and in
/// their order, and every item holds what is known of its agent.
pub proof fn every_agent_is_listed(list: Vec<OnlineAgent>, r: Json, i: int)
    requires
        call_ensures(agents_to_json, (&list,), r),
        0 <= i < list@.len(),
    ensures
        r@ is Array,
        r@.items().len() == list@.len(),
        r@.items()[i].field("session_id"@) == Some(
            JsonView::Text(model::hyphenated(list@[i].session_id.0)),
        ),
        r@.items()[i].field("developer"@) == Some(
            match list@[i].developer {
                Some(name) => JsonView::Text(name@),
                None => JsonView::Null,
            },
        ),
        r@.items()[i].field("repository"@) == Some(
            match list@[i].repository {
                Some(name) => JsonView::Text(name@),
                None => JsonView::Null,
            },
        ),
        r@.items()[i].field("branch"@) == Some(
            match list@[i].branch {
                Some(name) => JsonView::Text(name@),
                None => JsonView::Null,
            },
        ),
        r@.items()[i].field("last_seen_at"@) == Some(
            JsonView::Text(list@[i].last_seen_at.text()),
        ),
{
    broadcast use json::lemma_field_of_entry;

    reveal_strlit("session_id");
    reveal_strlit("developer");
    reveal_strlit("repository");
    reveal_strlit("branch");
    reveal_strlit("last_seen_at");
    assert("session_id"@.len() == 10);
    assert("developer"@.len() == 9);
    assert("repository"@.len() == 10);
    assert("branch"@.len() == 6);
    assert("last_seen_at"@.len() == 12);
    assert("session_id"@[0] != "repository"@[0]);
}

/// Nothing that a list of a query holds is blank or has whitespace around it,
/// and what was put into a query with commas is read out of it again.
pub proof fn a_list_in_a_query_is_read_back(parts: Seq<Seq<char>>, s: &str, r: Vec<String>)
    requires
        call_ensures(SearchMemories::split, (Some(s),), r),
        s@ == text::joined(parts, seq![',']),
        parts.len() > 0,
        forall|i: int, j: int|
            #![trigger parts[i][j]]
            0 <= i < parts.len() && 0 <= j < parts[i].len() ==> parts[i][j] != ',',
        forall|i: int|
            0 <= i < parts.len() ==> (#[trigger] parts[i]).len() > 0 && !text::whitespace(
                parts[i][0],
            ) && !text::whitespace(parts[i].last()),
    ensures
        text::texts(r@) == parts,
{
    text::what_was_joined_is_cut_again(parts, ',');
    lemma_all_kept(parts);
}

proof fn lemma_all_kept(parts: Seq<Seq<char>>)
    requires
        forall|i: int|
            0 <= i < parts.len() ==> (#[trigger] parts[i]).len() > 0 && !text::whitespace(
                parts[i][0],
            ) && !text::whitespace(parts[i].last()),
    ensures
        non_empty(parts) == parts,
    decreases parts.len(),
{
    if parts.len() > 0 {
        let rest = parts.drop_last();
        assert forall|i: int| 0 <= i < rest.len() implies (#[trigger] rest[i]).len() > 0
            && !text::whitespace(rest[i][0]) && !text::whitespace(rest[i].last()) by {
            assert(rest[i] == parts[i]);
        }
        lemma_all_kept(rest);
        let last = parts[parts.len() - 1];
        text::lemma_trimmed(last);
        assert(rest.push(last) =~= parts);
    } else {
        assert(non_empty(parts) =~= parts);
    }
}

proof fn lemma_non_empty_apart(a: Seq<Seq<char>>, b: Seq<Seq<char>>)
    ensures
        non_empty(a + b) == non_empty(a) + non_empty(b),
    decreases b.len(),
{
    if b.len() == 0 {
        assert(a + b =~= a);
        assert(non_empty(a) + non_empty(b) =~= non_empty(a));
    } else {
        assert((a + b).drop_last() =~= a + b.drop_last());
        assert((a + b).last() == b.last());
        lemma_non_empty_apart(a, b.drop_last());
        assert(non_empty(a + b) =~= non_empty(a) + non_empty(b));
    }
}

/// Two lists with a comma between them are one list, of the items of the first
/// and behind them those of the second.
pub proof fn two_lists_are_one_list(
    a: &str,
    b: &str,
    whole: &str,
    x: Vec<String>,
    y: Vec<String>,
    r: Vec<String>,
)
    requires
        call_ensures(SearchMemories::split, (Some(a),), x),
        call_ensures(SearchMemories::split, (Some(b),), y),
        whole@ == a@ + seq![','] + b@,
        call_ensures(SearchMemories::split, (Some(whole),), r),
    ensures
        text::texts(r@) == text::texts(x@) + text::texts(y@),
{
    text::lemma_pieces_apart(a@, ',', b@);
    lemma_non_empty_apart(text::pieces(a@, ','), text::pieces(b@, ','));
}

/// An item of a list is read without the whitespace around it, and where there
/// is nothing but whitespace there is no item.
pub proof fn an_item_is_read_without_the_whitespace_around_it(
    s: &str,
    before: Seq<char>,
    item: Seq<char>,
    after: Seq<char>,
    r: Vec<String>,
    nothing: Vec<String>,
)
    requires
        call_ensures(SearchMemories::split, (Some(s),), r),
        call_ensures(SearchMemories::split, (None::<&str>,), nothing),
        s@ == before + item + after,
        text::blank(before),
        text::blank(after),
        forall|i: int| 0 <= i < item.len() ==> #[trigger] item[i] != ',',
        item.len() > 0 ==> !text::whitespace(item[0]) && !text::whitespace(item.last()),
    ensures
        item.len() > 0 ==> text::texts(r@) == seq![item],
        item.len() == 0 ==> r@.len() == 0,
        nothing@.len() == 0,
{
    let whole = s@;
    assert forall|i: int| 0 <= i < whole.len() implies whole[i] != ',' by {
        if i < before.len() {
            assert(whole[i] == before[i]);
            assert(text::whitespace(before[i]));
        } else if i < before.len() + item.len() {
            assert(whole[i] == item[i - before.len()]);
        } else {
            assert(whole[i] == after[i - before.len() - item.len()]);
            assert(text::whitespace(after[i - before.len() - item.len()]));
        }
    }
    text::lemma_first_index(whole, ',');
    let parts = text::pieces(whole, ',');
    assert(parts =~= seq![whole]);
    assert(parts.drop_last() =~= Seq::<Seq<char>>::empty());
    assert(non_empty(parts.drop_last()) =~= Seq::<Seq<char>>::empty());
    if item.len() > 0 {
        text::whitespace_around_a_text_is_trimmed(before, item, after);
        assert(non_empty(parts) =~= seq![item]);
    } else {
        assert(text::blank(whole)) by {
            assert forall|i: int| 0 <= i < whole.len() implies text::whitespace(
                #[trigger] whole[i],
            ) by {
                if i < before.len() {
                    assert(whole[i] == before[i]);
                } else {
                    assert(whole[i] == after[i - before.len()]);
                }
            }
        }
        text::a_blank_text_is_trimmed_away(whole);
        assert(text::texts(r@).len() == r@.len());
    }
    assert(text::texts(nothing@).len() == nothing@.len());
}

} // verus!
