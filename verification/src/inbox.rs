//! The messages that wait for one session.
//!
//! The gateway hands a message over again until it is acknowledged, so the same
//! message arrives more than once and must not be shown more than once. And an
//! agent that never looks must not fill the memory of somebody's laptop, so the
//! oldest message makes room for the newest.
use std::collections::VecDeque;
use vstd::prelude::*;

use crate::agent_protocol;
use crate::agent_protocol::{Message, MessageView};
use crate::model::AgentMessageId;

verus! {

/// How many messages one session's inbox holds before the oldest is dropped.
pub const INBOX_CAPACITY: usize = 500;

/// The messages that wait for one session, the oldest first.
#[derive(Debug)]
pub struct Inbox {
    pub messages: VecDeque<MessageView>,
}

impl View for Inbox {
    type V = Seq<Message>;

    open spec fn view(&self) -> Seq<Message> {
        agent_protocol::messages(self.messages@)
    }
}

/// A message of that identifier is among those that wait.
pub open spec fn holds(waiting: Seq<Message>, id: AgentMessageId) -> bool {
    exists|i: int| 0 <= i < waiting.len() && (#[trigger] waiting[i]).id == id
}

/// No message waits twice, and no more wait than there is room for.
pub open spec fn orderly(waiting: Seq<Message>) -> bool {
    &&& waiting.len() <= INBOX_CAPACITY
    &&& forall|i: int, j: int|
        #![trigger waiting[i], waiting[j]]
        0 <= i < j < waiting.len() ==> waiting[i].id != waiting[j].id
}

/// What waits once a message has arrived: it joins at the end unless it waits
/// already, and the oldest makes room where there is none.
pub open spec fn received(waiting: Seq<Message>, message: Message) -> Seq<Message> {
    if holds(waiting, message.id) {
        waiting
    } else if waiting.len() >= INBOX_CAPACITY {
        waiting.skip(1).push(message)
    } else {
        waiting.push(message)
    }
}

/// What waits once messages have arrived one by one.
pub open spec fn received_all(waiting: Seq<Message>, arrived: Seq<Message>) -> Seq<Message>
    decreases arrived.len(),
{
    if arrived.len() == 0 {
        waiting
    } else {
        received(received_all(waiting, arrived.drop_last()), arrived.last())
    }
}

/// However often a message arrives, it waits once; and however many arrive,
/// the inbox stays within its bounds.
pub proof fn an_inbox_stays_orderly(waiting: Seq<Message>, message: Message)
    requires
        orderly(waiting),
    ensures
        orderly(received(waiting, message)),
        holds(received(waiting, message), message.id),
        received(received(waiting, message), message) == received(waiting, message),
{
    let after = received(waiting, message);
    if !holds(waiting, message.id) {
        let kept = if waiting.len() >= INBOX_CAPACITY {
            waiting.skip(1)
        } else {
            waiting
        };
        assert(after == kept.push(message));
        assert(after[kept.len() as int].id == message.id);
        assert forall|i: int, j: int|
            #![trigger after[i], after[j]]
            0 <= i < j < after.len() implies after[i].id != after[j].id by {
            let shift: int = if waiting.len() >= INBOX_CAPACITY {
                1
            } else {
                0
            };
            assert(after[i] == waiting[i + shift]);
            if j < kept.len() {
                assert(after[j] == waiting[j + shift]);
            }
        }
    }
}

/// Messages that arrive one by one leave the inbox in order.
pub proof fn lemma_received_all(waiting: Seq<Message>, arrived: Seq<Message>)
    requires
        orderly(waiting),
    ensures
        orderly(received_all(waiting, arrived)),
    decreases arrived.len(),
{
    if arrived.len() > 0 {
        lemma_received_all(waiting, arrived.drop_last());
        an_inbox_stays_orderly(received_all(waiting, arrived.drop_last()), arrived.last());
    }
}

/// Where there is room, nothing that waits is lost by an arrival.
pub proof fn an_arrival_with_room_drops_nothing(waiting: Seq<Message>, message: Message, i: int)
    requires
        waiting.len() < INBOX_CAPACITY,
        0 <= i < waiting.len(),
    ensures
        received(waiting, message).len() >= waiting.len(),
        received(waiting, message)[i] == waiting[i],
{
}

impl Inbox {
    /// An inbox in which nothing waits.
    pub fn new() -> (r: Inbox)
        ensures
            r@ == Seq::<Message>::empty(),
    {
        let r = Inbox { messages: VecDeque::new() };
        assert(r@ =~= Seq::<Message>::empty());
        r
    }

    /// How many messages wait.
    pub fn len(&self) -> (r: usize)
        ensures
            r == self@.len(),
    {
        self.messages.len()
    }

    /// Take a message in.
    pub fn push(&mut self, message: MessageView)
        ensures
            final(self)@ == received(old(self)@, message@),
    {
        let ghost before = self@;
        let mut i: usize = 0;
        while i < self.messages.len()
            invariant
                i <= self.messages@.len(),
                self@ == before,
                before == old(self)@,
                forall|j: int| 0 <= j < i ==> (#[trigger] before[j]).id != message.id,
            decreases self.messages@.len() - i,
        {
            assert(before[i as int] == self.messages@[i as int]@);
            if self.messages[i].id == message.id {
                assert(holds(before, message.id));
                return;
            }
            i = i + 1;
        }
        assert(!holds(before, message.id));
        if self.messages.len() >= INBOX_CAPACITY {
            let _ = self.messages.pop_front();
            assert(self@ =~= before.skip(1));
        }
        let ghost kept = self@;
        self.messages.push_back(message);
        assert(self@ =~= kept.push(message@));
    }

    /// Take messages in, one by one.
    pub fn push_all(&mut self, arrived: Vec<MessageView>)
        ensures
            final(self)@ == received_all(old(self)@, agent_protocol::messages(arrived@)),
    {
        let ghost all = agent_protocol::messages(arrived@);
        let ghost before = self@;
        let mut rest = arrived;
        let ghost mut done: int = 0;
        assert(all.take(0) =~= Seq::<Message>::empty());
        assert(all.skip(0) =~= all);
        while rest.len() > 0
            invariant
                0 <= done <= all.len(),
                agent_protocol::messages(rest@) == all.skip(done),
                self@ == received_all(before, all.take(done)),
            decreases rest@.len(),
        {
            let ghost next = all.take(done + 1);
            assert(all.skip(done).len() == rest@.len());
            assert(next.drop_last() =~= all.take(done));
            assert(next.last() == rest@[0]@) by {
                assert(agent_protocol::messages(rest@)[0] == all.skip(done)[0]);
            }
            let ghost was = rest@;
            let message = rest.remove(0);
            self.push(message);
            assert(agent_protocol::messages(rest@) =~= all.skip(done + 1)) by {
                assert(agent_protocol::messages(rest@) =~= agent_protocol::messages(was).skip(1));
            }
            proof {
                done = done + 1;
            }
        }
        assert(all.take(done) =~= all) by {
            assert(agent_protocol::messages(rest@).len() == 0);
        }
    }

    /// Hand out the oldest messages, `how_many` of them.
    pub fn drain(&mut self, how_many: usize) -> (r: Vec<MessageView>)
        requires
            how_many <= old(self)@.len(),
        ensures
            agent_protocol::messages(r@) == old(self)@.take(how_many as int),
            final(self)@ == old(self)@.skip(how_many as int),
    {
        let ghost before = self@;
        let mut out: Vec<MessageView> = Vec::new();
        assert(before.skip(0) =~= before);
        assert(agent_protocol::messages(out@) =~= before.take(0));
        while out.len() < how_many
            invariant
                out@.len() <= how_many <= before.len(),
                agent_protocol::messages(out@) == before.take(out@.len() as int),
                self@ == before.skip(out@.len() as int),
            decreases how_many - out.len(),
        {
            let ghost n = out@.len() as int;
            let ghost was = out@;
            assert(self@.len() == before.len() - n);
            assert(self@[0] == before[n]);
            match self.messages.pop_front() {
                Some(message) => {
                    out.push(message);
                    assert(message@ == before[n]);
                    assert(agent_protocol::messages(out@) =~= before.take(n + 1)) by {
                        assert(agent_protocol::messages(out@) =~= agent_protocol::messages(
                            was,
                        ).push(message@));
                    }
                    assert(self@ =~= before.skip(n + 1)) by {
                        assert(self@ =~= before.skip(n).skip(1));
                    }
                },
                None => {
                    assert(false);
                },
            }
        }
        out
    }
}

/// Draining splits what waits in two: what is handed out, and what still
/// waits. Nothing is lost and nothing is handed out twice.
pub proof fn draining_loses_nothing(waiting: Seq<Message>, how_many: int)
    requires
        0 <= how_many <= waiting.len(),
        orderly(waiting),
    ensures
        waiting.take(how_many) + waiting.skip(how_many) == waiting,
        orderly(waiting.skip(how_many)),
        forall|i: int|
            #![trigger waiting.take(how_many)[i]]
            0 <= i < how_many ==> !holds(
                waiting.skip(how_many),
                waiting.take(how_many)[i].id,
            ),
{
    assert(waiting.take(how_many) + waiting.skip(how_many) =~= waiting);
    let rest = waiting.skip(how_many);
    assert forall|i: int, j: int|
        #![trigger rest[i], rest[j]]
        0 <= i < j < rest.len() implies rest[i].id != rest[j].id by {
        assert(rest[i] == waiting[i + how_many]);
        assert(rest[j] == waiting[j + how_many]);
    }
    assert forall|i: int| 0 <= i < how_many implies !holds(
        rest,
        #[trigger] waiting.take(how_many)[i].id,
    ) by {
        if holds(rest, waiting.take(how_many)[i].id) {
            let j = choose|j: int|
                0 <= j < rest.len() && (#[trigger] rest[j]).id == waiting.take(how_many)[i].id;
            assert(rest[j] == waiting[j + how_many]);
            assert(waiting.take(how_many)[i] == waiting[i]);
        }
    }
}

/// A message that waits already changes nothing; one that is new joins behind
/// all the others.
pub proof fn a_new_message_joins_at_the_end(waiting: Seq<Message>, message: Message)
    ensures
        holds(waiting, message.id) ==> received(waiting, message) == waiting,
        !holds(waiting, message.id) ==> received(waiting, message).last() == message,
        !holds(waiting, message.id) && waiting.len() < INBOX_CAPACITY ==> received(
            waiting,
            message,
        ).drop_last() == waiting,
{
    assert(waiting.push(message).drop_last() =~= waiting);
}

/// Where there is no room, a new message costs the oldest one, and no other.
pub proof fn a_full_inbox_loses_the_oldest_alone(waiting: Seq<Message>, message: Message)
    requires
        waiting.len() == INBOX_CAPACITY,
        !holds(waiting, message.id),
    ensures
        received(waiting, message).len() == INBOX_CAPACITY,
        forall|i: int|
            0 < i < waiting.len() ==> received(waiting, message)[i - 1] == #[trigger] waiting[i],
        received(waiting, message).last() == message,
{
}

/// Messages that arrive together are taken in as if they came one after the
/// other.
pub proof fn arrivals_are_taken_in_their_order(
    waiting: Seq<Message>,
    first: Seq<Message>,
    second: Seq<Message>,
)
    ensures
        received_all(waiting, first + second) == received_all(
            received_all(waiting, first),
            second,
        ),
        received_all(waiting, Seq::empty()) == waiting,
    decreases second.len(),
{
    let all = first + second;
    if second.len() == 0 {
        assert(all =~= first);
    } else {
        arrivals_are_taken_in_their_order(waiting, first, second.drop_last());
        assert(all.drop_last() =~= first + second.drop_last());
        assert(all.last() == second.last());
    }
}

/// New messages that there is room for all wait afterwards, behind what waited
/// before and in the order in which they came.
pub proof fn new_messages_all_wait(waiting: Seq<Message>, arrived: Seq<Message>)
    requires
        waiting.len() + arrived.len() <= INBOX_CAPACITY,
        forall|i: int|
            0 <= i < arrived.len() ==> !holds(waiting, (#[trigger] arrived[i]).id),
        forall|i: int, j: int|
            #![trigger arrived[i], arrived[j]]
            0 <= i < j < arrived.len() ==> arrived[i].id != arrived[j].id,
    ensures
        received_all(waiting, arrived) == waiting + arrived,
    decreases arrived.len(),
{
    if arrived.len() == 0 {
        assert(waiting + arrived =~= waiting);
    } else {
        let rest = arrived.drop_last();
        let last = arrived.last();
        assert forall|i: int| 0 <= i < rest.len() implies !holds(
            waiting,
            (#[trigger] rest[i]).id,
        ) by {
            assert(rest[i] == arrived[i]);
        }
        assert forall|i: int, j: int|
            #![trigger rest[i], rest[j]]
            0 <= i < j < rest.len() implies rest[i].id != rest[j].id by {
            assert(arrived[i].id != arrived[j].id);
        }
        new_messages_all_wait(waiting, rest);
        let so_far = waiting + rest;
        if holds(so_far, last.id) {
            let i = choose|i: int| 0 <= i < so_far.len() && (#[trigger] so_far[i]).id == last.id;
            if i < waiting.len() {
                assert(waiting[i].id == last.id);
                assert(holds(waiting, arrived[arrived.len() - 1].id));
            } else {
                assert(so_far[i] == arrived[i - waiting.len()]);
                assert(arrived[i - waiting.len()].id != arrived[arrived.len() - 1].id);
            }
        }
        assert(so_far.push(last) =~= waiting + arrived);
    }
}

/// There is room for five hundred messages: up to then every new one adds to
/// what waits, and from then on nothing does.
pub proof fn five_hundred_messages_can_wait(waiting: Seq<Message>, message: Message)
    requires
        orderly(waiting),
        !holds(waiting, message.id),
    ensures
        received(waiting, message).len() == if waiting.len() < 500 {
            waiting.len() + 1
        } else {
            500
        },
        received(waiting, message).last() == message,
{
}

/// However a message comes to an inbox, what waited before still waits as far as
/// there is room, and so does the message; and what is taken out is the front of
/// what waited, in its order, while the rest goes on waiting.
pub proof fn an_inbox_gives_back_what_it_took()
    ensures
        forall|inbox: &mut Inbox, message: MessageView|
            #[trigger] call_ensures(Inbox::push, (inbox, message), ()) ==> {
                &&& holds(inbox@, message.id) ==> final(inbox)@ == inbox@
                &&& !holds(inbox@, message.id) && inbox@.len() < 500 ==> final(inbox)@
                    == inbox@.push(message@)
                &&& !holds(inbox@, message.id) && inbox@.len() >= 500 ==> final(inbox)@
                    == inbox@.skip(1).push(message@)
            },
        forall|inbox: &mut Inbox, n: usize, r: Vec<MessageView>|
            #[trigger] call_ensures(Inbox::drain, (inbox, n), r) && n <= inbox@.len() ==> {
                &&& r@.len() == n
                &&& agent_protocol::messages(r@) + final(inbox)@ == inbox@
            },
{
    assert forall|inbox: &mut Inbox, n: usize, r: Vec<MessageView>|
        #[trigger] call_ensures(Inbox::drain, (inbox, n), r) && n <= inbox@.len() implies {
        &&& r@.len() == n
        &&& agent_protocol::messages(r@) + final(inbox)@ == inbox@
    } by {
        assert(agent_protocol::messages(r@).len() == r@.len());
        assert(agent_protocol::messages(r@) + final(inbox)@ =~= inbox@);
    }
}

} // verus!
