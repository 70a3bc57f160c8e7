//! The broadcast hub: one fan-out point that hands a published text to
//! every subscriber but the publisher. Each subscriber has a backlog of
//! bounded length; a text that arrives at a full backlog pushes the oldest
//! one out, so publishing never waits for a slow subscriber.

use crate::text::texts;
use std::collections::VecDeque;
use vstd::prelude::*;
use vstd::string::*;

verus! {

/// Names one subscription of a hub. No two subscriptions of one hub share
/// an identifier, not even after one of them has ended.
pub type SubscriberId = u64;

/// The backlog length that the relay gives its hub.
pub const HUB_CAPACITY: usize = 32;

/// The backlog after a text has arrived: the text is the newest item, and
/// where the backlog was full the oldest item has left.
pub open spec fn push_bounded(backlog: Seq<Seq<char>>, text: Seq<char>, capacity: nat) -> Seq<
    Seq<char>,
> {
    if backlog.len() < capacity {
        backlog.push(text)
    } else {
        backlog.drop_first().push(text)
    }
}

/// What a [`Hub`] holds, as plain values.
pub ghost struct HubView {
    /// The most texts that a backlog holds.
    pub capacity: nat,
    /// The number of identifiers handed out so far.
    pub issued: nat,
    /// The backlog of each subscriber, oldest text first.
    pub backlogs: Map<SubscriberId, Seq<Seq<char>>>,
}

impl HubView {
    /// Every backlog is within the capacity, and every subscriber has an
    /// identifier that was handed out.
    pub open spec fn wf(self) -> bool {
        &&& self.capacity >= 1
        &&& self.issued <= u64::MAX
        &&& forall|id: SubscriberId| #[trigger]
            self.backlogs.contains_key(id) ==> id < self.issued && self.backlogs[id].len()
                <= self.capacity
    }

    pub open spec fn subscribed(self, id: SubscriberId) -> bool {
        self.backlogs.contains_key(id)
    }

    /// A new subscriber with an empty backlog, under the next identifier.
    pub open spec fn subscribe(self) -> HubView {
        HubView {
            issued: self.issued + 1,
            backlogs: self.backlogs.insert(self.issued as SubscriberId, Seq::empty()),
            ..self
        }
    }

    /// The subscriber and its backlog are gone.
    pub open spec fn unsubscribe(self, id: SubscriberId) -> HubView {
        HubView { backlogs: self.backlogs.remove(id), ..self }
    }

    /// The text has arrived at every subscriber but `from`.
    pub open spec fn publish(self, from: SubscriberId, text: Seq<char>) -> HubView {
        HubView {
            backlogs: Map::new(
                |id: SubscriberId| self.backlogs.contains_key(id),
                |id: SubscriberId|
                    if id == from {
                        self.backlogs[id]
                    } else {
                        push_bounded(self.backlogs[id], text, self.capacity)
                    },
            ),
            ..self
        }
    }

    /// The oldest text that waits for the subscriber, if any.
    pub open spec fn oldest(self, id: SubscriberId) -> Option<Seq<char>> {
        if self.backlogs.contains_key(id) && self.backlogs[id].len() > 0 {
            Some(self.backlogs[id][0])
        } else {
            None
        }
    }

    /// The oldest text that waits for the subscriber has been taken.
    pub open spec fn advance(self, id: SubscriberId) -> HubView {
        if self.backlogs.contains_key(id) && self.backlogs[id].len() > 0 {
            HubView { backlogs: self.backlogs.insert(id, self.backlogs[id].drop_first()), ..self }
        } else {
            self
        }
    }
}

/// A text that is published reaches every subscriber other than the
/// publisher as its newest item, reaches nobody else, and leaves the
/// publisher's own backlog as it was.
pub proof fn law_publish_reaches_every_other_subscriber(
    hub: HubView,
    from: SubscriberId,
    text: Seq<char>,
    id: SubscriberId,
)
    requires
        hub.wf(),
    ensures
        hub.publish(from, text).subscribed(id) == hub.subscribed(id),
        hub.subscribed(id) && id != from ==> hub.publish(from, text).backlogs[id].last() == text,
        hub.subscribed(id) && id == from ==> hub.publish(from, text).backlogs[id]
            == hub.backlogs[id],
        hub.publish(from, text).wf(),
{
}

/// A subscriber that has left receives nothing of what is published
/// afterwards, and a subscriber that arrives sees nothing of what was
/// published before.
pub proof fn law_no_delivery_outside_subscription(
    hub: HubView,
    from: SubscriberId,
    text: Seq<char>,
    id: SubscriberId,
)
    requires
        hub.wf(),
        hub.issued < u64::MAX,
    ensures
        !hub.unsubscribe(id).publish(from, text).subscribed(id),
        hub.unsubscribe(id).publish(from, text).oldest(id) is None,
        hub.publish(from, text).subscribe().backlogs[hub.issued as SubscriberId].len() == 0,
        hub.unsubscribe(id).wf(),
        hub.subscribe().wf(),
{
}

/// Publishing to a full backlog drops exactly its oldest text: what was
/// second becomes first, and the length stays at the capacity. Below the
/// capacity nothing is lost.
pub proof fn law_overflow_drops_oldest(
    hub: HubView,
    from: SubscriberId,
    text: Seq<char>,
    id: SubscriberId,
)
    requires
        hub.wf(),
        hub.subscribed(id),
        id != from,
    ensures
        hub.publish(from, text).backlogs[id].len() <= hub.capacity,
        hub.backlogs[id].len() < hub.capacity ==> hub.publish(from, text).backlogs[id]
            == hub.backlogs[id].push(text),
        hub.backlogs[id].len() == hub.capacity ==> hub.publish(from, text).backlogs[id]
            == hub.backlogs[id].skip(1).push(text),
{
}

/// Texts leave a backlog in the order in which they were published.
pub proof fn law_delivery_in_order(
    hub: HubView,
    from: SubscriberId,
    first: Seq<char>,
    second: Seq<char>,
    id: SubscriberId,
)
    requires
        hub.wf(),
        hub.subscribed(id),
        id != from,
        hub.backlogs[id].len() == 0,
        hub.capacity >= 2,
    ensures
        hub.publish(from, first).publish(from, second).oldest(id) == Some(first),
        hub.publish(from, first).publish(from, second).advance(id).oldest(id) == Some(second),
{
}

struct Subscriber {
    id: SubscriberId,
    backlog: VecDeque<String>,
}

/// The broadcast hub.
pub struct Hub {
    capacity: usize,
    next_id: u64,
    subscribers: Vec<Subscriber>,
    model: Ghost<Map<SubscriberId, Seq<Seq<char>>>>,
}

impl View for Hub {
    type V = HubView;

    closed spec fn view(&self) -> HubView {
        HubView { capacity: self.capacity as nat, issued: self.next_id as nat, backlogs: self.model@ }
    }
}

impl Hub {
    /// The hub is valid: what it shows is well-formed, and it holds what it
    /// shows.
    pub open spec fn wf(&self) -> bool {
        &&& self@.wf()
        &&& self.inv()
    }

    /// The subscribers are held once each, with the backlogs that the view
    /// shows.
    pub closed spec fn inv(&self) -> bool {
        &&& forall|i: int|
            0 <= i < self.subscribers@.len() ==> self.model@.contains_key(
                (#[trigger] self.subscribers@[i]).id,
            ) && self.model@[self.subscribers@[i].id] == texts(self.subscribers@[i].backlog@)
        &&& forall|id: SubscriberId| #[trigger]
            self.model@.contains_key(id) ==> exists|i: int|
                0 <= i < self.subscribers@.len() && (#[trigger] self.subscribers@[i]).id == id
        &&& forall|i: int, j: int|
            0 <= i < j < self.subscribers@.len() ==> (#[trigger] self.subscribers@[i]).id != (
            #[trigger] self.subscribers@[j]).id
    }

    /// A hub without subscribers whose backlogs hold up to `capacity` texts.
    pub fn new(capacity: usize) -> (hub: Hub)
        requires
            capacity >= 1,
        ensures
            hub.wf(),
            hub@ == (HubView { capacity: capacity as nat, issued: 0, backlogs: Map::empty() }),
    {
        Hub { capacity, next_id: 0, subscribers: Vec::new(), model: Ghost(Map::empty()) }
    }

    /// Where the subscriber stands among the subscribers, if it is one.
    fn position(&self, id: SubscriberId) -> (at: Option<usize>)
        requires
            self.wf(),
        ensures
            at is Some == self@.subscribed(id),
            at matches Some(i) ==> i < self.subscribers@.len() && self.subscribers@[i as int].id
                == id,
    {
        let mut i: usize = 0;
        while i < self.subscribers.len()
            invariant
                i <= self.subscribers@.len(),
                forall|j: int| 0 <= j < i ==> (#[trigger] self.subscribers@[j]).id != id,
                self.wf(),
            decreases self.subscribers@.len() - i,
        {
            if self.subscribers[i].id == id {
                return Some(i);
            }
            i += 1;
        }
        None
    }

    /// Adds a subscriber with an empty backlog and returns its identifier;
    /// returns nothing, and changes nothing, once every identifier has been
    /// handed out.
    pub fn subscribe(&mut self) -> (id: Option<SubscriberId>)
        requires
            old(self).wf(),
        ensures
            final(self).wf(),
            old(self)@.issued < u64::MAX ==> id == Some(old(self)@.issued as SubscriberId)
                && final(self)@ == old(self)@.subscribe(),
            old(self)@.issued == u64::MAX ==> id is None && final(self)@ == old(self)@,
    {
        if self.next_id == u64::MAX {
            return None;
        }
        let id = self.next_id;
        let ghost before = *self;
        self.subscribers.push(Subscriber { id, backlog: VecDeque::new() });
        self.next_id = id + 1;
        self.model = Ghost(before.model@.insert(id, Seq::empty()));
        proof {
            let last = before.subscribers@.len() as int;
            assert(self.subscribers@[last].id == id);
            assert(texts(self.subscribers@[last].backlog@) =~= Seq::<Seq<char>>::empty());
            assert forall|i: int| 0 <= i < self.subscribers@.len() implies self.model@.contains_key(
                (#[trigger] self.subscribers@[i]).id,
            ) && self.model@[self.subscribers@[i].id] == texts(self.subscribers@[i].backlog@) by {
                if i < last {
                    assert(self.subscribers@[i] == before.subscribers@[i]);
                    assert(before@.backlogs.contains_key(before.subscribers@[i].id));
                }
            }
            assert forall|other: SubscriberId| #[trigger]
                self.model@.contains_key(other) implies exists|i: int|
                0 <= i < self.subscribers@.len() && (#[trigger] self.subscribers@[i]).id
                    == other by {
                if other == id {
                    assert(self.subscribers@[last].id == other);
                } else {
                    assert(before.model@.contains_key(other));
                    let i = choose|i: int|
                        0 <= i < before.subscribers@.len() && (#[trigger] before.subscribers@[i]).id
                            == other;
                    assert(self.subscribers@[i] == before.subscribers@[i]);
                }
            }
            assert forall|i: int, j: int| 0 <= i < j < self.subscribers@.len() implies (
            #[trigger] self.subscribers@[i]).id != (#[trigger] self.subscribers@[j]).id by {
                assert(self.subscribers@[i] == before.subscribers@[i]);
                assert(before@.backlogs.contains_key(before.subscribers@[i].id));
                if j < last {
                    assert(self.subscribers@[j] == before.subscribers@[j]);
                }
            }
            assert forall|other: SubscriberId| #[trigger]
                self@.backlogs.contains_key(other) implies other < self@.issued
                && self@.backlogs[other].len() <= self@.capacity by {
                if other != id {
                    assert(before@.backlogs.contains_key(other));
                }
            }
        }
        Some(id)
    }

    /// Ends a subscription and drops its backlog. Returns whether there was
    /// such a subscriber.
    pub fn unsubscribe(&mut self, id: SubscriberId) -> (was_subscribed: bool)
        requires
            old(self).wf(),
        ensures
            final(self).wf(),
            final(self)@ == old(self)@.unsubscribe(id),
            was_subscribed == old(self)@.subscribed(id),
    {
        let ghost before = *self;
        match self.position(id) {
            None => {
                assert(self.model@.remove(id) =~= self.model@);
                false
            },
            Some(at) => {
                self.subscribers.remove(at);
                self.model = Ghost(before.model@.remove(id));
                proof {
                    let a = at as int;
                    assert forall|i: int| 0 <= i < self.subscribers@.len() implies (
                    #[trigger] self.subscribers@[i]) == before.subscribers@[if i < a {
                        i
                    } else {
                        i + 1
                    }] by {}
                    assert forall|i: int|
                        0 <= i < self.subscribers@.len() implies self.model@.contains_key(
                        (#[trigger] self.subscribers@[i]).id,
                    ) && self.model@[self.subscribers@[i].id] == texts(
                        self.subscribers@[i].backlog@,
                    ) by {
                        let k = if i < a {
                            i
                        } else {
                            i + 1
                        };
                        assert(self.subscribers@[i] == before.subscribers@[k]);
                        assert(before.subscribers@[k].id != before.subscribers@[a].id);
                    }
                    assert forall|other: SubscriberId| #[trigger]
                        self.model@.contains_key(other) implies exists|i: int|
                        0 <= i < self.subscribers@.len() && (#[trigger] self.subscribers@[i]).id
                            == other by {
                        assert(before.model@.contains_key(other));
                        let k = choose|k: int|
                            0 <= k < before.subscribers@.len() && (
                            #[trigger] before.subscribers@[k]).id == other;
                        let i = if k < a {
                            k
                        } else {
                            k - 1
                        };
                        assert(self.subscribers@[i] == before.subscribers@[k]);
                    }
                    assert forall|i: int, j: int|
                        0 <= i < j < self.subscribers@.len() implies (
                    #[trigger] self.subscribers@[i]).id != (#[trigger] self.subscribers@[j]).id by {
                        let ki = if i < a {
                            i
                        } else {
                            i + 1
                        };
                        let kj = if j < a {
                            j
                        } else {
                            j + 1
                        };
                        assert(self.subscribers@[i] == before.subscribers@[ki]);
                        assert(self.subscribers@[j] == before.subscribers@[kj]);
                    }
                }
                true
            },
        }
    }

    /// Hands the text to every subscriber but `from`. A backlog that is
    /// full loses its oldest text to make room; nothing else is lost, and
    /// the call does not depend on what any subscriber has read.
    pub fn publish(&mut self, from: SubscriberId, text: &str)
        requires
            old(self).wf(),
        ensures
            final(self).wf(),
            final(self)@ == old(self)@.publish(from, text@),
    {
        let ghost before = *self;
        let ghost target = before@.publish(from, text@).backlogs;
        let capacity = self.capacity;
        let mut i: usize = 0;
        while i < self.subscribers.len()
            invariant
                before.wf(),
                target == before@.publish(from, text@).backlogs,
                capacity == before.capacity,
                self.capacity == before.capacity,
                self.next_id == before.next_id,
                self.model == before.model,
                i <= self.subscribers@.len(),
                self.subscribers@.len() == before.subscribers@.len(),
                forall|j: int|
                    0 <= j < self.subscribers@.len() ==> (#[trigger] self.subscribers@[j]).id
                        == before.subscribers@[j].id,
                forall|j: int|
                    0 <= j < i ==> texts((#[trigger] self.subscribers@[j]).backlog@)
                        == target[before.subscribers@[j].id],
                forall|j: int|
                    i <= j < self.subscribers@.len() ==> (#[trigger] self.subscribers@[j])
                        == before.subscribers@[j],
            decreases self.subscribers@.len() - i,
        {
            let ghost step = self.subscribers@;
            assert(before.model@.contains_key(before.subscribers@[i as int].id));
            if self.subscribers[i].id != from {
                deliver(&mut self.subscribers[i], text, capacity);
            }
            assert(forall|j: int|
                0 <= j < self.subscribers@.len() && j != i ==> self.subscribers@[j] == step[j]);
            i += 1;
        }
        self.model = Ghost(target);
        proof {
            assert(self@ == before@.publish(from, text@));
            assert forall|id: SubscriberId| #[trigger]
                self.model@.contains_key(id) implies exists|i: int|
                0 <= i < self.subscribers@.len() && (#[trigger] self.subscribers@[i]).id == id by {
                assert(before.model@.contains_key(id));
                let k = choose|k: int|
                    0 <= k < before.subscribers@.len() && (#[trigger] before.subscribers@[k]).id
                        == id;
                assert(self.subscribers@[k].id == id);
            }
            assert forall|i: int, j: int| 0 <= i < j < self.subscribers@.len() implies (
            #[trigger] self.subscribers@[i]).id != (#[trigger] self.subscribers@[j]).id by {
                assert(self.subscribers@[i].id == before.subscribers@[i].id);
                assert(self.subscribers@[j].id == before.subscribers@[j].id);
            }
            assert forall|i: int| 0 <= i < self.subscribers@.len() implies self.model@.contains_key(
                (#[trigger] self.subscribers@[i]).id,
            ) && self.model@[self.subscribers@[i].id] == texts(self.subscribers@[i].backlog@) by {
                assert(self.subscribers@[i].id == before.subscribers@[i].id);
                assert(before.model@.contains_key(before.subscribers@[i].id));
            }
        }
    }

    /// Takes the oldest text that waits for the subscriber. Returns nothing
    /// where the backlog is empty or there is no such subscriber.
    pub fn receive(&mut self, id: SubscriberId) -> (text: Option<String>)
        requires
            old(self).wf(),
        ensures
            final(self).wf(),
            final(self)@ == old(self)@.advance(id),
            match text {
                Some(t) => old(self)@.oldest(id) == Some(t@),
                None => old(self)@.oldest(id) is None,
            },
    {
        let ghost before = *self;
        match self.position(id) {
            None => None,
            Some(at) => {
                let taken = self.subscribers[at].backlog.pop_front();
                let ghost rest = texts(self.subscribers@[at as int].backlog@);
                self.model = Ghost(before.model@.insert(id, rest));
                proof {
                    let a = at as int;
                    let full = before.subscribers@[a].backlog@;
                    assert(before.model@.contains_key(before.subscribers@[a].id));
                    if taken is Some {
                        assert(texts(full)[0] == full[0]@);
                        assert(rest =~= texts(full).drop_first());
                    } else {
                        assert(rest =~= texts(full));
                        assert(self.model@ =~= before.model@);
                    }
                    assert forall|i: int| 0 <= i < self.subscribers@.len() && i != a implies (
                    #[trigger] self.subscribers@[i]) == before.subscribers@[i] by {}
                    assert forall|other: SubscriberId| #[trigger]
                        self.model@.contains_key(other) implies exists|i: int|
                        0 <= i < self.subscribers@.len() && (#[trigger] self.subscribers@[i]).id
                            == other by {
                        if other == id {
                            assert(self.subscribers@[a].id == other);
                        } else {
                            assert(before.model@.contains_key(other));
                            let k = choose|k: int|
                                0 <= k < before.subscribers@.len() && (
                                #[trigger] before.subscribers@[k]).id == other;
                            assert(self.subscribers@[k].id == other);
                        }
                    }
                    assert forall|i: int, j: int|
                        0 <= i < j < self.subscribers@.len() implies (
                    #[trigger] self.subscribers@[i]).id != (#[trigger] self.subscribers@[j]).id by {
                        assert(self.subscribers@[i].id == before.subscribers@[i].id);
                        assert(self.subscribers@[j].id == before.subscribers@[j].id);
                    }
                    assert forall|i: int|
                        0 <= i < self.subscribers@.len() implies self.model@.contains_key(
                        (#[trigger] self.subscribers@[i]).id,
                    ) && self.model@[self.subscribers@[i].id] == texts(
                        self.subscribers@[i].backlog@,
                    ) by {
                        assert(self.subscribers@[i].id == before.subscribers@[i].id);
                        assert(before.model@.contains_key(before.subscribers@[i].id));
                        if i != a {
                            assert(before.subscribers@[i].id != before.subscribers@[a].id);
                        }
                    }
                }
                taken
            },
        }
    }

    /// Whether the identifier names a current subscriber.
    pub fn is_subscribed(&self, id: SubscriberId) -> (found: bool)
        requires
            self.wf(),
        ensures
            found == self@.subscribed(id),
    {
        self.position(id).is_some()
    }

    /// The number of texts that wait for the subscriber; zero where there
    /// is no such subscriber.
    pub fn pending(&self, id: SubscriberId) -> (count: usize)
        requires
            self.wf(),
        ensures
            count == if self@.subscribed(id) {
                self@.backlogs[id].len()
            } else {
                0
            },
    {
        match self.position(id) {
            None => 0,
            Some(at) => self.subscribers[at].backlog.len(),
        }
    }

    /// The most texts that a backlog holds.
    pub fn capacity(&self) -> (capacity: usize)
        ensures
            capacity == self@.capacity,
    {
        self.capacity
    }
}

/// Adds the text to the subscriber's backlog, dropping the oldest text
/// first where the backlog is full.
fn deliver(subscriber: &mut Subscriber, text: &str, capacity: usize)
    requires
        capacity >= 1,
        old(subscriber).backlog@.len() <= capacity,
    ensures
        final(subscriber).id == old(subscriber).id,
        texts(final(subscriber).backlog@) == push_bounded(
            texts(old(subscriber).backlog@),
            text@,
            capacity as nat,
        ),
{
    let ghost before = subscriber.backlog@;
    if subscriber.backlog.len() >= capacity {
        let _ = subscriber.backlog.pop_front();
    }
    subscriber.backlog.push_back(String::from_str(text));
    assert(texts(subscriber.backlog@) =~= push_bounded(texts(before), text@, capacity as nat));
}

} // verus!
