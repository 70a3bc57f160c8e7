//! The relay of the datagram transport: a registry of the peers that have
//! joined, by address, and the decision of what to forward to whom for each
//! packet that arrives.
//!
//! An entry stays until a `Leave` arrives from its address. Nothing expires:
//! a peer that vanishes without a `Leave` stays registered.

use crate::message::{MessageView, NetMessage};
use crate::wire::{decode_message, decoded_message, encode_message, wire_text};
use vstd::prelude::*;
use vstd::string::*;
use vstd::utf8::*;

verus! {

/// The address of a peer: the host as a 128-bit number (an IPv4 host in
/// its IPv6-mapped form) and the port.
#[derive(Clone, Copy, Debug, PartialEq, Eq, Hash, Structural)]
pub struct PeerAddr {
    pub host: u128,
    pub port: u16,
}

/// The registry after a message from `sender`: a `Join` registers the
/// sender under the name it gives, a `Leave` removes the sender, a `Chat`
/// changes nothing.
pub open spec fn apply(registry: Map<PeerAddr, Seq<char>>, sender: PeerAddr, m: MessageView) -> Map<
    PeerAddr,
    Seq<char>,
> {
    match m {
        MessageView::Join { username } => registry.insert(sender, username),
        MessageView::Leave { .. } => registry.remove(sender),
        MessageView::Chat { .. } => registry,
    }
}

/// The list names every registered peer but the sender, each once.
pub open spec fn is_recipient_list(
    list: Seq<PeerAddr>,
    registry: Map<PeerAddr, Seq<char>>,
    sender: PeerAddr,
) -> bool {
    &&& list.no_duplicates()
    &&& forall|peer: PeerAddr| #[trigger]
        list.contains(peer) <==> registry.contains_key(peer) && peer != sender
}

/// An entry stays as it is whatever arrives from other addresses, and
/// whatever the peer itself says in chat: only a `Leave` from its own
/// address removes it, and only a `Join` from its own address renames it.
pub proof fn law_entry_stays_until_leave(
    registry: Map<PeerAddr, Seq<char>>,
    peer: PeerAddr,
    sender: PeerAddr,
    m: MessageView,
)
    requires
        registry.contains_key(peer),
        sender != peer || m is Chat,
    ensures
        apply(registry, sender, m).contains_key(peer),
        apply(registry, sender, m)[peer] == registry[peer],
{
}

/// A message is never forwarded to the address it came from.
pub proof fn law_sender_is_no_recipient(
    registry: Map<PeerAddr, Seq<char>>,
    sender: PeerAddr,
    list: Seq<PeerAddr>,
)
    requires
        is_recipient_list(list, registry, sender),
    ensures
        !list.contains(sender),
{
}

/// A peer that has left is no recipient of the next message, whoever
/// sends it.
pub proof fn law_left_peer_gets_nothing(
    registry: Map<PeerAddr, Seq<char>>,
    gone: PeerAddr,
    leave: MessageView,
    sender: PeerAddr,
    m: MessageView,
    list: Seq<PeerAddr>,
)
    requires
        leave is Leave,
        is_recipient_list(list, apply(apply(registry, gone, leave), sender, m), sender),
    ensures
        !list.contains(gone),
{
}

/// What the relay sends after a packet: one encoded message, to each of the
/// recipients on its own.
pub struct Forward {
    pub packet: Vec<u8>,
    pub recipients: Vec<PeerAddr>,
}

/// The peers that have joined, by address.
pub struct Registry {
    peers: Vec<(PeerAddr, String)>,
    model: Ghost<Map<PeerAddr, Seq<char>>>,
}

impl View for Registry {
    type V = Map<PeerAddr, Seq<char>>;

    closed spec fn view(&self) -> Map<PeerAddr, Seq<char>> {
        self.model@
    }
}

impl Registry {
    /// Each peer is held once, under the name that the view shows.
    pub closed spec fn wf(&self) -> bool {
        &&& forall|i: int|
            0 <= i < self.peers@.len() ==> self.model@.contains_key((#[trigger] self.peers@[i]).0)
                && self.model@[self.peers@[i].0] == self.peers@[i].1@
        &&& forall|peer: PeerAddr| #[trigger]
            self.model@.contains_key(peer) ==> exists|i: int|
                0 <= i < self.peers@.len() && (#[trigger] self.peers@[i]).0 == peer
        &&& forall|i: int, j: int|
            0 <= i < j < self.peers@.len() ==> (#[trigger] self.peers@[i]).0 != (
            #[trigger] self.peers@[j]).0
    }

    /// A registry without peers.
    pub fn new() -> (registry: Registry)
        ensures
            registry.wf(),
            registry@ == Map::<PeerAddr, Seq<char>>::empty(),
    {
        Registry { peers: Vec::new(), model: Ghost(Map::empty()) }
    }

    /// Where the peer stands among the peers, if it is registered.
    fn position(&self, peer: PeerAddr) -> (at: Option<usize>)
        requires
            self.wf(),
        ensures
            at is Some == self@.contains_key(peer),
            at matches Some(i) ==> i < self.peers@.len() && self.peers@[i as int].0 == peer,
    {
        let mut i: usize = 0;
        while i < self.peers.len()
            invariant
                i <= self.peers@.len(),
                forall|j: int| 0 <= j < i ==> (#[trigger] self.peers@[j]).0 != peer,
                self.wf(),
            decreases self.peers@.len() - i,
        {
            if self.peers[i].0 == peer {
                return Some(i);
            }
            i += 1;
        }
        None
    }

    /// Registers the peer under the name; a peer that is registered
    /// already gets the new name.
    pub fn insert(&mut self, peer: PeerAddr, name: String)
        requires
            old(self).wf(),
        ensures
            final(self).wf(),
            final(self)@ == old(self)@.insert(peer, name@),
    {
        let ghost before = *self;
        let ghost text = name@;
        match self.position(peer) {
            Some(at) => {
                let _ = self.peers.remove(at);
                self.peers.insert(at, (peer, name));
                self.model = Ghost(before.model@.insert(peer, text));
                proof {
                    let a = at as int;
                    assert forall|i: int| 0 <= i < self.peers@.len() implies (
                    #[trigger] self.peers@[i]).0 == before.peers@[i].0 && (i != a
                        ==> self.peers@[i] == before.peers@[i]) by {}
                    assert forall|i: int|
                        0 <= i < self.peers@.len() implies self.model@.contains_key(
                        (#[trigger] self.peers@[i]).0,
                    ) && self.model@[self.peers@[i].0] == self.peers@[i].1@ by {
                        assert(before.model@.contains_key(before.peers@[i].0));
                        if i != a {
                            assert(before.peers@[i].0 != before.peers@[a].0);
                        }
                    }
                    assert forall|other: PeerAddr| #[trigger]
                        self.model@.contains_key(other) implies exists|i: int|
                        0 <= i < self.peers@.len() && (#[trigger] self.peers@[i]).0 == other by {
                        if other == peer {
                            assert(self.peers@[a].0 == other);
                        } else {
                            assert(before.model@.contains_key(other));
                            let k = choose|k: int|
                                0 <= k < before.peers@.len() && (#[trigger] before.peers@[k]).0
                                    == other;
                            assert(self.peers@[k].0 == other);
                        }
                    }
                    assert forall|i: int, j: int| 0 <= i < j < self.peers@.len() implies (
                    #[trigger] self.peers@[i]).0 != (#[trigger] self.peers@[j]).0 by {
                        assert(self.peers@[i].0 == before.peers@[i].0);
                        assert(self.peers@[j].0 == before.peers@[j].0);
                    }
                }
            },
            None => {
                self.peers.push((peer, name));
                self.model = Ghost(before.model@.insert(peer, text));
                proof {
                    let last = before.peers@.len() as int;
                    assert(self.peers@[last].0 == peer);
                    assert forall|i: int| 0 <= i < last implies (#[trigger] self.peers@[i])
                        == before.peers@[i] by {}
                    assert forall|i: int|
                        0 <= i < self.peers@.len() implies self.model@.contains_key(
                        (#[trigger] self.peers@[i]).0,
                    ) && self.model@[self.peers@[i].0] == self.peers@[i].1@ by {
                        if i < last {
                            assert(self.peers@[i] == before.peers@[i]);
                            assert(before.model@.contains_key(before.peers@[i].0));
                        }
                    }
                    assert forall|other: PeerAddr| #[trigger]
                        self.model@.contains_key(other) implies exists|i: int|
                        0 <= i < self.peers@.len() && (#[trigger] self.peers@[i]).0 == other by {
                        if other == peer {
                            assert(self.peers@[last].0 == other);
                        } else {
                            assert(before.model@.contains_key(other));
                            let k = choose|k: int|
                                0 <= k < before.peers@.len() && (#[trigger] before.peers@[k]).0
                                    == other;
                            assert(self.peers@[k] == before.peers@[k]);
                        }
                    }
                    assert forall|i: int, j: int| 0 <= i < j < self.peers@.len() implies (
                    #[trigger] self.peers@[i]).0 != (#[trigger] self.peers@[j]).0 by {
                        assert(self.peers@[i] == before.peers@[i]);
                        assert(before.model@.contains_key(before.peers@[i].0));
                        if j < last {
                            assert(self.peers@[j] == before.peers@[j]);
                        }
                    }
                }
            },
        }
    }

    /// Removes the peer. Returns whether it was registered.
    pub fn remove(&mut self, peer: PeerAddr) -> (was_registered: bool)
        requires
            old(self).wf(),
        ensures
            final(self).wf(),
            final(self)@ == old(self)@.remove(peer),
            was_registered == old(self)@.contains_key(peer),
    {
        let ghost before = *self;
        match self.position(peer) {
            None => {
                assert(self.model@.remove(peer) =~= self.model@);
                false
            },
            Some(at) => {
                let _ = self.peers.remove(at);
                self.model = Ghost(before.model@.remove(peer));
                proof {
                    let a = at as int;
                    assert forall|i: int| 0 <= i < self.peers@.len() implies (
                    #[trigger] self.peers@[i]) == before.peers@[if i < a {
                        i
                    } else {
                        i + 1
                    }] by {}
                    assert forall|i: int|
                        0 <= i < self.peers@.len() implies self.model@.contains_key(
                        (#[trigger] self.peers@[i]).0,
                    ) && self.model@[self.peers@[i].0] == self.peers@[i].1@ by {
                        let k = if i < a {
                            i
                        } else {
                            i + 1
                        };
                        assert(self.peers@[i] == before.peers@[k]);
                        assert(before.model@.contains_key(before.peers@[k].0));
                        assert(before.peers@[k].0 != before.peers@[a].0);
                    }
                    assert forall|other: PeerAddr| #[trigger]
                        self.model@.contains_key(other) implies exists|i: int|
                        0 <= i < self.peers@.len() && (#[trigger] self.peers@[i]).0 == other by {
                        assert(before.model@.contains_key(other));
                        let k = choose|k: int|
                            0 <= k < before.peers@.len() && (#[trigger] before.peers@[k]).0
                                == other;
                        let i = if k < a {
                            k
                        } else {
                            k - 1
                        };
                        assert(self.peers@[i] == before.peers@[k]);
                    }
                    assert forall|i: int, j: int| 0 <= i < j < self.peers@.len() implies (
                    #[trigger] self.peers@[i]).0 != (#[trigger] self.peers@[j]).0 by {
                        let ki = if i < a {
                            i
                        } else {
                            i + 1
                        };
                        let kj = if j < a {
                            j
                        } else {
                            j + 1
                        };
                        assert(self.peers@[i] == before.peers@[ki]);
                        assert(self.peers@[j] == before.peers@[kj]);
                    }
                }
                true
            },
        }
    }

    /// The name under which the peer is registered, if it is.
    pub fn name_of(&self, peer: PeerAddr) -> (name: Option<&str>)
        requires
            self.wf(),
        ensures
            match name {
                Some(n) => self@.contains_key(peer) && self@[peer] == n@,
                None => !self@.contains_key(peer),
            },
    {
        match self.position(peer) {
            Some(at) => Some(self.peers[at].1.as_str()),
            None => None,
        }
    }

    /// Every registered peer but the sender, each once.
    pub fn recipients(&self, sender: PeerAddr) -> (list: Vec<PeerAddr>)
        requires
            self.wf(),
        ensures
            is_recipient_list(list@, self@, sender),
    {
        let mut list: Vec<PeerAddr> = Vec::new();
        let ghost mut origin: Seq<int> = Seq::empty();
        let mut i: usize = 0;
        while i < self.peers.len()
            invariant
                i <= self.peers@.len(),
                self.wf(),
                origin.len() == list@.len(),
                forall|k: int|
                    0 <= k < list@.len() ==> 0 <= #[trigger] origin[k] < i
                        && self.peers@[origin[k]].0 == list@[k] && list@[k] != sender,
                forall|k: int, l: int| 0 <= k < l < list@.len() ==> origin[k] < origin[l],
                forall|j: int|
                    0 <= j < i && (#[trigger] self.peers@[j]).0 != sender ==> list@.contains(
                        self.peers@[j].0,
                    ),
            decreases self.peers@.len() - i,
        {
            let peer = self.peers[i].0;
            if peer != sender {
                let ghost earlier = list@;
                list.push(peer);
                proof {
                    origin = origin.push(i as int);
                    assert(list@[earlier.len() as int] == peer);
                    assert forall|j: int|
                        0 <= j <= i && (#[trigger] self.peers@[j]).0 != sender implies list@.contains(
                        self.peers@[j].0,
                    ) by {
                        if j < i {
                            let k = choose|k: int|
                                0 <= k < earlier.len() && earlier[k] == self.peers@[j].0;
                            assert(list@[k] == self.peers@[j].0);
                        }
                    }
                }
            }
            i += 1;
        }
        proof {
            assert forall|k: int, l: int| 0 <= k < l < list@.len() implies list@[k]
                != list@[l] by {
                assert(origin[k] < origin[l]);
                assert(self.peers@[origin[k]].0 != self.peers@[origin[l]].0);
            }
            assert forall|peer: PeerAddr| #[trigger]
                list@.contains(peer) <==> self@.contains_key(peer) && peer != sender by {
                if list@.contains(peer) {
                    let k = choose|k: int| 0 <= k < list@.len() && list@[k] == peer;
                    assert(self.peers@[origin[k]].0 == peer);
                }
                if self@.contains_key(peer) && peer != sender {
                    let j = choose|j: int|
                        0 <= j < self.peers@.len() && (#[trigger] self.peers@[j]).0 == peer;
                    assert(list@.contains(self.peers@[j].0));
                }
            }
        }
        list
    }

    /// Acts on a message from `sender` and returns whom it is forwarded
    /// to: every peer that is registered afterwards, but the sender.
    pub fn dispatch(&mut self, sender: PeerAddr, msg: &NetMessage) -> (list: Vec<PeerAddr>)
        requires
            old(self).wf(),
        ensures
            final(self).wf(),
            final(self)@ == apply(old(self)@, sender, msg@),
            is_recipient_list(list@, final(self)@, sender),
    {
        match msg {
            NetMessage::Join { username } => {
                self.insert(sender, username.clone());
            },
            NetMessage::Leave { .. } => {
                let _ = self.remove(sender);
            },
            NetMessage::Chat { .. } => {},
        }
        self.recipients(sender)
    }

    /// Acts on a packet from `sender`. A packet that holds no message is
    /// dropped: the registry stays as it is and nothing is forwarded. Any
    /// other packet is acted on as [`Registry::dispatch`] says, and its
    /// message, encoded once, goes to each recipient.
    pub fn handle_datagram(&mut self, sender: PeerAddr, packet: &[u8]) -> (forward: Option<Forward>)
        requires
            old(self).wf(),
        ensures
            final(self).wf(),
            match decoded_message(packet@) {
                None => forward is None && final(self)@ == old(self)@,
                Some(m) => {
                    &&& final(self)@ == apply(old(self)@, sender, m)
                    &&& forward matches Some(f) && f.packet@ == encode_utf8(wire_text(m))
                        && is_recipient_list(f.recipients@, final(self)@, sender)
                },
            },
    {
        match decode_message(packet) {
            None => None,
            Some(msg) => {
                let recipients = self.dispatch(sender, &msg);
                Some(Forward { packet: encode_message(&msg), recipients })
            },
        }
    }
}

} // verus!
