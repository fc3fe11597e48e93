//! Client sessions: the per-connection state and the table of all sessions, keyed by
//! session key.

use std::collections::HashMap;
use std::collections::VecDeque;
use vstd::prelude::*;
use vstd::std_specs::iter::IteratorSpec;

use crate::msg::{MsgIn, MsgOut, MsgOutView, msg_out_views};

verus! {

/// The state the server keeps for one connected client. The connection's socket halves
/// stay with the network layer, found again by `key`.
pub struct Session {
    pub alive: bool,
    pub key: u32,
    /// The remote address of the client, as text, where it is known.
    pub address: Option<String>,
    pub session: String,
    pub message_inbound: VecDeque<MsgIn>,
    pub message_outbound: VecDeque<MsgOut>,
    pub user_index: Option<u32>,
    pub user_access_token: Option<String>,
    pub player_object_key: Option<u32>,
}

impl Session {
    /// The state of a newly connected client: alive, with empty queues, not yet
    /// authenticated and without a player object.
    pub fn connected(key: u32, address: Option<String>) -> (s: Session)
        ensures
            s@ == new_session_view(key, address),
    {
        let s = Session {
            alive: true,
            key,
            address,
            session: String::new(),
            message_inbound: VecDeque::new(),
            message_outbound: VecDeque::new(),
            user_index: None,
            user_access_token: None,
            player_object_key: None,
        };
        assert(msg_out_views(s.message_outbound@) =~= Seq::<MsgOutView>::empty());
        assert(s.session@ =~= Seq::<char>::empty());
        assert(s.message_inbound@ =~= Seq::<MsgIn>::empty());
        s
    }

    /// Whether the client is still connected.
    pub fn get_alive(&self) -> (b: bool)
        ensures
            b == self.alive,
    {
        self.alive
    }

    /// Empties the outgoing queue and hands back what it held, oldest first.
    pub fn take_outbound(&mut self) -> (out: Vec<MsgOut>)
        ensures
            out@ == old(self).message_outbound@,
            final(self)@ == without_outgoing(old(self)@),
    {
        let mut out: Vec<MsgOut> = Vec::new();
        while self.message_outbound.len() > 0
            invariant
                out@ + self.message_outbound@ == old(self).message_outbound@,
                self.alive == old(self).alive,
                self.key == old(self).key,
                self.address == old(self).address,
                self.session == old(self).session,
                self.message_inbound@ == old(self).message_inbound@,
                self.user_index == old(self).user_index,
                self.user_access_token == old(self).user_access_token,
                self.player_object_key == old(self).player_object_key,
            decreases self.message_outbound@.len(),
        {
            match self.message_outbound.pop_front() {
                Some(m) => {
                    out.push(m);
                    assert(out@ + self.message_outbound@ =~= old(self).message_outbound@);
                },
                None => {},
            }
        }
        assert(out@ =~= old(self).message_outbound@);
        assert(msg_out_views(self.message_outbound@) =~= Seq::<MsgOutView>::empty());
        out
    }
}

/// What the network layer read from a client's connection.
#[derive(Debug, Clone, PartialEq, Eq)]
pub enum IncomingFrame {
    /// The client closed the connection.
    Close,
    /// A frame that is not text (binary, ping or pong).
    NonText,
    /// A text frame that is not a message.
    Malformed,
    /// A text frame holding a message.
    Message(MsgIn),
    /// Reading failed.
    Failed,
}

/// What the network worker does after a frame.
#[derive(Debug, Clone, Copy, PartialEq, Eq)]
pub enum FrameOutcome {
    /// Go on reading this client's frames.
    KeepReading,
    /// Stop reading this client's frames for now.
    StopReading,
    /// Stop the network worker altogether.
    StopWorker,
}

impl Session {
    /// Takes in a frame read from this client's connection. A message joins the incoming
    /// queue and reading goes on. A close, or a failed read, marks the client gone and
    /// ends reading from it. A frame that is not text, or text that is not a message,
    /// stops the network worker, leaving the session as it was.
    pub fn handle_frame(&mut self, frame: IncomingFrame) -> (outcome: FrameOutcome)
        ensures
            match frame {
                IncomingFrame::Message(m) => {
                    &&& outcome == FrameOutcome::KeepReading
                    &&& final(self)@ == (SessionView { inbound: old(self)@.inbound.push(m), ..old(self)@ })
                },
                IncomingFrame::Close | IncomingFrame::Failed => {
                    &&& outcome == FrameOutcome::StopReading
                    &&& final(self)@ == (SessionView { alive: false, ..old(self)@ })
                },
                IncomingFrame::NonText | IncomingFrame::Malformed => {
                    &&& outcome == FrameOutcome::StopWorker
                    &&& final(self)@ == old(self)@
                },
            },
    {
        match frame {
            IncomingFrame::Close => {
                self.alive = false;
                FrameOutcome::StopReading
            },
            IncomingFrame::NonText => FrameOutcome::StopWorker,
            IncomingFrame::Malformed => FrameOutcome::StopWorker,
            IncomingFrame::Message(m) => {
                self.message_inbound.push_back(m);
                FrameOutcome::KeepReading
            },
            IncomingFrame::Failed => {
                self.alive = false;
                FrameOutcome::StopReading
            },
        }
    }
}

/// The state of a session just opened under `key` for a client at `address`.
pub open spec fn new_session_view(key: u32, address: Option<String>) -> SessionView {
    SessionView {
        alive: true,
        key,
        address,
        session: Seq::empty(),
        inbound: Seq::empty(),
        outbound: Seq::empty(),
        user_index: None,
        user_access_token: None,
        player_object_key: None,
    }
}

/// The abstract state of a session: its queues taken as sequences.
pub struct SessionView {
    pub alive: bool,
    pub key: u32,
    pub address: Option<String>,
    pub session: Seq<char>,
    pub inbound: Seq<MsgIn>,
    pub outbound: Seq<MsgOutView>,
    pub user_index: Option<u32>,
    pub user_access_token: Option<String>,
    pub player_object_key: Option<u32>,
}

impl View for Session {
    type V = SessionView;

    open spec fn view(&self) -> SessionView {
        SessionView {
            alive: self.alive,
            key: self.key,
            address: self.address,
            session: self.session@,
            inbound: self.message_inbound@,
            outbound: msg_out_views(self.message_outbound@),
            user_index: self.user_index,
            user_access_token: self.user_access_token,
            player_object_key: self.player_object_key,
        }
    }
}

/// The session `s` with `m` appended to its outgoing queue.
pub open spec fn with_outgoing(s: SessionView, m: MsgOutView) -> SessionView {
    SessionView { outbound: s.outbound.push(m), ..s }
}

/// The session `s` with the first message of its incoming queue taken off.
pub open spec fn without_first_incoming(s: SessionView) -> SessionView {
    SessionView { inbound: s.inbound.drop_first(), ..s }
}

/// The session `s` with its outgoing queue emptied.
pub open spec fn without_outgoing(s: SessionView) -> SessionView {
    SessionView { outbound: Seq::empty(), ..s }
}

/// The table of all sessions, keyed by session key.
pub struct Sessions {
    map: HashMap<u32, Session>,
}

impl View for Sessions {
    type V = Map<u32, SessionView>;

    closed spec fn view(&self) -> Map<u32, SessionView> {
        Map::new(|k: u32| self.map@.contains_key(k), |k: u32| self.map@[k]@)
    }
}

/// In a sequence without repeats, an element does not occur before its own position.
pub proof fn lemma_key_not_in_prefix(ks: Seq<u32>, i: int)
    requires
        ks.no_duplicates(),
        0 <= i < ks.len(),
    ensures
        !ks.take(i).contains(ks[i]),
{
    if ks.take(i).contains(ks[i]) {
        let j = choose|j: int| 0 <= j < i && #[trigger] ks.take(i)[j] == ks[i];
        assert(ks[j] == ks[i]);
    }
}

impl Sessions {
    /// An empty table.
    pub fn new() -> (s: Sessions)
        ensures
            s@ == Map::<u32, SessionView>::empty(),
    {
        let s = Sessions { map: HashMap::new() };
        assert(s@ =~= Map::<u32, SessionView>::empty());
        s
    }

    /// The number of sessions.
    pub fn len(&self) -> (n: usize)
        ensures
            n == self@.len(),
    {
        assert(self@.dom() =~= self.map@.dom());
        self.map.len()
    }

    /// Whether a session with this key exists.
    pub fn contains_key(&self, key: u32) -> (b: bool)
        ensures
            b == self@.contains_key(key),
    {
        self.map.contains_key(&key)
    }

    /// The session with this key, if there is one.
    pub fn get(&self, key: u32) -> (s: Option<&Session>)
        ensures
            match s {
                Some(s) => self@.contains_key(key) && s@ == self@[key],
                None => !self@.contains_key(key),
            },
    {
        self.map.get(&key)
    }

    /// Stores `session` under `key`, replacing the session that had that key; hands back
    /// the replaced one.
    pub fn insert(&mut self, key: u32, session: Session) -> (replaced: Option<Session>)
        ensures
            final(self)@ == old(self)@.insert(key, session@),
            match replaced {
                Some(r) => old(self)@.contains_key(key) && r@ == old(self)@[key],
                None => !old(self)@.contains_key(key),
            },
    {
        let ghost v = session@;
        let r = self.map.insert(key, session);
        assert(self@ =~= old(self)@.insert(key, v));
        r
    }

    /// Takes the session with this key out of the table, if there is one.
    pub fn remove(&mut self, key: u32) -> (removed: Option<Session>)
        ensures
            final(self)@ == old(self)@.remove(key),
            match removed {
                Some(r) => old(self)@.contains_key(key) && r@ == old(self)@[key],
                None => !old(self)@.contains_key(key),
            },
    {
        let r = self.map.remove(&key);
        assert(self@ =~= old(self)@.remove(key));
        r
    }

    /// Appends `message` to the outgoing queue of the session with key `key`. Returns
    /// whether there was such a session; without one nothing changes.
    pub fn push_outgoing(&mut self, key: u32, message: MsgOut) -> (found: bool)
        ensures
            found == old(self)@.contains_key(key),
            found ==> final(self)@ == old(self)@.insert(key, with_outgoing(old(self)@[key], message@)),
            !found ==> final(self)@ == old(self)@,
    {
        match self.remove(key) {
            None => false,
            Some(mut s) => {
                let ghost m = message@;
                let ghost q = s.message_outbound@;
                s.message_outbound.push_back(message);
                assert(msg_out_views(s.message_outbound@) =~= msg_out_views(q).push(m));
                self.insert(key, s);
                true
            }
        }
    }

    /// Takes the first message off the incoming queue of the session with key `key`.
    /// Gives `None`, and changes nothing, where there is no such session or its queue is
    /// empty.
    pub fn pop_incoming(&mut self, key: u32) -> (m: Option<MsgIn>)
        ensures
            match m {
                Some(m) => {
                    &&& old(self)@.contains_key(key)
                    &&& old(self)@[key].inbound.len() > 0
                    &&& m == old(self)@[key].inbound[0]
                    &&& final(self)@ == old(self)@.insert(key, without_first_incoming(old(self)@[key]))
                },
                None => {
                    &&& (!old(self)@.contains_key(key) || old(self)@[key].inbound.len() == 0)
                    &&& final(self)@ == old(self)@
                },
            },
    {
        match self.remove(key) {
            None => None,
            Some(mut s) => {
                let m = s.message_inbound.pop_front();
                self.insert(key, s);
                proof {
                    if m is None {
                        assert(self@ =~= old(self)@);
                    }
                }
                m
            },
        }
    }

    /// Empties the outgoing queue of the session with key `key` and hands back what it
    /// held, oldest first; with no such session, gives an empty list and changes nothing.
    pub fn take_outgoing(&mut self, key: u32) -> (out: Vec<MsgOut>)
        ensures
            old(self)@.contains_key(key) ==> {
                &&& msg_out_views(out@) == old(self)@[key].outbound
                &&& final(self)@ == old(self)@.insert(key, without_outgoing(old(self)@[key]))
            },
            !old(self)@.contains_key(key) ==> out@.len() == 0 && final(self)@ == old(self)@,
    {
        match self.remove(key) {
            None => {
                assert(self@ =~= old(self)@);
                Vec::new()
            },
            Some(mut s) => {
                let out = s.take_outbound();
                self.insert(key, s);
                out
            },
        }
    }

    /// Takes in a frame read from the connection of the client with key `key`, as
    /// `Session::handle_frame` does; `None`, with nothing changed, where there is no such
    /// session.
    pub fn receive_frame(&mut self, key: u32, frame: IncomingFrame) -> (outcome: Option<FrameOutcome>)
        ensures
            !old(self)@.contains_key(key) ==> outcome is None && final(self)@ == old(self)@,
            old(self)@.contains_key(key) ==> {
                &&& outcome is Some
                &&& final(self)@.dom() == old(self)@.dom()
                &&& forall|k: u32| k != key && #[trigger] old(self)@.contains_key(k) ==> final(self)@[k] == old(self)@[k]
                &&& match frame {
                    IncomingFrame::Message(m) => {
                        &&& outcome == Some(FrameOutcome::KeepReading)
                        &&& final(self)@[key] == (SessionView { inbound: old(self)@[key].inbound.push(m), ..old(self)@[key] })
                    },
                    IncomingFrame::Close | IncomingFrame::Failed => {
                        &&& outcome == Some(FrameOutcome::StopReading)
                        &&& final(self)@[key] == (SessionView { alive: false, ..old(self)@[key] })
                    },
                    IncomingFrame::NonText | IncomingFrame::Malformed => {
                        &&& outcome == Some(FrameOutcome::StopWorker)
                        &&& final(self)@[key] == old(self)@[key]
                    },
                }
            },
    {
        match self.remove(key) {
            None => {
                assert(self@ =~= old(self)@);
                None
            },
            Some(mut s) => {
                let outcome = s.handle_frame(frame);
                self.insert(key, s);
                assert(self@.dom() =~= old(self)@.dom());
                Some(outcome)
            },
        }
    }

    /// The keys of all sessions, each once, in no particular order.
    pub fn keys(&self) -> (keys: Vec<u32>)
        ensures
            keys@.no_duplicates(),
            keys@.to_set() == self@.dom(),
            forall|k: u32| self@.contains_key(k) <==> keys@.contains(k),
    {
        let mut keys: Vec<u32> = Vec::new();
        let ghost all = vstd::std_specs::hash::spec_keys_iter(&self.map).remaining();
        for k in it: self.map.keys()
            invariant
                keys@ == it.seq().take(it.index()).unref(),
                it.seq() == all,
        {
            assert(it.seq().take(it.index() + 1).unref() =~= it.seq().take(it.index()).unref().push(*k));
            keys.push(*k);
        }
        assert(keys@ =~= all.unref());
        assert forall|k: u32| self@.contains_key(k) <==> keys@.contains(k) by {
            assert(keys@.to_set().contains(k) <==> keys@.contains(k));
        }
        keys
    }
}

} // verus!
