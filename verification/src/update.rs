//! The logic thread: each frame it handles the messages of the connected clients and
//! collects what is to be sent to them.

use vstd::prelude::*;

use crate::handler::{
    handle_message, handled, inbox_handled, process_inbox, refusal_report, refusals, string_views,
};
use crate::msg::{MsgIn, MsgOut, msg_out_views};
use crate::session::{SessionView, Sessions, lemma_key_not_in_prefix, without_outgoing};

verus! {

broadcast use vstd::seq_lib::lemma_seq_contains_after_push;

/// The state of a client after a frame of the logic thread: a connected client has had
/// all its messages handled and its outgoing queue emptied; any other stays as it was.
pub open spec fn after_frame(s: SessionView) -> SessionView {
    if s.alive {
        without_outgoing(inbox_handled(s))
    } else {
        s
    }
}

/// A frame of the logic thread never changes whether a client is connected. A connected
/// client ends the frame with both queues empty and everything else as before; a client
/// that is gone is left exactly as it was.
pub proof fn lemma_frame_keeps_connection(s: SessionView)
    ensures
        after_frame(s).alive == s.alive,
        s.alive ==> after_frame(s) == (SessionView { inbound: Seq::empty(), outbound: Seq::empty(), ..s }),
        !s.alive ==> after_frame(s) == s,
{
}

/// Whether `out` is what a frame of the logic thread sends, given the clients `before`
/// it: one batch per connected client, each client once, each batch holding, oldest
/// first, what was waiting to go out followed by the replies to its messages.
pub open spec fn frame_output(before: Map<u32, SessionView>, out: Seq<(u32, Vec<MsgOut>)>) -> bool {
    &&& forall|j: int|
        0 <= j < out.len() ==> {
            let k = #[trigger] out[j].0;
            &&& before.contains_key(k)
            &&& before[k].alive
            &&& msg_out_views(out[j].1@) == inbox_handled(before[k]).outbound
        }
    &&& forall|j1: int, j2: int| 0 <= j1 < j2 < out.len() ==> #[trigger] out[j1].0 != #[trigger] out[j2].0
    &&& forall|k: u32| before.contains_key(k) && before[k].alive ==> exists|j: int| 0 <= j < out.len() && #[trigger] out[j].0 == k
}

/// Whether `out` holds one batch per connected client of `before`, each client once,
/// each batch being what that client's outgoing queue held, oldest first.
pub open spec fn batches_of(before: Map<u32, SessionView>, out: Seq<(u32, Vec<MsgOut>)>) -> bool {
    &&& forall|j: int|
        0 <= j < out.len() ==> {
            let k = #[trigger] out[j].0;
            &&& before.contains_key(k)
            &&& before[k].alive
            &&& msg_out_views(out[j].1@) == before[k].outbound
        }
    &&& forall|j1: int, j2: int| 0 <= j1 < j2 < out.len() ==> #[trigger] out[j1].0 != #[trigger] out[j2].0
    &&& forall|k: u32| before.contains_key(k) && before[k].alive ==> exists|j: int| 0 <= j < out.len() && #[trigger] out[j].0 == k
}

/// The logic thread: the connected clients and the game state that the game objects
/// share.
pub struct UpdateThread<S> {
    pub clients: Sessions,
    pub state: S,
}

impl<S> UpdateThread<S> {
    /// A logic thread over these clients and this game state.
    pub fn new(clients: Sessions, state: S) -> (t: UpdateThread<S>)
        ensures
            t.clients@ == clients@,
            t.state == state,
    {
        UpdateThread { clients, state }
    }

    /// Handles one message from the client with key `client_key`.
    pub fn process_message(&mut self, message: MsgIn, client_key: u32) -> (r: Result<(), String>)
        ensures
            handled(message, client_key, old(self).clients@, r, final(self).clients@),
            final(self).state == old(self).state,
    {
        handle_message(message, client_key, &mut self.clients)
    }

    /// Step one of a frame: every connected client has the messages it sent handled,
    /// oldest first; clients that are gone are left as they are. Returns, for each
    /// connected client, the errors of its refused messages.
    pub fn process_messages(&mut self) -> (report: Vec<(u32, Vec<String>)>)
        ensures
            refusal_report(old(self).clients@, true, report@),
            final(self).clients@ == Map::new(
                |k: u32| old(self).clients@.contains_key(k),
                |k: u32| if old(self).clients@[k].alive { inbox_handled(old(self).clients@[k]) } else { old(self).clients@[k] },
            ),
            final(self).state == old(self).state,
    {
        let ghost before = self.clients@;
        let keys = self.clients.keys();
        let ghost ks = keys@;
        let ghost target = |k: u32| if before[k].alive { inbox_handled(before[k]) } else { before[k] };
        assert(self.clients@ =~= Map::new(
            |k: u32| before.contains_key(k),
            |k: u32| if ks.take(0).contains(k) { target(k) } else { before[k] },
        ));
        let mut report: Vec<(u32, Vec<String>)> = Vec::new();
        for i in 0..keys.len()
            invariant
                forall|j: int|
                    0 <= j < report@.len() ==> {
                        let k = #[trigger] report@[j].0;
                        &&& before.contains_key(k)
                        &&& before[k].alive
                        &&& ks.take(i as int).contains(k)
                        &&& string_views(report@[j].1@) == refusals(before[k].inbound)
                    },
                forall|j1: int, j2: int| 0 <= j1 < j2 < report@.len() ==> #[trigger] report@[j1].0 != #[trigger] report@[j2].0,
                forall|k: u32|
                    ks.take(i as int).contains(k) && before.contains_key(k) && before[k].alive
                        ==> exists|j: int| 0 <= j < report@.len() && #[trigger] report@[j].0 == k,
                keys@ == ks,
                ks.no_duplicates(),
                forall|k: u32| before.contains_key(k) <==> ks.contains(k),
                target == (|k: u32| if before[k].alive { inbox_handled(before[k]) } else { before[k] }),
                self.clients@ == Map::new(
                    |k: u32| before.contains_key(k),
                    |k: u32| if ks.take(i as int).contains(k) { target(k) } else { before[k] },
                ),
                self.state == old(self).state,
        {
            let k = keys[i];
            assert(ks.contains(k));
            proof {
                lemma_key_not_in_prefix(ks, i as int);
            }
            let alive = match self.clients.get(k) {
                Some(c) => c.get_alive(),
                None => false,
            };
            let ghost report_before = report@;
            if alive {
                let errors = process_inbox(&mut self.clients, k);
                report.push((k, errors));
                assert(report@[report@.len() - 1].0 == k);
            }
            assert(ks.take(i + 1) =~= ks.take(i as int).push(k));
            assert forall|x: u32|
                ks.take(i + 1).contains(x) && before.contains_key(x) && before[x].alive
                implies exists|j: int| 0 <= j < report@.len() && #[trigger] report@[j].0 == x by {
                if x != k {
                    let j = choose|j: int| 0 <= j < report_before.len() && #[trigger] report_before[j].0 == x;
                    assert(report@[j] == report_before[j]);
                } else {
                    assert(report@[report@.len() - 1].0 == x);
                }
            }
            assert(self.clients@ =~= Map::new(
                |k: u32| before.contains_key(k),
                |k: u32| if ks.take(i + 1).contains(k) { target(k) } else { before[k] },
            ));
        }
        assert(ks.take(ks.len() as int) =~= ks);
        assert(self.clients@ =~= Map::new(|k: u32| before.contains_key(k), |k: u32| target(k)));
        report
    }

    /// Step three of a frame: what is to be sent to each connected client is taken off
    /// its outgoing queue and returned, one batch per connected client, oldest first.
    /// Clients that are gone are left as they are.
    pub fn take_outgoing_batches(&mut self) -> (out: Vec<(u32, Vec<MsgOut>)>)
        ensures
            final(self).clients@ == Map::new(
                |k: u32| old(self).clients@.contains_key(k),
                |k: u32| if old(self).clients@[k].alive { without_outgoing(old(self).clients@[k]) } else { old(self).clients@[k] },
            ),
            batches_of(old(self).clients@, out@),
            final(self).state == old(self).state,
    {
        let ghost before = self.clients@;
        let keys = self.clients.keys();
        let ghost ks = keys@;
        let ghost target = |k: u32| if before[k].alive { without_outgoing(before[k]) } else { before[k] };
        let mut out: Vec<(u32, Vec<MsgOut>)> = Vec::new();
        assert(self.clients@ =~= Map::new(
            |k: u32| before.contains_key(k),
            |k: u32| if ks.take(0).contains(k) { target(k) } else { before[k] },
        ));
        for i in 0..keys.len()
            invariant
                keys@ == ks,
                ks.no_duplicates(),
                forall|k: u32| before.contains_key(k) <==> ks.contains(k),
                target == (|k: u32| if before[k].alive { without_outgoing(before[k]) } else { before[k] }),
                self.clients@ == Map::new(
                    |k: u32| before.contains_key(k),
                    |k: u32| if ks.take(i as int).contains(k) { target(k) } else { before[k] },
                ),
                forall|j: int|
                    0 <= j < out@.len() ==> {
                        let k = #[trigger] out@[j].0;
                        &&& before.contains_key(k)
                        &&& before[k].alive
                        &&& ks.take(i as int).contains(k)
                        &&& msg_out_views(out@[j].1@) == before[k].outbound
                    },
                forall|j1: int, j2: int| 0 <= j1 < j2 < out@.len() ==> #[trigger] out@[j1].0 != #[trigger] out@[j2].0,
                forall|k: u32|
                    ks.take(i as int).contains(k) && before.contains_key(k) && before[k].alive
                        ==> exists|j: int| 0 <= j < out@.len() && #[trigger] out@[j].0 == k,
                self.state == old(self).state,
        {
            let k = keys[i];
            assert(ks.contains(k));
            proof {
                lemma_key_not_in_prefix(ks, i as int);
            }
            assert(self.clients@[k] == before[k]);
            let alive = match self.clients.get(k) {
                Some(c) => c.get_alive(),
                None => false,
            };
            let ghost out_before = out@;
            if alive {
                let batch = self.clients.take_outgoing(k);
                out.push((k, batch));
                assert(out@[out@.len() - 1].0 == k);
            }
            assert(ks.take(i + 1) =~= ks.take(i as int).push(k));
            assert(self.clients@ =~= Map::new(
                |k: u32| before.contains_key(k),
                |k: u32| if ks.take(i + 1).contains(k) { target(k) } else { before[k] },
            ));
            assert forall|x: u32|
                ks.take(i + 1).contains(x) && before.contains_key(x) && before[x].alive
                implies exists|j: int| 0 <= j < out@.len() && #[trigger] out@[j].0 == x by {
                if x != k {
                    let j = choose|j: int| 0 <= j < out_before.len() && #[trigger] out_before[j].0 == x;
                    assert(out@[j] == out_before[j]);
                } else {
                    assert(out@[out@.len() - 1].0 == x);
                }
            }
        }
        assert(ks.take(ks.len() as int) =~= ks);
        assert(self.clients@ =~= Map::new(|k: u32| before.contains_key(k), |k: u32| target(k)));
        out
    }

    /// One frame of client traffic: every connected client has the messages it sent
    /// handled, oldest first (`process_messages`), and what it is to be sent is taken
    /// off its outgoing queue and returned, one batch per connected client
    /// (`take_outgoing_batches`). The game objects take their step between the two.
    /// Clients that are gone are left as they are.
    pub fn update(&mut self) -> (out: Vec<(u32, Vec<MsgOut>)>)
        ensures
            final(self).clients@ == Map::new(
                |k: u32| old(self).clients@.contains_key(k),
                |k: u32| after_frame(old(self).clients@[k]),
            ),
            frame_output(old(self).clients@, out@),
            final(self).state == old(self).state,
    {
        let ghost before = self.clients@;
        let _ = self.process_messages();
        let ghost mid = self.clients@;
        let out = self.take_outgoing_batches();
        assert(self.clients@ =~= Map::new(|k: u32| before.contains_key(k), |k: u32| after_frame(before[k])));
        assert forall|k: u32| #[trigger] before.contains_key(k) implies mid.contains_key(k) && mid[k].alive == before[k].alive && (before[k].alive ==> mid[k].outbound == inbox_handled(before[k]).outbound) by {}
        out
    }
}

} // verus!
