//! Reactor-driven connection multiplexer.
//!
//! The `Server` owns a FIFO queue of actions destined for the driving reactor
//! and a per-connection outbox that absorbs writes attempted while a peer is
//! not yet writable.  Event callbacks mutate this state; the reactor drains it
//! through [`Server::next`].  All business decisions are delegated: the caller
//! hands each event's resulting delegate actions in as plain values.

use std::collections::HashMap;
use std::collections::VecDeque;
use vstd::prelude::*;

verus! {

broadcast use vstd::std_specs::hash::group_hash_axioms;

/// Stable handle of a registered resource; unique for a transport's lifetime
/// and not reused before explicit unregistration.
pub type ConnectionId = i32;

/// A unit of work the multiplexer asks the driving reactor to perform,
/// generic over the listener and transport resources being registered.
#[derive(Debug, PartialEq, Eq)]
pub enum Action<L, T> {
    RegisterListener(L),
    RegisterTransport(T),
    Send(ConnectionId, Vec<u8>),
    UnregisterTransport(ConnectionId),
    UnregisterListener(ConnectionId),
}

/// A fault reported back by the reactor's generic error channel, reduced to
/// the plain values the classification policy reads.
#[derive(Debug, PartialEq, Eq)]
pub enum ReactorError {
    /// The peer of this transport disconnected cleanly.
    TransportDisconnect(ConnectionId),
    /// A write was attempted while the transport was not yet writable; the
    /// payload is the message that could not be written.
    WriteLogicError(ConnectionId, Vec<u8>),
    /// An event named a listener id the poll layer does not know.
    ListenerUnknown(ConnectionId),
    /// An event named a transport id the poll layer does not know.
    TransportUnknown(ConnectionId),
    /// The poll syscall itself failed.
    Poll,
    /// The listener socket disconnected.
    ListenerDisconnect(ConnectionId),
    /// Polling the listener failed.
    ListenerPollError(ConnectionId),
    /// A write on the transport failed for a reason other than not-writable.
    WriteFailure(ConnectionId),
    /// Polling the transport failed.
    TransportPollError(ConnectionId),
}

/// The buffered batches held for `id`, or the empty sequence if none are held.
pub open spec fn prior(ob: Map<ConnectionId, Seq<Vec<u8>>>, id: ConnectionId) -> Seq<Vec<u8>> {
    if ob.contains_key(id) {
        ob[id]
    } else {
        Seq::empty()
    }
}

/// The Send actions that draining `id`'s outbox emits, in buffer order.
pub open spec fn sends_of<L, T>(ob: Map<ConnectionId, Seq<Vec<u8>>>, id: ConnectionId) -> Seq<
    Action<L, T>,
> {
    prior(ob, id).map(|j: int, m: Vec<u8>| Action::<L, T>::Send(id, m))
}

/// One write deferred onto `id`'s outbox, creating the entry if absent.
pub open spec fn buffer_one(
    ob: Map<ConnectionId, Seq<Vec<u8>>>,
    id: ConnectionId,
    msg: Vec<u8>,
) -> Map<ConnectionId, Seq<Vec<u8>>> {
    ob.insert(id, prior(ob, id).push(msg))
}

/// A series of writes deferred onto `id`'s outbox, first message first.
pub open spec fn buffer_all(
    ob: Map<ConnectionId, Seq<Vec<u8>>>,
    id: ConnectionId,
    msgs: Seq<Vec<u8>>,
) -> Map<ConnectionId, Seq<Vec<u8>>>
    decreases msgs.len(),
{
    if msgs.len() == 0 {
        ob
    } else {
        buffer_all(buffer_one(ob, id, msgs[0]), id, msgs.skip(1))
    }
}

/// The multiplexer: per-connection output buffering plus the pending-action
/// queue the reactor drains.  One instance is driven sequentially by a single
/// reactor thread; no callback here blocks.
pub struct Server<L, T> {
    outbox: HashMap<ConnectionId, VecDeque<Vec<u8>>>,
    action_queue: VecDeque<Action<L, T>>,
}

impl<L, T> Server<L, T> {
    /// The pending actions, oldest first.
    pub closed spec fn queue_view(&self) -> Seq<Action<L, T>> {
        self.action_queue@
    }

    /// The outbox: each buffered connection's pending byte-batches in
    /// submission order.
    pub closed spec fn outbox_view(&self) -> Map<ConnectionId, Seq<Vec<u8>>> {
        self.outbox@.map_values(|q: VecDeque<Vec<u8>>| q@)
    }

    /// Construction: the freshly bound listener is the one action already
    /// queued for the reactor; no connection is buffered yet.
    pub fn with(listener: L) -> (s: Self)
        ensures
            s.queue_view() =~= seq![Action::<L, T>::RegisterListener(listener)],
            s.outbox_view() =~= Map::<ConnectionId, Seq<Vec<u8>>>::empty(),
    {
        let mut action_queue: VecDeque<Action<L, T>> = VecDeque::new();
        action_queue.push_back(Action::RegisterListener(listener));
        let outbox: HashMap<ConnectionId, VecDeque<Vec<u8>>> = HashMap::new();
        Server { outbox, action_queue }
    }

    /// Appends the given actions to the queue in order, touching nothing else.
    fn enqueue_all(&mut self, actions: Vec<Action<L, T>>)
        ensures
            final(self).queue_view() =~= old(self).queue_view() + actions@,
            final(self).outbox_view() == old(self).outbox_view(),
    {
        let ghost all = actions@;
        let ghost mut done: int = 0;
        let mut rest = actions;
        while rest.len() > 0
            invariant
                0 <= done <= all.len(),
                rest@ =~= all.skip(done),
                self.queue_view() =~= old(self).queue_view() + all.take(done),
                self.outbox == old(self).outbox,
            decreases rest@.len(),
        {
            let a = rest.remove(0);
            proof {
                assert(a == all[done]);
            }
            self.action_queue.push_back(a);
            proof {
                done = done + 1;
                assert(all.take(done - 1).push(all[done - 1]) =~= all.take(done));
            }
        }
        proof {
            assert(all.take(done) =~= all);
        }
    }

    /// An inbound connection was accepted and wrapped as a transport, or the
    /// wrap failed (`None`): a successful wrap is registered with the reactor,
    /// a failed one is merely dropped — never fatal.
    pub fn accepted(&mut self, transport: Option<T>)
        ensures
            final(self).outbox_view() == old(self).outbox_view(),
            match transport {
                Some(t) => final(self).queue_view() =~= old(self).queue_view().push(
                    Action::<L, T>::RegisterTransport(t),
                ),
                None => final(self).queue_view() =~= old(self).queue_view(),
            },
    {
        match transport {
            Some(t) => self.action_queue.push_back(Action::RegisterTransport(t)),
            None => (),
        }
    }

    /// A failure on the listener deregisters nothing and buffers nothing: the
    /// listener stays registered and keeps accepting.
    pub fn listener_failure(&mut self)
        ensures
            final(self).queue_view() =~= old(self).queue_view(),
            final(self).outbox_view() == old(self).outbox_view(),
    {
    }

    /// The handshake on `id` completed.  The delegate's actions for the new
    /// client go out first; then `id`'s outbox — if any — is drained as Send
    /// actions in original submission order and destroyed.
    pub fn established(&mut self, id: ConnectionId, actions: Vec<Action<L, T>>)
        ensures
            final(self).queue_view() =~= old(self).queue_view() + actions@ + sends_of(
                old(self).outbox_view(),
                id,
            ),
            final(self).outbox_view() =~= old(self).outbox_view().remove(id),
    {
        let pending = self.outbox.remove(&id);
        proof {
            assert(self.outbox_view() =~= old(self).outbox_view().remove(id));
        }
        self.enqueue_all(actions);
        match pending {
            None => {
                proof {
                    assert(sends_of::<L, T>(old(self).outbox_view(), id) =~= Seq::empty());
                }
            },
            Some(mut queue) => {
                let ghost msgs = queue@;
                proof {
                    assert(old(self).outbox_view().contains_key(id));
                    assert(old(self).outbox_view()[id] == msgs);
                }
                let ghost base = self.queue_view();
                let ghost mut sent: int = 0;
                while queue.len() > 0
                    invariant
                        0 <= sent <= msgs.len(),
                        queue@ =~= msgs.skip(sent),
                        self.queue_view() =~= base + msgs.take(sent).map(
                            |j: int, m: Vec<u8>| Action::<L, T>::Send(id, m),
                        ),
                        self.outbox_view() =~= old(self).outbox_view().remove(id),
                    decreases queue@.len(),
                {
                    let msg = queue.pop_front().unwrap();
                    proof {
                        assert(msg == msgs[sent]);
                    }
                    self.action_queue.push_back(Action::Send(id, msg));
                    proof {
                        sent = sent + 1;
                        assert(msgs.take(sent - 1).map(
                            |j: int, m: Vec<u8>| Action::<L, T>::Send(id, m),
                        ).push(Action::<L, T>::Send(id, msgs[sent - 1])) =~= msgs.take(sent).map(
                            |j: int, m: Vec<u8>| Action::<L, T>::Send(id, m),
                        ));
                    }
                }
                proof {
                    assert(sent == msgs.len());
                    assert(msgs.take(sent) =~= msgs);
                    assert(sends_of::<L, T>(old(self).outbox_view(), id) =~= msgs.map(
                        |j: int, m: Vec<u8>| Action::<L, T>::Send(id, m),
                    ));
                }
            },
        }
    }

    /// Inbound bytes on `id` were handed verbatim to the delegate; its
    /// resulting actions are appended, order preserved.
    pub fn data_received(&mut self, id: ConnectionId, actions: Vec<Action<L, T>>)
        ensures
            final(self).queue_view() =~= old(self).queue_view() + actions@,
            final(self).outbox_view() == old(self).outbox_view(),
    {
        let _ = id;
        self.enqueue_all(actions);
    }

    /// The transport on `id` terminated: it is unregistered, and whatever its
    /// outbox still held is discarded, never flushed.  Safe to repeat for the
    /// same id: the second call finds no outbox entry left to discard.
    pub fn terminated(&mut self, id: ConnectionId)
        ensures
            final(self).queue_view() =~= old(self).queue_view().push(
                Action::<L, T>::UnregisterTransport(id),
            ),
            final(self).outbox_view() =~= old(self).outbox_view().remove(id),
    {
        self.action_queue.push_back(Action::UnregisterTransport(id));
        let _ = self.outbox.remove(&id);
        proof {
            assert(self.outbox_view() =~= old(self).outbox_view().remove(id));
        }
    }

    /// Classification of reactor faults: a clean peer disconnect and unknown
    /// ids are absorbed; a write-not-ready defers the message onto the outbox;
    /// listener-level faults unregister the listener; other write or poll
    /// faults unregister the transport.
    pub fn handle_error(&mut self, err: ReactorError)
        ensures
            match err {
                ReactorError::TransportDisconnect(_) => final(self).queue_view() =~= old(
                    self,
                ).queue_view() && final(self).outbox_view() == old(self).outbox_view(),
                ReactorError::WriteLogicError(id, msg) => final(self).queue_view() =~= old(
                    self,
                ).queue_view() && final(self).outbox_view() =~= buffer_one(
                    old(self).outbox_view(),
                    id,
                    msg,
                ),
                ReactorError::ListenerUnknown(_) => final(self).queue_view() =~= old(self).queue_view()
                    && final(self).outbox_view() == old(self).outbox_view(),
                ReactorError::TransportUnknown(_) => final(self).queue_view() =~= old(self).queue_view()
                    && final(self).outbox_view() == old(self).outbox_view(),
                ReactorError::Poll => final(self).queue_view() =~= old(self).queue_view()
                    && final(self).outbox_view() == old(self).outbox_view(),
                ReactorError::ListenerDisconnect(id) => final(self).queue_view() =~= old(
                    self,
                ).queue_view().push(Action::<L, T>::UnregisterListener(id)) && final(self).outbox_view()
                    == old(self).outbox_view(),
                ReactorError::ListenerPollError(id) => final(self).queue_view() =~= old(
                    self,
                ).queue_view().push(Action::<L, T>::UnregisterListener(id)) && final(self).outbox_view()
                    == old(self).outbox_view(),
                ReactorError::WriteFailure(id) => final(self).queue_view() =~= old(
                    self,
                ).queue_view().push(Action::<L, T>::UnregisterTransport(id)) && final(self).outbox_view()
                    == old(self).outbox_view(),
                ReactorError::TransportPollError(id) => final(self).queue_view() =~= old(
                    self,
                ).queue_view().push(Action::<L, T>::UnregisterTransport(id)) && final(self).outbox_view()
                    == old(self).outbox_view(),
            },
    {
        match err {
            ReactorError::TransportDisconnect(_) => (),
            ReactorError::WriteLogicError(id, msg) => {
                let mut queue = match self.outbox.remove(&id) {
                    Some(q) => q,
                    None => VecDeque::new(),
                };
                queue.push_back(msg);
                self.outbox.insert(id, queue);
                proof {
                    assert(self.outbox_view() =~= buffer_one(old(self).outbox_view(), id, msg));
                }
            },
            ReactorError::ListenerUnknown(_) => (),
            ReactorError::TransportUnknown(_) => (),
            ReactorError::Poll => (),
            ReactorError::ListenerDisconnect(id) => {
                self.action_queue.push_back(Action::UnregisterListener(id));
            },
            ReactorError::ListenerPollError(id) => {
                self.action_queue.push_back(Action::UnregisterListener(id));
            },
            ReactorError::WriteFailure(id) => {
                self.action_queue.push_back(Action::UnregisterTransport(id));
            },
            ReactorError::TransportPollError(id) => {
                self.action_queue.push_back(Action::UnregisterTransport(id));
            },
        }
    }

    /// Non-blocking pull: the oldest pending action, or nothing when the queue
    /// is empty.  The reactor calls this between I/O dispatch passes.
    pub fn next(&mut self) -> (r: Option<Action<L, T>>)
        ensures
            final(self).outbox_view() == old(self).outbox_view(),
            match r {
                Some(a) => old(self).queue_view().len() > 0 && a == old(self).queue_view()[0]
                    && final(self).queue_view() =~= old(self).queue_view().skip(1),
                None => old(self).queue_view().len() == 0 && final(self).queue_view() =~= old(
                    self,
                ).queue_view(),
            },
    {
        self.action_queue.pop_front()
    }

    /// How many byte-batches are buffered for `id`; zero when no outbox entry
    /// exists for it.
    pub fn buffered_count(&self, id: ConnectionId) -> (n: usize)
        ensures
            self.outbox_view().contains_key(id) ==> n == self.outbox_view()[id].len(),
            !self.outbox_view().contains_key(id) ==> n == 0,
    {
        match self.outbox.get(&id) {
            Some(q) => q.len(),
            None => 0,
        }
    }
}

/// Deferred writes accumulate on the written connection's entry alone, in
/// submission order, on top of whatever was already buffered there.
pub proof fn lemma_buffer_all(ob: Map<ConnectionId, Seq<Vec<u8>>>, id: ConnectionId, msgs: Seq<Vec<u8>>)
    ensures
        msgs.len() == 0 ==> buffer_all(ob, id, msgs) == ob,
        msgs.len() > 0 ==> buffer_all(ob, id, msgs) =~= ob.insert(id, prior(ob, id) + msgs),
    decreases msgs.len(),
{
    if msgs.len() > 0 {
        let step = buffer_one(ob, id, msgs[0]);
        lemma_buffer_all(step, id, msgs.skip(1));
        if msgs.len() == 1 {
            assert(msgs.skip(1).len() == 0);
            assert(prior(ob, id).push(msgs[0]) =~= prior(ob, id) + msgs);
            assert(buffer_all(ob, id, msgs) =~= ob.insert(id, prior(ob, id) + msgs));
        } else {
            assert(prior(step, id) == prior(ob, id).push(msgs[0]));
            assert(prior(ob, id).push(msgs[0]) + msgs.skip(1) =~= prior(ob, id) + msgs);
            assert(step.insert(id, prior(step, id) + msgs.skip(1)) =~= ob.insert(
                id,
                prior(ob, id) + msgs,
            ));
        }
    }
}

/// Outbox FIFO law: writes deferred by the not-writable path onto a connection
/// with no prior buffer, once released by that connection's Established
/// signal, drain as Send actions in original submission order 1..N.  The
/// contract of [`Server::established`] places the delegate's own new-client
/// actions ahead of this drained sequence.
pub proof fn lemma_outbox_fifo<L, T>(
    ob: Map<ConnectionId, Seq<Vec<u8>>>,
    id: ConnectionId,
    msgs: Seq<Vec<u8>>,
)
    requires
        !ob.contains_key(id),
    ensures
        sends_of::<L, T>(buffer_all(ob, id, msgs), id) =~= msgs.map(
            |j: int, m: Vec<u8>| Action::<L, T>::Send(id, m),
        ),
{
    lemma_buffer_all(ob, id, msgs);
    if msgs.len() == 0 {
        assert(sends_of::<L, T>(ob, id) =~= Seq::empty());
        assert(msgs.map(|j: int, m: Vec<u8>| Action::<L, T>::Send(id, m)) =~= Seq::empty());
    } else {
        assert(prior(buffer_all(ob, id, msgs), id) =~= msgs);
    }
}

/// Outbox isolation law: every action drained from connection `a`'s buffer is
/// a Send addressed to `a`; discarding or draining `a`'s buffer leaves `b`'s
/// buffer and `b`'s drained sequence untouched; and writes deferred onto `a`
/// never change what is buffered for `b`.
pub proof fn lemma_outbox_isolation<L, T>(
    ob: Map<ConnectionId, Seq<Vec<u8>>>,
    a: ConnectionId,
    b: ConnectionId,
    msgs: Seq<Vec<u8>>,
)
    requires
        a != b,
    ensures
        forall|k: int|
            0 <= k < sends_of::<L, T>(ob, a).len() ==> sends_of::<L, T>(ob, a)[k]
                == Action::<L, T>::Send(a, prior(ob, a)[k]),
        sends_of::<L, T>(ob.remove(a), b) =~= sends_of::<L, T>(ob, b),
        prior(buffer_all(ob, a, msgs), b) =~= prior(ob, b),
{
    assert(prior(ob.remove(a), b) =~= prior(ob, b));
    lemma_buffer_all(ob, a, msgs);
    if msgs.len() > 0 {
        assert(prior(ob.insert(a, prior(ob, a) + msgs), b) =~= prior(ob, b));
    }
}

/// Idempotent teardown law: tearing the same connection down twice leaves the
/// outbox exactly as one teardown left it; no entry is corrupted or revived.
pub proof fn lemma_teardown_idempotent(ob: Map<ConnectionId, Seq<Vec<u8>>>, id: ConnectionId)
    ensures
        ob.remove(id).remove(id) =~= ob.remove(id),
{
}

} // verus!
