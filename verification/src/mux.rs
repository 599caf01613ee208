//! The multiplexer: a registry of per-port connections, a default intake
//! for frames whose port label is unknown, and the outbound queue drained
//! by the single transport writer. Frames for a registered label go to
//! that connection's inbox in arrival order; frames for unknown labels go
//! to the default intake, whose handler decides whether a frame spawns a
//! new listener.

use vstd::prelude::*;

use crate::codec::{Function, Message, MessageView, Protocol};

verus! {

/// A per-port listener's record: the container-side label under which its
/// frames travel, the host port it actually bound (these differ after a
/// bind collision), what it serves, and its inbox of delivered frames.
pub struct Connection {
    pub port: u16,
    pub host_port: u16,
    pub protocol: Protocol,
    pub app: String,
    pub inbox: Vec<Message>,
}

/// The mathematical value of a connection record.
#[verifier::ext_equal]
pub struct ConnectionV {
    pub port: u16,
    pub host_port: u16,
    pub protocol: Protocol,
    pub app: Seq<char>,
    pub inbox: Seq<MessageView>,
}

/// The mathematical values of a sequence of frames.
pub open spec fn msgs_view(v: Seq<Message>) -> Seq<MessageView> {
    Seq::new(v.len(), |i: int| v[i]@)
}

pub broadcast proof fn lemma_msgs_view_len(v: Seq<Message>)
    ensures
        #[trigger] msgs_view(v).len() == v.len(),
{
}

pub broadcast proof fn lemma_msgs_view_index(v: Seq<Message>, i: int)
    requires
        0 <= i < v.len(),
    ensures
        #[trigger] msgs_view(v)[i] == v[i]@,
{
}

impl View for Connection {
    type V = ConnectionV;

    open spec fn view(&self) -> ConnectionV {
        ConnectionV {
            port: self.port,
            host_port: self.host_port,
            protocol: self.protocol,
            app: self.app@,
            inbox: msgs_view(self.inbox@),
        }
    }
}

/// The mathematical values of a sequence of connection records.
pub open spec fn conns_view(v: Seq<Connection>) -> Seq<ConnectionV> {
    Seq::new(v.len(), |i: int| v[i]@)
}

pub broadcast proof fn lemma_conns_view_len(v: Seq<Connection>)
    ensures
        #[trigger] conns_view(v).len() == v.len(),
{
}

pub broadcast proof fn lemma_conns_view_index(v: Seq<Connection>, i: int)
    requires
        0 <= i < v.len(),
    ensures
        #[trigger] conns_view(v)[i] == v[i]@,
{
}

impl Connection {
    /// The next delivered frame, oldest first; `None` on an empty inbox.
    pub fn next_inbox(&mut self) -> (r: Option<Message>)
        ensures
            match r {
                Some(m) => old(self)@.inbox.len() > 0 && m@ == old(self)@.inbox[0]
                    && final(self)@.inbox == old(self)@.inbox.drop_first(),
                None => old(self)@.inbox.len() == 0 && final(self)@.inbox == old(self)@.inbox,
            },
            final(self).port == old(self).port,
            final(self).host_port == old(self).host_port,
            final(self).protocol == old(self).protocol,
            final(self)@.app == old(self)@.app,
    {
        broadcast use {lemma_msgs_view_len, lemma_msgs_view_index, lemma_conns_view_len, lemma_conns_view_index};

        if self.inbox.len() == 0 {
            None
        } else {
            let m = self.inbox.remove(0);
            assert(msgs_view(self.inbox@) =~= msgs_view(old(self).inbox@).drop_first());
            Some(m)
        }
    }
}

/// Whether some registered connection carries the given label port.
pub open spec fn has_port(registry: Seq<ConnectionV>, port: u16) -> bool {
    exists|i: int| 0 <= i < registry.len() && registry[i].port == port
}

/// The index of the connection registered under the given label port.
pub open spec fn port_index(registry: Seq<ConnectionV>, port: u16) -> int {
    choose|i: int| 0 <= i < registry.len() && registry[i].port == port
}

/// No two registered connections share a label port: the registry is an
/// injection from label port to connection.
pub open spec fn distinct_ports(registry: Seq<ConnectionV>) -> bool {
    forall|i: int, j: int| 0 <= i < j < registry.len() ==> registry[i].port != registry[j].port
}

/// The mathematical value of the multiplexer's state.
#[verifier::ext_equal]
pub struct MultiplexerV {
    pub registry: Seq<ConnectionV>,
    pub default_queue: Seq<MessageView>,
    pub outbound: Seq<MessageView>,
}

/// The multiplexer's state: the port registry, the default intake queue,
/// and the outbound queue written to the transport in insertion order.
pub struct Multiplexer {
    pub registry: Vec<Connection>,
    pub default_queue: Vec<Message>,
    pub outbound: Vec<Message>,
}

impl View for Multiplexer {
    type V = MultiplexerV;

    open spec fn view(&self) -> MultiplexerV {
        MultiplexerV {
            registry: conns_view(self.registry@),
            default_queue: msgs_view(self.default_queue@),
            outbound: msgs_view(self.outbound@),
        }
    }
}

/// Where dispatching one frame leaves the multiplexer: appended to the
/// inbox of the connection registered under the frame's label, or to the
/// default intake when no connection carries that label.
pub open spec fn spec_dispatch(mv: MultiplexerV, m: MessageView) -> MultiplexerV {
    if has_port(mv.registry, m.header.port) {
        let i = port_index(mv.registry, m.header.port);
        MultiplexerV {
            registry: mv.registry.update(
                i,
                ConnectionV { inbox: mv.registry[i].inbox.push(m), ..mv.registry[i] },
            ),
            ..mv
        }
    } else {
        MultiplexerV { default_queue: mv.default_queue.push(m), ..mv }
    }
}

/// Where registering one connection leaves the registry: the entry under
/// the same label replaced, or the record appended when the label is new.
pub open spec fn spec_register(mv: MultiplexerV, c: ConnectionV) -> MultiplexerV {
    if has_port(mv.registry, c.port) {
        MultiplexerV { registry: mv.registry.update(port_index(mv.registry, c.port), c), ..mv }
    } else {
        MultiplexerV { registry: mv.registry.push(c), ..mv }
    }
}

impl Multiplexer {
    /// The registry is an injection from label port to connection.
    pub open spec fn wf(self) -> bool {
        distinct_ports(self@.registry)
    }

    /// A multiplexer with no connections and empty queues.
    pub fn new() -> (r: Multiplexer)
        ensures
            r@.registry == Seq::<ConnectionV>::empty(),
            r@.default_queue == Seq::<MessageView>::empty(),
            r@.outbound == Seq::<MessageView>::empty(),
            r.wf(),
    {
        broadcast use {lemma_msgs_view_len, lemma_msgs_view_index, lemma_conns_view_len, lemma_conns_view_index};

        let r = Multiplexer {
            registry: Vec::new(),
            default_queue: Vec::new(),
            outbound: Vec::new(),
        };
        assert(r@.registry =~= Seq::<ConnectionV>::empty());
        assert(r@.default_queue =~= Seq::<MessageView>::empty());
        assert(r@.outbound =~= Seq::<MessageView>::empty());
        r
    }

    /// Deliver one decoded frame: to the inbox of the connection
    /// registered under the frame's label port, else to the default
    /// intake. Nothing else moves.
    pub fn dispatch(&mut self, message: Message)
        requires
            old(self).wf(),
        ensures
            final(self).wf(),
            final(self)@ == spec_dispatch(old(self)@, message@),
    {
        broadcast use {lemma_msgs_view_len, lemma_msgs_view_index, lemma_conns_view_len, lemma_conns_view_index};

        let ghost reg0 = old(self)@.registry;
        let port = message.header.port;
        let mut i: usize = 0;
        while i < self.registry.len()
            invariant
                *self == *old(self),
                reg0 == self@.registry,
                port == message.header.port,
                distinct_ports(reg0),
                i <= reg0.len(),
                forall|k: int| 0 <= k < i ==> reg0[k].port != port,
            decreases self.registry.len() - i,
        {
            if self.registry[i].port == port {
                assert(reg0[i as int].port == port);
                assert(has_port(reg0, port));
                proof {
                    let j = port_index(reg0, port);
                    assert(0 <= j < reg0.len() && reg0[j].port == port);
                    if j != i {
                        assert(reg0[i as int].port != reg0[j].port);
                    }
                    assert(port_index(reg0, port) == i as int);
                }
                let ghost target = spec_dispatch(old(self)@, message@);
                self.registry[i].inbox.push(message);
                assert(self@.registry[i as int].inbox =~= reg0[i as int].inbox.push(message@));
                assert(self@.registry[i as int] =~= target.registry[i as int]);
                assert forall|k: int|
                    0 <= k < reg0.len() && k != i as int implies self@.registry[k]
                    == target.registry[k] by {
                    assert(self.registry@[k] == old(self).registry@[k]);
                }
                assert(self@.registry =~= target.registry);
                assert(forall|k: int|
                    0 <= k < reg0.len() ==> self@.registry[k].port == reg0[k].port);
                assert(self@ =~~= target);
                return;
            }
            i = i + 1;
        }
        assert(!has_port(reg0, port));
        self.default_queue.push(message);
        assert(self@.default_queue =~= old(self)@.default_queue.push(message@));
        assert(self@.registry =~= old(self)@.registry);
        assert(self@ =~~= spec_dispatch(old(self)@, message@));
    }

    /// Insert a newly announced connection under its label port, replacing
    /// any record already keyed by that label.
    pub fn register(&mut self, connection: Connection)
        requires
            old(self).wf(),
        ensures
            final(self).wf(),
            final(self)@ == spec_register(old(self)@, connection@),
            has_port(final(self)@.registry, connection.port),
    {
        broadcast use {lemma_msgs_view_len, lemma_msgs_view_index, lemma_conns_view_len, lemma_conns_view_index};

        let ghost reg0 = old(self)@.registry;
        let port = connection.port;
        let mut i: usize = 0;
        while i < self.registry.len()
            invariant
                *self == *old(self),
                reg0 == self@.registry,
                port == connection.port,
                distinct_ports(reg0),
                i <= reg0.len(),
                forall|k: int| 0 <= k < i ==> reg0[k].port != port,
            decreases self.registry.len() - i,
        {
            if self.registry[i].port == port {
                assert(reg0[i as int].port == port);
                assert(has_port(reg0, port));
                proof {
                    let j = port_index(reg0, port);
                    assert(0 <= j < reg0.len() && reg0[j].port == port);
                    if j != i {
                        assert(reg0[i as int].port != reg0[j].port);
                    }
                    assert(port_index(reg0, port) == i as int);
                }
                let ghost target = spec_register(old(self)@, connection@);
                self.registry[i] = connection;
                assert(self@.registry[i as int] == connection@);
                assert forall|k: int|
                    0 <= k < reg0.len() && k != i as int implies self@.registry[k]
                    == target.registry[k] by {
                    assert(self.registry@[k] == old(self).registry@[k]);
                }
                assert(self@.registry =~= target.registry);
                assert(self@.registry[i as int].port == port);
                assert(forall|k: int|
                    0 <= k < reg0.len() ==> self@.registry[k].port == reg0[k].port);
                assert(self@ =~~= target);
                return;
            }
            i = i + 1;
        }
        assert(!has_port(reg0, port));
        self.registry.push(connection);
        assert(self@.registry =~= old(self)@.registry.push(connection@));
        assert(self@.registry[reg0.len() as int].port == port);
        assert(self@ =~~= spec_register(old(self)@, connection@));
    }

    /// Queue one frame for the transport writer.
    pub fn enqueue_outbound(&mut self, message: Message)
        requires
            old(self).wf(),
        ensures
            final(self).wf(),
            final(self)@.outbound == old(self)@.outbound.push(message@),
            final(self)@.registry == old(self)@.registry,
            final(self)@.default_queue == old(self)@.default_queue,
    {
        broadcast use {lemma_msgs_view_len, lemma_msgs_view_index, lemma_conns_view_len, lemma_conns_view_index};

        self.outbound.push(message);
        assert(self@.outbound =~= old(self)@.outbound.push(message@));
        assert(self@.registry =~= old(self)@.registry);
    }

    /// The next frame to write, in insertion order; `None` when the queue
    /// is drained.
    pub fn next_outbound(&mut self) -> (r: Option<Message>)
        requires
            old(self).wf(),
        ensures
            final(self).wf(),
            match r {
                Some(m) => old(self)@.outbound.len() > 0 && m@ == old(self)@.outbound[0]
                    && final(self)@.outbound == old(self)@.outbound.drop_first(),
                None => old(self)@.outbound.len() == 0
                    && final(self)@.outbound == old(self)@.outbound,
            },
            final(self)@.registry == old(self)@.registry,
            final(self)@.default_queue == old(self)@.default_queue,
    {
        broadcast use {lemma_msgs_view_len, lemma_msgs_view_index, lemma_conns_view_len, lemma_conns_view_index};

        if self.outbound.len() == 0 {
            None
        } else {
            let m = self.outbound.remove(0);
            assert(self@.outbound =~= old(self)@.outbound.drop_first());
            assert(self@.registry =~= old(self)@.registry);
            Some(m)
        }
    }

    /// The next frame waiting on the default intake, in arrival order.
    pub fn next_default(&mut self) -> (r: Option<Message>)
        requires
            old(self).wf(),
        ensures
            final(self).wf(),
            match r {
                Some(m) => old(self)@.default_queue.len() > 0 && m@ == old(self)@.default_queue[0]
                    && final(self)@.default_queue == old(self)@.default_queue.drop_first(),
                None => old(self)@.default_queue.len() == 0
                    && final(self)@.default_queue == old(self)@.default_queue,
            },
            final(self)@.registry == old(self)@.registry,
            final(self)@.outbound == old(self)@.outbound,
    {
        broadcast use {lemma_msgs_view_len, lemma_msgs_view_index, lemma_conns_view_len, lemma_conns_view_index};

        if self.default_queue.len() == 0 {
            None
        } else {
            let m = self.default_queue.remove(0);
            assert(self@.default_queue =~= old(self)@.default_queue.drop_first());
            assert(self@.registry =~= old(self)@.registry);
            Some(m)
        }
    }
}


/// Where a whole run of decoded frames leaves the multiplexer, dispatched
/// one after the other in decode order.
pub open spec fn spec_dispatch_all(mv: MultiplexerV, msgs: Seq<MessageView>) -> MultiplexerV
    decreases msgs.len(),
{
    if msgs.len() == 0 {
        mv
    } else {
        spec_dispatch_all(spec_dispatch(mv, msgs[0]), msgs.drop_first())
    }
}

/// Dispatching never adds, removes, or re-keys connections: the registry
/// keeps its length and its port labels.
proof fn lemma_dispatch_keeps_ports(mv: MultiplexerV, m: MessageView)
    ensures
        spec_dispatch(mv, m).registry.len() == mv.registry.len(),
        forall|k: int|
            0 <= k < mv.registry.len() ==> #[trigger] spec_dispatch(mv, m).registry[k].port
                == mv.registry[k].port,
{
}

/// The index a label is registered under does not move while its port set
/// is unchanged.
proof fn lemma_port_index_stable(a: Seq<ConnectionV>, b: Seq<ConnectionV>, port: u16)
    requires
        distinct_ports(a),
        a.len() == b.len(),
        forall|k: int| 0 <= k < a.len() ==> a[k].port == #[trigger] b[k].port,
        has_port(a, port),
    ensures
        has_port(b, port),
        distinct_ports(b),
        port_index(b, port) == port_index(a, port),
{
    let i = port_index(a, port);
    assert(0 <= i < a.len() && a[i].port == port);
    assert(b[i].port == port);
    assert(has_port(b, port));
    let j = port_index(b, port);
    assert(0 <= j < b.len() && b[j].port == port);
    if i != j {
        assert(a[i].port != a[j].port);
    }
}

/// The ordering contract of the read loop: over any run of decoded frames,
/// the inbox registered under a label receives exactly the frames carrying
/// that label, in decode order, appended after what it already held.
/// Frames for other labels never reach it.
pub proof fn lemma_dispatch_all_fifo(mv: MultiplexerV, msgs: Seq<MessageView>, port: u16)
    requires
        distinct_ports(mv.registry),
        has_port(mv.registry, port),
    ensures
        ({
            let i = port_index(mv.registry, port);
            let end = spec_dispatch_all(mv, msgs);
            &&& distinct_ports(end.registry)
            &&& end.registry.len() == mv.registry.len()
            &&& has_port(end.registry, port)
            &&& port_index(end.registry, port) == i
            &&& end.registry[i].port == port
            &&& end.registry[i].inbox == mv.registry[i].inbox + msgs.filter(
                |m: MessageView| m.header.port == port,
            )
        }),
    decreases msgs.len(),
{
    broadcast use vstd::seq_lib::group_filter_ensures;

    let i = port_index(mv.registry, port);
    let pred = |m: MessageView| m.header.port == port;
    if msgs.len() == 0 {
        assert(msgs.filter(pred) =~= Seq::<MessageView>::empty());
        assert(mv.registry[i].inbox + msgs.filter(pred) =~= mv.registry[i].inbox);
    } else {
        let m = msgs[0];
        let step = spec_dispatch(mv, m);
        lemma_dispatch_keeps_ports(mv, m);
        lemma_port_index_stable(mv.registry, step.registry, port);
        lemma_dispatch_all_fifo(step, msgs.drop_first(), port);
        assert(msgs =~= seq![m] + msgs.drop_first());
        Seq::<MessageView>::filter_distributes_over_add(seq![m], msgs.drop_first(), pred);
        reveal(Seq::filter);
        assert(seq![m].drop_last() =~= Seq::<MessageView>::empty());
        assert(Seq::<MessageView>::empty().filter(pred) == Seq::<MessageView>::empty());
        assert(seq![m].last() == m);
        if pred(m) {
            assert(seq![m].filter(pred) =~= seq![m]);
        } else {
            assert(seq![m].filter(pred) =~= Seq::<MessageView>::empty());
        }
        if m.header.port == port {
            assert(step.registry[i].inbox == mv.registry[i].inbox.push(m));
            assert(mv.registry[i].inbox.push(m) + msgs.drop_first().filter(pred)
                =~= mv.registry[i].inbox + msgs.filter(pred));
        } else {
            let j = port_index(mv.registry, m.header.port);
            if has_port(mv.registry, m.header.port) && j != i {
                assert(step.registry[i] == mv.registry[i]);
            }
            assert(step.registry[i].inbox == mv.registry[i].inbox);
            assert(mv.registry[i].inbox + msgs.drop_first().filter(pred) =~= mv.registry[i].inbox
                + msgs.filter(pred));
        }
    }
}

/// What the default intake does with a frame for an unknown label: a
/// create request spawns a listener of the matching kind; anything else is
/// logged and discarded.
#[derive(Debug, PartialEq, Eq, Structural, Clone, Copy)]
pub enum IntakeAction {
    SpawnTcpListener,
    SpawnUdpListener,
    Discard,
}

/// The default intake's decision for one frame.
pub fn intake_action(message: &Message) -> (r: IntakeAction)
    ensures
        r == match message.header.function {
            Function::CreateTcp => IntakeAction::SpawnTcpListener,
            Function::CreateUdp => IntakeAction::SpawnUdpListener,
            _ => IntakeAction::Discard,
        },
{
    match message.header.function {
        Function::CreateTcp => IntakeAction::SpawnTcpListener,
        Function::CreateUdp => IntakeAction::SpawnUdpListener,
        _ => IntakeAction::Discard,
    }
}

} // verus!
