//! The server's side of a session: who is attached, who controls the terminal size, what each
//! client is owed, and when the server is done.
//!
//! A [`Session`] is told what happened (output of the child, a packet of a client, a client that
//! went away) and answers with the [`Action`]s to perform. It never waits for a client: what is
//! to be sent is queued, and a client whose queue would grow over [`OUTBOUND_LIMIT`] is closed.

use crate::protocol::{
    bytes_to_vec, chunk_packets, ClientFlags, MsgType, Packet, PacketView, Welcome, HEADER_SIZE,
    MAX_PAYLOAD, PROTOCOL_VERSION,
};
use crate::ring::RingBuffer;
use vstd::prelude::*;

verus! {

/// Bytes that may be queued for one client.
pub const OUTBOUND_LIMIT: usize = 262144;

/// Where a client stands after its handshake.
#[derive(Debug, Clone, Copy, PartialEq, Eq, Structural)]
pub enum ClientState {
    /// The recorded output has not been sent to the end yet.
    Replaying,
    /// Both directions are open.
    Live,
}

/// An attached client.
#[derive(Debug, Clone, Copy, PartialEq, Eq, Structural)]
pub struct ClientHandle {
    pub id: u64,
    pub flags: ClientFlags,
    pub state: ClientState,
    /// The client whose terminal size is applied.
    pub is_controller: bool,
    /// Bytes that are queued for the client and not written yet.
    pub queued: usize,
}

/// What the program around the session has to do.
#[derive(Debug)]
pub enum Action {
    /// Append a packet to the client's queue.
    Send { id: u64, packet: Packet },
    /// Write what is queued for the client, then close the connection.
    Finish { id: u64 },
    /// Close the client's connection at once.
    Close { id: u64 },
    /// Write bytes to the child's terminal.
    Input { data: Vec<u8> },
    /// Set the size of the child's terminal and signal the child's process group.
    SetSize { rows: u16, cols: u16 },
}

/// What an [`Action`] is.
pub enum ActionView {
    Send { id: u64, packet: PacketView },
    Finish { id: u64 },
    Close { id: u64 },
    Input { data: Seq<u8> },
    SetSize { rows: u16, cols: u16 },
}

impl View for Action {
    type V = ActionView;

    open spec fn view(&self) -> ActionView {
        match *self {
            Action::Send { id, packet } => ActionView::Send { id, packet: packet@ },
            Action::Finish { id } => ActionView::Finish { id },
            Action::Close { id } => ActionView::Close { id },
            Action::Input { data } => ActionView::Input { data: data@ },
            Action::SetSize { rows, cols } => ActionView::SetSize { rows, cols },
        }
    }
}

/// What a list of actions is.
pub open spec fn action_views(actions: Seq<Action>) -> Seq<ActionView> {
    actions.map_values(|a: Action| a@)
}

proof fn lemma_action_views_push(actions: Seq<Action>, a: Action)
    ensures
        action_views(actions.push(a)) == action_views(actions).push(a@),
{
    assert(action_views(actions.push(a)) =~= action_views(actions).push(a@));
}

// ---------------------------------------------------------------------------
// Delivery
// ---------------------------------------------------------------------------

/// Bytes that a packet takes in a queue.
pub open spec fn cost(p: PacketView) -> nat {
    HEADER_SIZE as nat + p.payload.len()
}

/// Whether the packet may be queued for the client.
pub open spec fn fits(c: ClientHandle, p: PacketView) -> bool {
    c.queued + cost(p) <= OUTBOUND_LIMIT
}

/// The client with the packet queued.
pub open spec fn charged(c: ClientHandle, p: PacketView) -> ClientHandle {
    ClientHandle { queued: (c.queued + cost(p)) as usize, ..c }
}

/// Whether a packet that goes to live clients only (or to every client) goes to this one.
pub open spec fn meant(c: ClientHandle, live_only: bool) -> bool {
    !live_only || c.state == ClientState::Live
}

/// Whether a client stays attached when the packet goes out.
pub open spec fn stays(live_only: bool, p: PacketView) -> spec_fn(ClientHandle) -> bool {
    |c: ClientHandle| !meant(c, live_only) || fits(c, p)
}

/// The clients after a packet went out: those that it is meant for have it queued, and those
/// that have no room for it are gone.
pub open spec fn clients_after(
    clients: Seq<ClientHandle>,
    p: PacketView,
    live_only: bool,
) -> Seq<ClientHandle> {
    clients.filter(stays(live_only, p)).map_values(
        |c: ClientHandle|
            if meant(c, live_only) {
                charged(c, p)
            } else {
                c
            },
    )
}

/// What is done to send a packet: for each client that it is meant for, in order, the packet is
/// queued or the client is closed.
pub open spec fn delivery(
    clients: Seq<ClientHandle>,
    p: PacketView,
    live_only: bool,
) -> Seq<ActionView> {
    clients.filter(|c: ClientHandle| meant(c, live_only)).map_values(
        |c: ClientHandle|
            if fits(c, p) {
                ActionView::Send { id: c.id, packet: p }
            } else {
                ActionView::Close { id: c.id }
            },
    )
}

pub proof fn lemma_clients_after_push(
    cs: Seq<ClientHandle>,
    c: ClientHandle,
    p: PacketView,
    live_only: bool,
)
    ensures
        clients_after(cs.push(c), p, live_only) == (if !meant(c, live_only) {
            clients_after(cs, p, live_only).push(c)
        } else if fits(c, p) {
            clients_after(cs, p, live_only).push(charged(c, p))
        } else {
            clients_after(cs, p, live_only)
        }),
        delivery(cs.push(c), p, live_only) == (if !meant(c, live_only) {
            delivery(cs, p, live_only)
        } else if fits(c, p) {
            delivery(cs, p, live_only).push(ActionView::Send { id: c.id, packet: p })
        } else {
            delivery(cs, p, live_only).push(ActionView::Close { id: c.id })
        }),
{
    cs.lemma_filter_push(c, stays(live_only, p));
    cs.lemma_filter_push(c, |c: ClientHandle| meant(c, live_only));
    assert(clients_after(cs.push(c), p, live_only) =~= (if !meant(c, live_only) {
        clients_after(cs, p, live_only).push(c)
    } else if fits(c, p) {
        clients_after(cs, p, live_only).push(charged(c, p))
    } else {
        clients_after(cs, p, live_only)
    }));
    assert(delivery(cs.push(c), p, live_only) =~= (if !meant(c, live_only) {
        delivery(cs, p, live_only)
    } else if fits(c, p) {
        delivery(cs, p, live_only).push(ActionView::Send { id: c.id, packet: p })
    } else {
        delivery(cs, p, live_only).push(ActionView::Close { id: c.id })
    }));
}

/// Send one packet to every client, or to every live one.
fn deliver(
    clients: &mut Vec<ClientHandle>,
    packet: &Packet,
    live_only: bool,
    actions: &mut Vec<Action>,
)
    requires
        packet@.valid(),
    ensures
        final(clients)@ == clients_after(old(clients)@, packet@, live_only),
        action_views(final(actions)@) == action_views(old(actions)@) + delivery(
            old(clients)@,
            packet@,
            live_only,
        ),
{
    let ghost before = clients@;
    let ghost said = action_views(actions@);
    let ghost p = packet@;
    let mut kept: Vec<ClientHandle> = Vec::new();
    let size: usize = HEADER_SIZE + packet.payload.len();
    let mut i: usize = 0;
    assert(before.take(0) =~= Seq::<ClientHandle>::empty());
    assert(kept@ =~= clients_after(before.take(0), p, live_only));
    assert(said =~= said + delivery(before.take(0), p, live_only));
    while i < clients.len()
        invariant
            i <= clients@.len(),
            clients@ == before,
            p == packet@,
            p.valid(),
            size == cost(p),
            size <= OUTBOUND_LIMIT,
            kept@ == clients_after(before.take(i as int), p, live_only),
            action_views(actions@) == said + delivery(before.take(i as int), p, live_only),
        decreases clients@.len() - i,
    {
        let c: ClientHandle = clients[i];
        proof {
            assert(before.take(i + 1) =~= before.take(i as int).push(c));
            lemma_clients_after_push(before.take(i as int), c, p, live_only);
        }
        let ghost acts = actions@;
        if live_only && c.state != ClientState::Live {
            kept.push(c);
        } else if c.queued <= OUTBOUND_LIMIT - size {
            kept.push(ClientHandle { queued: c.queued + size, ..c });
            actions.push(Action::Send { id: c.id, packet: packet.clone() });
            proof {
                lemma_action_views_push(acts, actions@.last());
                assert(actions@ =~= acts.push(actions@.last()));
            }
        } else {
            actions.push(Action::Close { id: c.id });
            proof {
                lemma_action_views_push(acts, actions@.last());
                assert(actions@ =~= acts.push(actions@.last()));
            }
        }
        assert(action_views(actions@) =~= said + delivery(before.take(i + 1), p, live_only));
        i = i + 1;
    }
    assert(before.take(i as int) =~= before);
    *clients = kept;
}

/// The clients after several packets went out to all of them, one after another.
pub open spec fn clients_after_all(
    clients: Seq<ClientHandle>,
    ps: Seq<PacketView>,
) -> Seq<ClientHandle>
    decreases ps.len(),
{
    if ps.len() == 0 {
        clients
    } else {
        clients_after(clients_after_all(clients, ps.drop_last()), ps.last(), false)
    }
}

/// What is done to send several packets to all clients, one after another.
pub open spec fn delivery_all(
    clients: Seq<ClientHandle>,
    ps: Seq<PacketView>,
) -> Seq<ActionView>
    decreases ps.len(),
{
    if ps.len() == 0 {
        Seq::empty()
    } else {
        delivery_all(clients, ps.drop_last()) + delivery(
            clients_after_all(clients, ps.drop_last()),
            ps.last(),
            false,
        )
    }
}

// ---------------------------------------------------------------------------
// Control of the terminal size
// ---------------------------------------------------------------------------

/// Whether the client may control the terminal size.
pub open spec fn eligible(c: ClientHandle) -> bool {
    !c.flags.readonly && !c.flags.low_priority
}

/// The index of the client that attached last of those that may control the terminal size.
pub open spec fn last_eligible(cs: Seq<ClientHandle>) -> Option<int>
    decreases cs.len(),
{
    if cs.len() == 0 {
        None
    } else if eligible(cs.last()) {
        Some(cs.len() - 1)
    } else {
        last_eligible(cs.drop_last())
    }
}

/// What [`last_eligible`] finds.
pub proof fn lemma_last_eligible(cs: Seq<ClientHandle>)
    ensures
        match last_eligible(cs) {
            Some(i) => 0 <= i < cs.len() && eligible(cs[i]) && forall|j: int|
                i < j < cs.len() ==> !eligible(#[trigger] cs[j]),
            None => forall|j: int| 0 <= j < cs.len() ==> !eligible(#[trigger] cs[j]),
        },
    decreases cs.len(),
{
    if cs.len() > 0 && !eligible(cs.last()) {
        let init = cs.drop_last();
        lemma_last_eligible(init);
        assert forall|j: int| 0 <= j < init.len() implies init[j] == #[trigger] cs[j] by {}
    }
}

/// An index with the property of [`last_eligible`] is the one that it finds.
proof fn lemma_last_eligible_unique(cs: Seq<ClientHandle>, i: int)
    requires
        0 <= i < cs.len(),
        eligible(cs[i]),
        forall|j: int| i < j < cs.len() ==> !eligible(#[trigger] cs[j]),
    ensures
        last_eligible(cs) == Some(i),
{
    lemma_last_eligible(cs);
}

/// The clients with the one at index `k` as the controller, and no other.
pub open spec fn crowned(cs: Seq<ClientHandle>, k: int) -> Seq<ClientHandle> {
    Seq::new(cs.len(), |j: int| ClientHandle { is_controller: j == k, ..cs[j] })
}

/// The packet that asks a client to announce its terminal size.
pub open spec fn resize_request() -> PacketView {
    PacketView { msg_type: MsgType::ResizeReq, payload: Seq::empty() }
}

/// The clients after the controller has been chosen anew, and what is done about it. The eligible
/// client that attached last controls. Where it did not before, it is asked for its terminal
/// size; where it has no room for the question, it is closed and the choice is made among the
/// others.
pub open spec fn elected(cs: Seq<ClientHandle>) -> (Seq<ClientHandle>, Seq<ActionView>)
    decreases cs.len(),
{
    match last_eligible(cs) {
        None => (crowned(cs, -1), Seq::empty()),
        Some(i) => if cs[i].is_controller {
            (crowned(cs, i), Seq::empty())
        } else if fits(cs[i], resize_request()) {
            (
                crowned(cs, i).update(i, charged(crowned(cs, i)[i], resize_request())),
                seq![ActionView::Send { id: cs[i].id, packet: resize_request() }],
            )
        } else {
            proof {
                lemma_last_eligible(cs);
            }
            (
                elected(cs.remove(i)).0,
                seq![ActionView::Close { id: cs[i].id }] + elected(cs.remove(i)).1,
            )
        },
    }
}

/// Make the client at index `k` the only controller; none where `k` is out of range.
fn crown(clients: &mut Vec<ClientHandle>, k: usize)
    ensures
        final(clients)@ == crowned(
            old(clients)@,
            if k < old(clients)@.len() {
                k as int
            } else {
                -1
            },
        ),
{
    let ghost before = clients@;
    let mut j: usize = 0;
    while j < clients.len()
        invariant
            j <= clients@.len(),
            clients@.len() == before.len(),
            forall|m: int|
                0 <= m < j ==> #[trigger] clients@[m] == (ClientHandle {
                    is_controller: m == k,
                    ..before[m]
                }),
            forall|m: int| j <= m < before.len() ==> #[trigger] clients@[m] == before[m],
        decreases clients@.len() - j,
    {
        let c: ClientHandle = clients[j];
        clients.set(j, ClientHandle { is_controller: j == k, ..c });
        j = j + 1;
    }
    assert(clients@ =~= crowned(before, if k < before.len() { k as int } else { -1 }));
}

/// Choose the controller anew: the last client that is neither read-only nor of low priority.
fn elect_controller(clients: &mut Vec<ClientHandle>, actions: &mut Vec<Action>)
    ensures
        final(clients)@ == elected(old(clients)@).0,
        action_views(final(actions)@) == action_views(old(actions)@) + elected(old(clients)@).1,
    decreases old(clients)@.len(),
{
    let ghost before = clients@;
    let ghost acts = actions@;
    let n: usize = clients.len();
    let mut i: usize = n;
    while i > 0 && (clients[i - 1].flags.readonly || clients[i - 1].flags.low_priority)
        invariant
            i <= n,
            n == clients@.len(),
            clients@ == before,
            forall|j: int| i <= j < before.len() ==> !eligible(#[trigger] before[j]),
        decreases i,
    {
        i = i - 1;
    }
    proof {
        lemma_last_eligible(before);
    }
    if i == 0 {
        crown(clients, n);
        assert(action_views(actions@) =~= action_views(acts) + Seq::<ActionView>::empty());
        return;
    }
    let k: usize = i - 1;
    proof {
        lemma_last_eligible_unique(before, k as int);
    }
    let c: ClientHandle = clients[k];
    if c.is_controller {
        crown(clients, k);
        assert(action_views(actions@) =~= action_views(acts) + Seq::<ActionView>::empty());
    } else if c.queued <= OUTBOUND_LIMIT - HEADER_SIZE {
        crown(clients, k);
        let d: ClientHandle = clients[k];
        clients.set(k, ClientHandle { queued: d.queued + HEADER_SIZE, ..d });
        actions.push(Action::Send { id: c.id, packet: Packet::empty(MsgType::ResizeReq) });
        proof {
            lemma_action_views_push(acts, actions@.last());
            assert(actions@ =~= acts.push(actions@.last()));
        }
        assert(action_views(actions@) =~= action_views(acts) + elected(before).1);
    } else {
        clients.remove(k);
        actions.push(Action::Close { id: c.id });
        proof {
            lemma_action_views_push(acts, actions@.last());
            assert(actions@ =~= acts.push(actions@.last()));
        }
        elect_controller(clients, actions);
        assert(action_views(actions@) =~= action_views(acts) + elected(before).1);
    }
}

// ---------------------------------------------------------------------------
// The session
// ---------------------------------------------------------------------------

/// A session as its server keeps it.
#[derive(Debug)]
pub struct Session {
    ring: RingBuffer,
    clients: Vec<ClientHandle>,
    next_id: u64,
    child_pid: u32,
    /// The status that the child exited with; `None` while it runs.
    exit_status: Option<u32>,
    /// Whether a client has been told the exit status.
    exit_notified: bool,
    /// Whether the child's terminal has been read to its end.
    pty_eof: bool,
}

/// What a [`Session`] is.
pub struct SessionView {
    /// The recorded output, oldest byte first.
    pub ring: Seq<u8>,
    /// How many bytes of output are kept.
    pub cap: nat,
    /// The attached clients in the order in which they attached.
    pub clients: Seq<ClientHandle>,
    pub next_id: u64,
    pub child_pid: u32,
    pub exit_status: Option<u32>,
    pub exit_notified: bool,
    pub pty_eof: bool,
}

/// The clients stand in the order in which they attached, and no two share an id.
pub open spec fn ordered(cs: Seq<ClientHandle>) -> bool {
    forall|i: int, j: int| 0 <= i < j < cs.len() ==> (#[trigger] cs[i]).id < (#[trigger] cs[j]).id
}

/// No queue is over the limit.
pub open spec fn bounded(cs: Seq<ClientHandle>) -> bool {
    forall|i: int| 0 <= i < cs.len() ==> (#[trigger] cs[i]).queued <= OUTBOUND_LIMIT
}

/// Every id has been handed out before `next`.
pub open spec fn below(cs: Seq<ClientHandle>, next: u64) -> bool {
    forall|i: int| 0 <= i < cs.len() ==> (#[trigger] cs[i]).id < next
}

/// The controller is the eligible client that attached last; nobody else is one.
pub open spec fn controlled(cs: Seq<ClientHandle>) -> bool {
    forall|i: int|
        0 <= i < cs.len() ==> ((#[trigger] cs[i]).is_controller <==> last_eligible(cs) == Some(i))
}

impl SessionView {
    /// What holds of a session at all times.
    pub open spec fn wf(self) -> bool {
        &&& 0 < self.cap <= usize::MAX
        &&& self.ring.len() <= self.cap
        &&& ordered(self.clients)
        &&& bounded(self.clients)
        &&& below(self.clients, self.next_id)
        &&& controlled(self.clients)
        &&& self.exit_notified ==> self.exit_status is Some
    }

    /// Whether the server has nothing left to do: the child is gone, so is every client, and at
    /// least one client was told.
    pub open spec fn finished(self) -> bool {
        self.exit_status is Some && self.clients.len() == 0 && self.exit_notified
    }
}

/// The index of the client with this id.
pub open spec fn position(cs: Seq<ClientHandle>, id: u64) -> Option<int>
    decreases cs.len(),
{
    if cs.len() == 0 {
        None
    } else if cs.last().id == id {
        Some(cs.len() - 1)
    } else {
        position(cs.drop_last(), id)
    }
}

/// What [`position`] finds.
pub proof fn lemma_position(cs: Seq<ClientHandle>, id: u64)
    ensures
        match position(cs, id) {
            Some(i) => 0 <= i < cs.len() && cs[i].id == id && forall|j: int|
                i < j < cs.len() ==> (#[trigger] cs[j]).id != id,
            None => forall|j: int| 0 <= j < cs.len() ==> (#[trigger] cs[j]).id != id,
        },
    decreases cs.len(),
{
    if cs.len() > 0 && cs.last().id != id {
        let init = cs.drop_last();
        lemma_position(init, id);
        assert forall|j: int| 0 <= j < init.len() implies init[j] == #[trigger] cs[j] by {}
    }
}

/// The index of the client with this id.
fn find(clients: &Vec<ClientHandle>, id: u64) -> (r: Option<usize>)
    ensures
        match position(clients@, id) {
            Some(i) => r matches Some(k) && k == i && 0 <= i < clients@.len(),
            None => r is None,
        },
{
    proof {
        lemma_position(clients@, id);
    }
    let mut i: usize = clients.len();
    while i > 0
        invariant
            i <= clients@.len(),
            forall|j: int| i <= j < clients@.len() ==> (#[trigger] clients@[j]).id != id,
            match position(clients@, id) {
                Some(i) => 0 <= i < clients@.len() && clients@[i].id == id && forall|j: int|
                    i < j < clients@.len() ==> (#[trigger] clients@[j]).id != id,
                None => forall|j: int|
                    0 <= j < clients@.len() ==> (#[trigger] clients@[j]).id != id,
            },
        decreases i,
    {
        i = i - 1;
        if clients[i].id == id {
            return Some(i);
        }
    }
    None
}

/// The packet that carries the child's exit status.
pub open spec fn exit_packet(status: u32) -> PacketView {
    PacketView {
        msg_type: MsgType::Exit,
        payload: crate::protocol::u32_le(status),
    }
}

/// Whether some live client has room for the packet.
pub open spec fn reaches_live(cs: Seq<ClientHandle>, p: PacketView) -> bool {
    exists|i: int|
        0 <= i < cs.len() && (#[trigger] cs[i]).state == ClientState::Live && fits(cs[i], p)
}

/// Output of the child: it is recorded and goes to every client, also to one that is still being
/// brought up to date.
pub open spec fn on_output(s: SessionView, data: Seq<u8>) -> (SessionView, Seq<ActionView>) {
    let ps = crate::protocol::packets_with(MsgType::Content, crate::protocol::chunked(data));
    let (clients, elections) = elected(clients_after_all(s.clients, ps));
    (
        SessionView { ring: crate::ring::last_n(s.ring + data, s.cap), clients, ..s },
        delivery_all(s.clients, ps) + elections,
    )
}

/// The child exited: every live client is told. A client that is still being brought up to date
/// is told when it becomes live.
pub open spec fn on_child_exit(s: SessionView, status: u32) -> (SessionView, Seq<ActionView>) {
    if s.exit_status is Some {
        (s, Seq::empty())
    } else {
        let p = exit_packet(status);
        let (clients, elections) = elected(clients_after(s.clients, p, true));
        (
            SessionView {
                clients,
                exit_status: Some(status),
                exit_notified: s.exit_notified || reaches_live(s.clients, p),
                ..s
            },
            delivery(s.clients, p, true) + elections,
        )
    }
}

/// A client as it is when it attaches.
pub open spec fn newcomer(id: u64, flags: ClientFlags) -> ClientHandle {
    ClientHandle { id, flags, state: ClientState::Replaying, is_controller: false, queued: 0 }
}

/// A client attaches.
pub open spec fn on_register(s: SessionView, flags: ClientFlags) -> (
    SessionView,
    Seq<ActionView>,
) {
    let (clients, elections) = elected(s.clients.push(newcomer(s.next_id, flags)));
    (SessionView { clients, next_id: (s.next_id + 1) as u64, ..s }, elections)
}

/// A client has been brought up to date. Where the child has exited already, the client is told
/// and its connection ends once it has read that.
pub open spec fn on_live(s: SessionView, id: u64) -> (SessionView, Seq<ActionView>) {
    match position(s.clients, id) {
        None => (s, Seq::empty()),
        Some(i) => {
            let c = ClientHandle { state: ClientState::Live, ..s.clients[i] };
            match s.exit_status {
                None => (SessionView { clients: s.clients.update(i, c), ..s }, Seq::empty()),
                Some(status) => {
                    let p = exit_packet(status);
                    if fits(c, p) {
                        (
                            SessionView {
                                clients: s.clients.update(i, charged(c, p)),
                                exit_notified: true,
                                ..s
                            },
                            seq![ActionView::Send { id, packet: p }, ActionView::Finish { id }],
                        )
                    } else {
                        let (clients, elections) = elected(s.clients.remove(i));
                        (
                            SessionView { clients, ..s },
                            seq![ActionView::Close { id }] + elections,
                        )
                    }
                },
            }
        },
    }
}

/// A packet of a client. Input counts from live clients that are not read-only, a size from the
/// controller once it is live; anything else that is not a detach is ignored.
pub open spec fn on_packet(s: SessionView, id: u64, p: PacketView) -> (
    SessionView,
    Seq<ActionView>,
) {
    match position(s.clients, id) {
        None => (s, Seq::empty()),
        Some(i) => {
            let c = s.clients[i];
            match p.msg_type {
                MsgType::Content => if c.state == ClientState::Live && !c.flags.readonly {
                    (s, seq![ActionView::Input { data: p.payload }])
                } else {
                    (s, Seq::empty())
                },
                MsgType::Resize => match crate::protocol::resize_of(p) {
                    Some((rows, cols)) => if c.state == ClientState::Live && c.is_controller {
                        (s, seq![ActionView::SetSize { rows, cols }])
                    } else {
                        (s, Seq::empty())
                    },
                    None => (s, Seq::empty()),
                },
                MsgType::Detach => on_input_ended(s, id),
                _ => (s, Seq::empty()),
            }
        },
    }
}

/// Nothing more comes from a client: it closed its side, or sent what cannot be read. That counts
/// as a detach: the client leaves, and what is queued for it is still written.
pub open spec fn on_input_ended(s: SessionView, id: u64) -> (SessionView, Seq<ActionView>) {
    match position(s.clients, id) {
        None => (s, Seq::empty()),
        Some(i) => {
            let (clients, elections) = elected(s.clients.remove(i));
            (SessionView { clients, ..s }, seq![ActionView::Finish { id }] + elections)
        },
    }
}

/// A client cannot be written to any more, or everything has been.
pub open spec fn on_gone(s: SessionView, id: u64) -> (SessionView, Seq<ActionView>) {
    match position(s.clients, id) {
        None => (s, Seq::empty()),
        Some(i) => {
            let (clients, elections) = elected(s.clients.remove(i));
            (SessionView { clients, ..s }, seq![ActionView::Close { id }] + elections)
        },
    }
}

/// Bytes of a client's queue have been written.
pub open spec fn on_written(s: SessionView, id: u64, n: usize) -> SessionView {
    match position(s.clients, id) {
        None => s,
        Some(i) => {
            let c = s.clients[i];
            let queued = if n <= c.queued {
                (c.queued - n) as usize
            } else {
                0
            };
            SessionView { clients: s.clients.update(i, ClientHandle { queued, ..c }), ..s }
        },
    }
}

/// What a session tells about itself.
pub open spec fn welcome_of_session(s: SessionView, server_pid: u32) -> Welcome {
    Welcome {
        version: PROTOCOL_VERSION,
        server_pid,
        child_pid: s.child_pid,
        child_running: s.exit_status is None,
        exit_status: match s.exit_status {
            Some(status) => status as u8,
            None => 0,
        },
        client_count: if s.clients.len() <= 0xffff {
            s.clients.len() as u16
        } else {
            0xffff
        },
        ring_size: s.cap as u32,
        ring_used: s.ring.len() as u32,
    }
}

// ---------------------------------------------------------------------------
// What every step keeps
// ---------------------------------------------------------------------------

/// Sending a packet keeps the order of the clients and the limit on their queues.
pub proof fn lemma_clients_after_keeps(
    cs: Seq<ClientHandle>,
    p: PacketView,
    live_only: bool,
    next: u64,
)
    requires
        ordered(cs),
        bounded(cs),
        below(cs, next),
    ensures
        ordered(clients_after(cs, p, live_only)),
        bounded(clients_after(cs, p, live_only)),
        below(clients_after(cs, p, live_only), next),
    decreases cs.len(),
{
    if cs.len() > 0 {
        let init = cs.drop_last();
        let c = cs.last();
        assert(cs =~= init.push(c));
        lemma_clients_after_keeps(init, p, live_only, c.id);
        lemma_clients_after_push(init, c, p, live_only);
    }
}

pub proof fn lemma_clients_after_all_keeps(
    cs: Seq<ClientHandle>,
    ps: Seq<PacketView>,
    next: u64,
)
    requires
        ordered(cs),
        bounded(cs),
        below(cs, next),
    ensures
        ordered(clients_after_all(cs, ps)),
        bounded(clients_after_all(cs, ps)),
        below(clients_after_all(cs, ps), next),
    decreases ps.len(),
{
    if ps.len() > 0 {
        lemma_clients_after_all_keeps(cs, ps.drop_last(), next);
        lemma_clients_after_keeps(
            clients_after_all(cs, ps.drop_last()),
            ps.last(),
            false,
            next,
        );
    }
}

/// Who is eligible does not depend on who is crowned or on what is queued.
pub proof fn lemma_last_eligible_flags(cs: Seq<ClientHandle>, ds: Seq<ClientHandle>)
    requires
        cs.len() == ds.len(),
        forall|j: int| 0 <= j < cs.len() ==> (#[trigger] cs[j]).flags == (#[trigger] ds[j]).flags,
    ensures
        last_eligible(cs) == last_eligible(ds),
    decreases cs.len(),
{
    if cs.len() > 0 {
        assert(cs.last() == cs[cs.len() - 1] && ds.last() == ds[cs.len() - 1]);
        let c = cs.drop_last();
        let d = ds.drop_last();
        assert forall|j: int| 0 <= j < c.len() implies (#[trigger] c[j]).flags == (#[trigger] d[
            j]).flags by {
            assert(c[j] == cs[j] && d[j] == ds[j]);
        }
        lemma_last_eligible_flags(c, d);
    }
}

/// Choosing the controller leaves it with the right client, and keeps the order of the clients
/// and the limit on their queues.
pub proof fn lemma_elected_keeps(cs: Seq<ClientHandle>, next: u64)
    requires
        ordered(cs),
        bounded(cs),
        below(cs, next),
    ensures
        ordered(elected(cs).0),
        bounded(elected(cs).0),
        below(elected(cs).0, next),
        controlled(elected(cs).0),
    decreases cs.len(),
{
    lemma_last_eligible(cs);
    match last_eligible(cs) {
        None => {
            lemma_last_eligible_flags(cs, elected(cs).0);
        },
        Some(i) => {
            if cs[i].is_controller || fits(cs[i], resize_request()) {
                lemma_last_eligible_flags(cs, elected(cs).0);
            } else {
                lemma_elected_keeps(cs.remove(i), next);
            }
        },
    }
}

impl View for Session {
    type V = SessionView;

    closed spec fn view(&self) -> SessionView {
        SessionView {
            ring: self.ring@,
            cap: self.ring.cap(),
            clients: self.clients@,
            next_id: self.next_id,
            child_pid: self.child_pid,
            exit_status: self.exit_status,
            exit_notified: self.exit_notified,
            pty_eof: self.pty_eof,
        }
    }
}

impl Session {
    /// What holds of a session at all times.
    pub closed spec fn wf(&self) -> bool {
        &&& self.ring.wf()
        &&& self@.wf()
    }

    /// A well-formed session is well-formed as seen from outside.
    pub proof fn lemma_wf(&self)
        requires
            self.wf(),
        ensures
            self@.wf(),
    {
    }

    /// A session whose child has just been started, that keeps `ring_size` bytes of output.
    pub fn new(ring_size: usize, child_pid: u32) -> (s: Session)
        requires
            ring_size > 0,
        ensures
            s.wf(),
            s@ == (SessionView {
                ring: Seq::empty(),
                cap: ring_size as nat,
                clients: Seq::empty(),
                next_id: 1,
                child_pid,
                exit_status: None,
                exit_notified: false,
                pty_eof: false,
            }),
    {
        let ring = RingBuffer::new(ring_size);
        proof {
            ring.lemma_bounds();
        }
        Session {
            ring,
            clients: Vec::new(),
            next_id: 1,
            child_pid,
            exit_status: None,
            exit_notified: false,
            pty_eof: false,
        }
    }

    /// The child wrote `data`.
    pub fn output(&mut self, data: &[u8]) -> (actions: Vec<Action>)
        requires
            old(self).wf(),
        ensures
            final(self).wf(),
            final(self)@ == on_output(old(self)@, data@).0,
            action_views(actions@) == on_output(old(self)@, data@).1,
    {
        let ghost before = self@;
        let ghost payloads = crate::protocol::chunked(data@);
        let ghost ps = crate::protocol::packets_with(MsgType::Content, payloads);
        self.ring.write(data);
        proof {
            self.ring.lemma_bounds();
            crate::protocol::law_chunks_cover_data(data@);
        }
        let packets: Vec<Packet> = chunk_packets(MsgType::Content, data);
        let mut actions: Vec<Action> = Vec::new();
        let mut i: usize = 0;
        let ghost ring = self.ring;
        assert(action_views(actions@) =~= delivery_all(before.clients, ps.take(0)));
        while i < packets.len()
            invariant
                i <= packets@.len(),
                crate::protocol::packet_views(packets@) == ps,
                ps == crate::protocol::packets_with(MsgType::Content, payloads),
                forall|j: int|
                    0 <= j < payloads.len() ==> 0 < (#[trigger] payloads[j]).len() <= MAX_PAYLOAD,
                self.clients@ == clients_after_all(before.clients, ps.take(i as int)),
                action_views(actions@) == delivery_all(before.clients, ps.take(i as int)),
                self.ring == ring,
                self@ == (SessionView { ring: ring@, clients: self.clients@, ..before }),
            decreases packets@.len() - i,
        {
            proof {
                assert(ps[i as int] == packets@[i as int]@);
                assert(ps[i as int].payload == payloads[i as int]);
                assert(ps.take(i + 1).drop_last() =~= ps.take(i as int));
                assert(ps.take(i + 1).last() == ps[i as int]);
            }
            deliver(&mut self.clients, &packets[i], false, &mut actions);
            i = i + 1;
        }
        assert(ps.take(i as int) =~= ps);
        proof {
            lemma_clients_after_all_keeps(before.clients, ps, before.next_id);
            lemma_elected_keeps(self.clients@, before.next_id);
        }
        elect_controller(&mut self.clients, &mut actions);
        actions
    }

    /// The child's terminal has been read to its end.
    pub fn pty_closed(&mut self)
        requires
            old(self).wf(),
        ensures
            final(self).wf(),
            final(self)@ == (SessionView { pty_eof: true, ..old(self)@ }),
    {
        self.pty_eof = true;
    }

    /// The child exited with `status`.
    pub fn child_exited(&mut self, status: u32) -> (actions: Vec<Action>)
        requires
            old(self).wf(),
        ensures
            final(self).wf(),
            final(self)@ == on_child_exit(old(self)@, status).0,
            action_views(actions@) == on_child_exit(old(self)@, status).1,
    {
        let ghost before = self@;
        let mut actions: Vec<Action> = Vec::new();
        if self.exit_status.is_some() {
            assert(action_views(actions@) =~= Seq::<ActionView>::empty());
            return actions;
        }
        let packet = Packet::exit(status);
        let ghost p = packet@;
        let size: usize = HEADER_SIZE + packet.payload.len();
        let mut reached: bool = false;
        let mut i: usize = 0;
        while i < self.clients.len()
            invariant
                i <= self.clients@.len(),
                p == exit_packet(status),
                size == cost(p),
                size == 7,
                reached <==> exists|j: int|
                    0 <= j < i && (#[trigger] self.clients@[j]).state == ClientState::Live && fits(
                        self.clients@[j],
                        p,
                    ),
            decreases self.clients@.len() - i,
        {
            if self.clients[i].state == ClientState::Live && self.clients[i].queued
                <= OUTBOUND_LIMIT - size {
                reached = true;
                assert(self.clients@[i as int].state == ClientState::Live);
            }
            i = i + 1;
        }
        deliver(&mut self.clients, &packet, true, &mut actions);
        proof {
            lemma_clients_after_keeps(before.clients, p, true, before.next_id);
            lemma_elected_keeps(self.clients@, before.next_id);
        }
        elect_controller(&mut self.clients, &mut actions);
        self.exit_status = Some(status);
        if reached {
            self.exit_notified = true;
        }
        actions
    }

    /// Whether another client can be given an id.
    pub fn accepts_clients(&self) -> (b: bool)
        requires
            self.wf(),
        ensures
            b == (self@.next_id < u64::MAX),
    {
        self.next_id < u64::MAX
    }

    /// A client attaches: its id, the recorded output to bring it up to date with, and what else
    /// is to be done.
    pub fn register(&mut self, flags: ClientFlags) -> (r: (u64, Vec<u8>, Vec<Action>))
        requires
            old(self).wf(),
            old(self)@.next_id < u64::MAX,
        ensures
            final(self).wf(),
            final(self)@ == on_register(old(self)@, flags).0,
            r.0 == old(self)@.next_id,
            r.1@ == old(self)@.ring,
            action_views(r.2@) == on_register(old(self)@, flags).1,
    {
        let ghost before = self@;
        let id: u64 = self.next_id;
        self.next_id = id + 1;
        let snapshot: Vec<u8> = self.ring.snapshot();
        self.clients.push(
            ClientHandle {
                id,
                flags,
                state: ClientState::Replaying,
                is_controller: false,
                queued: 0,
            },
        );
        let mut actions: Vec<Action> = Vec::new();
        proof {
            lemma_elected_keeps(self.clients@, self.next_id);
        }
        elect_controller(&mut self.clients, &mut actions);
        assert(action_views(actions@) =~= on_register(before, flags).1);
        (id, snapshot, actions)
    }

    /// The client with this id has been brought up to date.
    pub fn client_live(&mut self, id: u64) -> (actions: Vec<Action>)
        requires
            old(self).wf(),
        ensures
            final(self).wf(),
            final(self)@ == on_live(old(self)@, id).0,
            action_views(actions@) == on_live(old(self)@, id).1,
    {
        let ghost before = self@;
        let mut actions: Vec<Action> = Vec::new();
        proof {
            lemma_position(before.clients, id);
        }
        let i: usize = match find(&self.clients, id) {
            None => {
                assert(action_views(actions@) =~= Seq::<ActionView>::empty());
                return actions;
            },
            Some(i) => i,
        };
        let c: ClientHandle = self.clients[i];
        match self.exit_status {
            None => {
                self.clients.set(i, ClientHandle { state: ClientState::Live, ..c });
                proof {
                    lemma_last_eligible_flags(before.clients, self.clients@);
                }
                assert(action_views(actions@) =~= Seq::<ActionView>::empty());
            },
            Some(status) => {
                let packet = Packet::exit(status);
                let size: usize = HEADER_SIZE + packet.payload.len();
                if c.queued <= OUTBOUND_LIMIT - size {
                    self.clients.set(
                        i,
                        ClientHandle { state: ClientState::Live, queued: c.queued + size, ..c },
                    );
                    self.exit_notified = true;
                    proof {
                        lemma_last_eligible_flags(before.clients, self.clients@);
                    }
                    actions.push(Action::Send { id, packet });
                    actions.push(Action::Finish { id });
                    assert(action_views(actions@) =~= on_live(before, id).1);
                } else {
                    self.clients.remove(i);
                    actions.push(Action::Close { id });
                    assert(action_views(actions@) =~= seq![ActionView::Close { id }]);
                    proof {
                        lemma_elected_keeps(self.clients@, before.next_id);
                    }
                    elect_controller(&mut self.clients, &mut actions);
                }
            },
        }
        actions
    }

    /// The client with this id sent a packet.
    pub fn client_packet(&mut self, id: u64, packet: &Packet) -> (actions: Vec<Action>)
        requires
            old(self).wf(),
        ensures
            final(self).wf(),
            final(self)@ == on_packet(old(self)@, id, packet@).0,
            action_views(actions@) == on_packet(old(self)@, id, packet@).1,
    {
        let ghost before = self@;
        let mut actions: Vec<Action> = Vec::new();
        assert(action_views(actions@) =~= Seq::<ActionView>::empty());
        let i: usize = match find(&self.clients, id) {
            None => {
                return actions;
            },
            Some(i) => i,
        };
        let c: ClientHandle = self.clients[i];
        match packet.msg_type {
            MsgType::Content => {
                if c.state == ClientState::Live && !c.flags.readonly {
                    actions.push(Action::Input { data: bytes_to_vec(&packet.payload) });
                    assert(action_views(actions@) =~= on_packet(before, id, packet@).1);
                }
            },
            MsgType::Resize => {
                if let Some((rows, cols)) = packet.parse_resize() {
                    if c.state == ClientState::Live && c.is_controller {
                        actions.push(Action::SetSize { rows, cols });
                        assert(action_views(actions@) =~= on_packet(before, id, packet@).1);
                    }
                }
            },
            MsgType::Detach => {
                return self.input_ended(id);
            },
            _ => {},
        }
        actions
    }

    /// Nothing more comes from the client with this id.
    pub fn input_ended(&mut self, id: u64) -> (actions: Vec<Action>)
        requires
            old(self).wf(),
        ensures
            final(self).wf(),
            final(self)@ == on_input_ended(old(self)@, id).0,
            action_views(actions@) == on_input_ended(old(self)@, id).1,
    {
        let ghost before = self@;
        let mut actions: Vec<Action> = Vec::new();
        if let Some(i) = find(&self.clients, id) {
            self.clients.remove(i);
            actions.push(Action::Finish { id });
            assert(action_views(actions@) =~= seq![ActionView::Finish { id }]);
            proof {
                lemma_elected_keeps(self.clients@, before.next_id);
            }
            elect_controller(&mut self.clients, &mut actions);
        } else {
            assert(action_views(actions@) =~= Seq::<ActionView>::empty());
        }
        actions
    }

    /// The client with this id cannot be written to any more, or everything has been.
    pub fn client_gone(&mut self, id: u64) -> (actions: Vec<Action>)
        requires
            old(self).wf(),
        ensures
            final(self).wf(),
            final(self)@ == on_gone(old(self)@, id).0,
            action_views(actions@) == on_gone(old(self)@, id).1,
    {
        let ghost before = self@;
        let mut actions: Vec<Action> = Vec::new();
        if let Some(i) = find(&self.clients, id) {
            self.clients.remove(i);
            actions.push(Action::Close { id });
            assert(action_views(actions@) =~= seq![ActionView::Close { id }]);
            proof {
                lemma_elected_keeps(self.clients@, before.next_id);
            }
            elect_controller(&mut self.clients, &mut actions);
        } else {
            assert(action_views(actions@) =~= Seq::<ActionView>::empty());
        }
        actions
    }

    /// `n` bytes of the queue of the client with this id have been written.
    pub fn written(&mut self, id: u64, n: usize)
        requires
            old(self).wf(),
        ensures
            final(self).wf(),
            final(self)@ == on_written(old(self)@, id, n),
    {
        let ghost before = self@;
        proof {
            lemma_position(before.clients, id);
        }
        if let Some(i) = find(&self.clients, id) {
            let c: ClientHandle = self.clients[i];
            let queued: usize = if n <= c.queued {
                c.queued - n
            } else {
                0
            };
            self.clients.set(i, ClientHandle { queued, ..c });
            proof {
                lemma_last_eligible_flags(before.clients, self.clients@);
            }
        }
    }

    /// What the session tells about itself.
    pub fn welcome(&self, server_pid: u32) -> (w: Welcome)
        requires
            self.wf(),
        ensures
            w == welcome_of_session(self@, server_pid),
    {
        let n: usize = self.clients.len();
        Welcome {
            version: PROTOCOL_VERSION,
            server_pid,
            child_pid: self.child_pid,
            child_running: self.exit_status.is_none(),
            exit_status: match self.exit_status {
                Some(status) => status as u8,
                None => 0,
            },
            client_count: if n <= 0xffff {
                n as u16
            } else {
                0xffff
            },
            ring_size: self.ring.capacity() as u32,
            ring_used: self.ring.len() as u32,
        }
    }

    /// Whether the child still runs.
    pub fn child_running(&self) -> (b: bool)
        requires
            self.wf(),
        ensures
            b == self@.exit_status is None,
    {
        self.exit_status.is_none()
    }

    /// Whether the child's terminal is still to be read.
    pub fn reads_output(&self) -> (b: bool)
        requires
            self.wf(),
        ensures
            b == !self@.pty_eof,
    {
        !self.pty_eof
    }

    /// Whether the server has nothing left to do.
    pub fn finished(&self) -> (b: bool)
        requires
            self.wf(),
        ensures
            b == self@.finished(),
    {
        self.exit_status.is_some() && self.clients.len() == 0 && self.exit_notified
    }
}

} // verus!
