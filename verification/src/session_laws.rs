//! What holds of a session over any course of events.

use crate::protocol::{ClientFlags, MsgType, PacketView};
use crate::session::{ActionView, ClientHandle, ClientState, SessionView};
use vstd::prelude::*;

verus! {

/// Something that a session is told.
pub enum Event {
    Output { data: Seq<u8> },
    PtyClosed,
    ChildExit { status: u32 },
    Register { flags: ClientFlags },
    Live { id: u64 },
    Packet { id: u64, packet: PacketView },
    InputEnded { id: u64 },
    Gone { id: u64 },
    Written { id: u64, n: usize },
}

/// What one event makes of a session, and the actions that it calls for.
pub open spec fn step(s: SessionView, e: Event) -> (
    SessionView,
    Seq<ActionView>,
) {
    match e {
        Event::Output { data } => crate::session::on_output(s, data),
        Event::PtyClosed => (
            SessionView { pty_eof: true, ..s },
            Seq::empty(),
        ),
        Event::ChildExit { status } => crate::session::on_child_exit(s, status),
        Event::Register { flags } => crate::session::on_register(s, flags),
        Event::Live { id } => crate::session::on_live(s, id),
        Event::Packet { id, packet } => crate::session::on_packet(s, id, packet),
        Event::InputEnded { id } => crate::session::on_input_ended(s, id),
        Event::Gone { id } => crate::session::on_gone(s, id),
        Event::Written { id, n } => (crate::session::on_written(s, id, n), Seq::empty()),
    }
}

/// Whether the session can be told the event: ids must not run out.
pub open spec fn possible(s: SessionView, e: Event) -> bool {
    e is Register ==> s.next_id < u64::MAX
}

/// Whether the session can be told the events one after another.
pub open spec fn possible_all(s: SessionView, es: Seq<Event>) -> bool
    decreases es.len(),
{
    es.len() > 0 ==> possible(s, es[0]) && possible_all(step(s, es[0]).0, es.drop_first())
}

/// The session after the events.
pub open spec fn run(s: SessionView, es: Seq<Event>) -> SessionView
    decreases es.len(),
{
    if es.len() == 0 {
        s
    } else {
        run(step(s, es[0]).0, es.drop_first())
    }
}

/// The actions that the events call for, in order.
pub open spec fn run_actions(s: SessionView, es: Seq<Event>) -> Seq<
    ActionView,
>
    decreases es.len(),
{
    if es.len() == 0 {
        Seq::empty()
    } else {
        step(s, es[0]).1 + run_actions(step(s, es[0]).0, es.drop_first())
    }
}

/// What the child wrote in an event.
pub open spec fn output_of(e: Event) -> Seq<u8> {
    match e {
        Event::Output { data } => data,
        _ => Seq::empty(),
    }
}

/// What the child wrote in the course of the events.
pub open spec fn outputs(es: Seq<Event>) -> Seq<u8>
    decreases es.len(),
{
    if es.len() == 0 {
        Seq::empty()
    } else {
        output_of(es[0]) + outputs(es.drop_first())
    }
}

/// Whether a client with this id is attached.
pub open spec fn attached(cs: Seq<ClientHandle>, id: u64) -> bool {
    crate::session::position(cs, id) is Some
}

/// What an action makes the client with this id show on its terminal.
pub open spec fn shown(a: ActionView, id: u64) -> Seq<u8> {
    match a {
        ActionView::Send { id: to, packet } => if to == id {
            crate::client::display(packet)
        } else {
            Seq::empty()
        },
        _ => Seq::empty(),
    }
}

/// What the actions make the client with this id show on its terminal, put together.
pub open spec fn received(actions: Seq<ActionView>, id: u64) -> Seq<u8>
    decreases actions.len(),
{
    if actions.len() == 0 {
        Seq::empty()
    } else {
        received(actions.drop_last(), id) + shown(actions.last(), id)
    }
}

proof fn lemma_received_push(
    actions: Seq<ActionView>,
    a: ActionView,
    id: u64,
)
    ensures
        received(actions.push(a), id) == received(actions, id) + shown(a, id),
{
    assert(actions.push(a).drop_last() =~= actions);
}

proof fn lemma_received_append(
    a: Seq<ActionView>,
    b: Seq<ActionView>,
    id: u64,
)
    ensures
        received(a + b, id) == received(a, id) + received(b, id),
    decreases b.len(),
{
    if b.len() == 0 {
        assert(a + b =~= a);
        assert(received(a, id) + received(b, id) =~= received(a, id));
    } else {
        lemma_received_append(a, b.drop_last(), id);
        assert((a + b).drop_last() =~= a + b.drop_last());
        assert(received(a + b, id) =~= received(a, id) + received(b, id));
    }
}

proof fn lemma_received_one(a: ActionView, id: u64)
    ensures
        received(seq![a], id) == shown(a, id),
{
    reveal_with_fuel(received, 2);
    assert(seq![a].drop_last() =~= Seq::empty());
    assert(received(seq![a], id) =~= shown(a, id));
}

proof fn lemma_attached_push(cs: Seq<ClientHandle>, c: ClientHandle, id: u64)
    ensures
        attached(cs.push(c), id) == (c.id == id || attached(cs, id)),
{
    assert(cs.push(c).drop_last() =~= cs);
}

/// One packet of output: whoever is attached afterwards was attached before and has been sent
/// exactly this packet.
proof fn lemma_delivery_reaches(
    cs: Seq<ClientHandle>,
    p: PacketView,
    live_only: bool,
    id: u64,
)
    requires
        crate::session::ordered(cs),
    ensures
        ({
            let after = crate::session::clients_after(cs, p, live_only);
            let acts = crate::session::delivery(cs, p, live_only);
            &&& attached(after, id) ==> attached(cs, id)
            &&& !attached(cs, id) ==> received(acts, id) == Seq::<u8>::empty()
            &&& p.msg_type == MsgType::Content && !live_only && attached(after, id) ==> received(
                acts,
                id,
            ) == p.payload
            &&& crate::client::display(p) == Seq::<u8>::empty() ==> received(acts, id)
                == Seq::<u8>::empty()
        }),
    decreases cs.len(),
{
    if cs.len() == 0 {
        assert(crate::session::clients_after(cs, p, live_only) =~= Seq::empty());
        assert(crate::session::delivery(cs, p, live_only) =~= Seq::empty());
    } else {
        let init = cs.drop_last();
        let c = cs.last();
        assert(cs =~= init.push(c));
        lemma_delivery_reaches(init, p, live_only, id);
        crate::session::lemma_clients_after_push(init, c, p, live_only);
        lemma_attached_push(init, c, id);
        let after = crate::session::clients_after(init, p, live_only);
        let acts = crate::session::delivery(init, p, live_only);
        if c.id == id {
            crate::session::lemma_position(init, id);
            assert(!attached(init, id));
        }
        lemma_attached_push(after, c, id);
        lemma_attached_push(after, crate::session::charged(c, p), id);
        let send = ActionView::Send { id: c.id, packet: p };
        let close = ActionView::Close { id: c.id };
        lemma_received_push(acts, send, id);
        lemma_received_push(acts, close, id);
        assert(Seq::<u8>::empty() + p.payload =~= p.payload);
        assert(Seq::<u8>::empty() + Seq::<u8>::empty() =~= Seq::<u8>::empty());
        assert(p.payload + Seq::<u8>::empty() =~= p.payload);
    }
}

/// Several packets of output.
proof fn lemma_delivery_all_reaches(
    cs: Seq<ClientHandle>,
    payloads: Seq<Seq<u8>>,
    next: u64,
    id: u64,
)
    requires
        crate::session::ordered(cs),
        crate::session::bounded(cs),
        crate::session::below(cs, next),
    ensures
        ({
            let ps = crate::protocol::packets_with(MsgType::Content, payloads);
            let after = crate::session::clients_after_all(cs, ps);
            let acts = crate::session::delivery_all(cs, ps);
            &&& attached(after, id) ==> attached(cs, id) && received(acts, id)
                == payloads.flatten()
            &&& !attached(cs, id) ==> received(acts, id) == Seq::<u8>::empty()
        }),
    decreases payloads.len(),
{
    let ps = crate::protocol::packets_with(MsgType::Content, payloads);
    if payloads.len() == 0 {
        assert(payloads.flatten() =~= Seq::<u8>::empty());
    } else {
        let init = payloads.drop_last();
        let ps_init = crate::protocol::packets_with(MsgType::Content, init);
        assert(ps.drop_last() =~= ps_init);
        lemma_delivery_all_reaches(cs, init, next, id);
        crate::session::lemma_clients_after_all_keeps(cs, ps_init, next);
        let mid = crate::session::clients_after_all(cs, ps_init);
        lemma_delivery_reaches(mid, ps.last(), false, id);
        lemma_received_append(
            crate::session::delivery_all(cs, ps_init),
            crate::session::delivery(mid, ps.last(), false),
            id,
        );
        init.lemma_flatten_push(payloads.last());
        assert(init.push(payloads.last()) =~= payloads);
        assert(Seq::<u8>::empty() + Seq::<u8>::empty() =~= Seq::<u8>::empty());
    }
}

/// Choosing the controller attaches nobody and shows nobody output.
proof fn lemma_elected_shows_nothing(cs: Seq<ClientHandle>, id: u64)
    ensures
        attached(crate::session::elected(cs).0, id) ==> attached(cs, id),
        received(crate::session::elected(cs).1, id) == Seq::<u8>::empty(),
    decreases cs.len(),
{
    crate::session::lemma_last_eligible(cs);
    let (after, acts) = crate::session::elected(cs);
    crate::session::lemma_position(cs, id);
    crate::session::lemma_position(after, id);
    match crate::session::last_eligible(cs) {
        None => {
            lemma_same_ids(cs, after, id);
        },
        Some(i) => {
            if cs[i].is_controller {
                lemma_same_ids(cs, after, id);
            } else if crate::session::fits(cs[i], crate::session::resize_request()) {
                lemma_same_ids(cs, after, id);
                lemma_received_one(
                    ActionView::Send {
                        id: cs[i].id,
                        packet: crate::session::resize_request(),
                    },
                    id,
                );
            } else {
                lemma_elected_shows_nothing(cs.remove(i), id);
                lemma_removed(cs, i, id);
                let close = ActionView::Close { id: cs[i].id };
                lemma_received_one(close, id);
                lemma_received_append(seq![close], crate::session::elected(cs.remove(i)).1, id);
                assert(Seq::<u8>::empty() + Seq::<u8>::empty() =~= Seq::<u8>::empty());
            }
        },
    }
}

proof fn lemma_same_ids(cs: Seq<ClientHandle>, ds: Seq<ClientHandle>, id: u64)
    requires
        cs.len() == ds.len(),
        forall|j: int| 0 <= j < cs.len() ==> (#[trigger] cs[j]).id == (#[trigger] ds[j]).id,
    ensures
        attached(cs, id) == attached(ds, id),
{
    crate::session::lemma_position(cs, id);
    crate::session::lemma_position(ds, id);
    if let Some(i) = crate::session::position(cs, id) {
        assert(cs[i].id == ds[i].id);
    }
    if let Some(i) = crate::session::position(ds, id) {
        assert(cs[i].id == ds[i].id);
    }
}

proof fn lemma_removed(cs: Seq<ClientHandle>, i: int, id: u64)
    requires
        0 <= i < cs.len(),
    ensures
        attached(cs.remove(i), id) ==> attached(cs, id),
{
    crate::session::lemma_position(cs, id);
    crate::session::lemma_position(cs.remove(i), id);
    if let Some(k) = crate::session::position(cs.remove(i), id) {
        if k < i {
            assert(cs.remove(i)[k] == cs[k]);
        } else {
            assert(cs.remove(i)[k] == cs[k + 1]);
        }
    }
}

proof fn lemma_live_keeps_invariant(s: SessionView, id: u64)
    requires
        s.wf(),
    ensures
        crate::session::on_live(s, id).0.wf(),
{
    crate::session::lemma_position(s.clients, id);
    if let Some(i) = crate::session::position(s.clients, id) {
        let c = ClientHandle { state: ClientState::Live, ..s.clients[i] };
        match s.exit_status {
            None => {
                crate::session::lemma_last_eligible_flags(s.clients, s.clients.update(i, c));
            },
            Some(status) => {
                let p = crate::session::exit_packet(status);
                if crate::session::fits(c, p) {
                    crate::session::lemma_last_eligible_flags(
                        s.clients,
                        s.clients.update(i, crate::session::charged(c, p)),
                    );
                } else {
                    crate::session::lemma_elected_keeps(s.clients.remove(i), s.next_id);
                }
            },
        }
    }
}

/// Every event keeps what holds of a session at all times: clients in order of attachment with
/// ids of their own, no queue over its limit, one controller at most, and that the one it should
/// be.
pub proof fn law_step_keeps_invariant(s: SessionView, e: Event)
    requires
        s.wf(),
        possible(s, e),
    ensures
        step(s, e).0.wf(),
{
    match e {
        Event::Output { data } => {
            let ps = crate::protocol::packets_with(
                MsgType::Content,
                crate::protocol::chunked(data),
            );
            crate::session::lemma_clients_after_all_keeps(s.clients, ps, s.next_id);
            crate::session::lemma_elected_keeps(
                crate::session::clients_after_all(s.clients, ps),
                s.next_id,
            );
        },
        Event::ChildExit { status } => {
            let p = crate::session::exit_packet(status);
            crate::session::lemma_clients_after_keeps(s.clients, p, true, s.next_id);
            crate::session::lemma_elected_keeps(
                crate::session::clients_after(s.clients, p, true),
                s.next_id,
            );
        },
        Event::Register { flags } => {
            crate::session::lemma_elected_keeps(
                s.clients.push(crate::session::newcomer(s.next_id, flags)),
                (s.next_id + 1) as u64,
            );
        },
        Event::Live { id } => {
            lemma_live_keeps_invariant(s, id);
        },
        Event::Packet { id, packet } => {
            crate::session::lemma_position(s.clients, id);
            if let Some(i) = crate::session::position(s.clients, id) {
                crate::session::lemma_elected_keeps(s.clients.remove(i), s.next_id);
            }
        },
        Event::InputEnded { id } => {
            crate::session::lemma_position(s.clients, id);
            if let Some(i) = crate::session::position(s.clients, id) {
                crate::session::lemma_elected_keeps(s.clients.remove(i), s.next_id);
            }
        },
        Event::Gone { id } => {
            crate::session::lemma_position(s.clients, id);
            if let Some(i) = crate::session::position(s.clients, id) {
                crate::session::lemma_elected_keeps(s.clients.remove(i), s.next_id);
            }
        },
        Event::Written { id, n } => {
            crate::session::lemma_position(s.clients, id);
            if let Some(i) = crate::session::position(s.clients, id) {
                crate::session::lemma_last_eligible_flags(s.clients, step(s, e).0.clients);
            }
        },
        Event::PtyClosed => {},
    }
}

/// What holds of a session holds after any course of events.
pub proof fn law_run_keeps_invariant(s: SessionView, es: Seq<Event>)
    requires
        s.wf(),
        possible_all(s, es),
    ensures
        run(s, es).wf(),
    decreases es.len(),
{
    if es.len() > 0 {
        law_step_keeps_invariant(s, es[0]);
        law_run_keeps_invariant(step(s, es[0]).0, es.drop_first());
    }
}

/// At any time at most one client controls the terminal size. It is neither read-only nor of low
/// priority, and no such client attached after it. Where there is such a client at all, one
/// controls.
pub proof fn law_one_controller(s: SessionView, i: int, j: int)
    requires
        s.wf(),
        0 <= i < s.clients.len(),
        0 <= j < s.clients.len(),
    ensures
        s.clients[i].is_controller && s.clients[j].is_controller ==> i == j,
        s.clients[i].is_controller ==> !s.clients[i].flags.readonly
            && !s.clients[i].flags.low_priority,
        s.clients[i].is_controller && i < j ==> s.clients[j].flags.readonly
            || s.clients[j].flags.low_priority,
        crate::session::eligible(s.clients[i]) ==> exists|k: int|
            i <= k < s.clients.len() && (#[trigger] s.clients[k]).is_controller,
{
    crate::session::lemma_last_eligible(s.clients);
    if crate::session::eligible(s.clients[i]) {
        let k = crate::session::last_eligible(s.clients)->0;
        assert(s.clients[k].is_controller);
    }
}

/// An event shows a client that stays attached exactly what the child wrote in it.
pub proof fn law_step_shows_output(s: SessionView, e: Event, id: u64)
    requires
        s.wf(),
        possible(s, e),
        id < s.next_id,
        attached(step(s, e).0.clients, id),
    ensures
        attached(s.clients, id),
        received(step(s, e).1, id) == output_of(e),
        id < step(s, e).0.next_id,
{
    let (t, acts) = step(s, e);
    assert(Seq::<u8>::empty() + Seq::<u8>::empty() =~= Seq::<u8>::empty());
    match e {
        Event::Output { data } => {
            let payloads = crate::protocol::chunked(data);
            let ps = crate::protocol::packets_with(MsgType::Content, payloads);
            crate::protocol::law_chunks_cover_data(data);
            lemma_delivery_all_reaches(s.clients, payloads, s.next_id, id);
            let mid = crate::session::clients_after_all(s.clients, ps);
            lemma_elected_shows_nothing(mid, id);
            lemma_received_append(
                crate::session::delivery_all(s.clients, ps),
                crate::session::elected(mid).1,
                id,
            );
            assert(data + Seq::<u8>::empty() =~= data);
        },
        Event::ChildExit { status } => {
            let p = crate::session::exit_packet(status);
            let mid = crate::session::clients_after(s.clients, p, true);
            lemma_delivery_reaches(s.clients, p, true, id);
            lemma_elected_shows_nothing(mid, id);
            lemma_received_append(
                crate::session::delivery(s.clients, p, true),
                crate::session::elected(mid).1,
                id,
            );
        },
        Event::Register { flags } => {
            let c = crate::session::newcomer(s.next_id, flags);
            lemma_elected_shows_nothing(s.clients.push(c), id);
            lemma_attached_push(s.clients, c, id);
        },
        Event::Live { id: who } => {
            lemma_live_shows_nothing(s, who, id);
        },
        Event::Packet { id: who, packet } => {
            crate::session::lemma_position(s.clients, who);
            if let Some(i) = crate::session::position(s.clients, who) {
                lemma_removal_shows_nothing(
                    s.clients,
                    i,
                    ActionView::Finish { id: who },
                    id,
                );
                if acts.len() == 1 {
                    lemma_received_one(acts[0], id);
                    assert(acts =~= seq![acts[0]]);
                }
            }
        },
        Event::InputEnded { id: who } => {
            crate::session::lemma_position(s.clients, who);
            if let Some(i) = crate::session::position(s.clients, who) {
                lemma_removal_shows_nothing(
                    s.clients,
                    i,
                    ActionView::Finish { id: who },
                    id,
                );
            }
        },
        Event::Gone { id: who } => {
            crate::session::lemma_position(s.clients, who);
            if let Some(i) = crate::session::position(s.clients, who) {
                lemma_removal_shows_nothing(
                    s.clients,
                    i,
                    ActionView::Close { id: who },
                    id,
                );
            }
        },
        Event::Written { id: who, n } => {
            crate::session::lemma_position(s.clients, who);
            if let Some(i) = crate::session::position(s.clients, who) {
                lemma_same_ids(s.clients, t.clients, id);
            }
        },
        Event::PtyClosed => {},
    }
}

proof fn lemma_removal_shows_nothing(
    cs: Seq<ClientHandle>,
    i: int,
    a: ActionView,
    id: u64,
)
    requires
        0 <= i < cs.len(),
        shown(a, id) == Seq::<u8>::empty(),
    ensures
        attached(crate::session::elected(cs.remove(i)).0, id) ==> attached(cs, id),
        received(seq![a] + crate::session::elected(cs.remove(i)).1, id) == Seq::<u8>::empty(),
{
    lemma_removed(cs, i, id);
    lemma_elected_shows_nothing(cs.remove(i), id);
    lemma_received_one(a, id);
    lemma_received_append(seq![a], crate::session::elected(cs.remove(i)).1, id);
    assert(Seq::<u8>::empty() + Seq::<u8>::empty() =~= Seq::<u8>::empty());
}

proof fn lemma_live_shows_nothing(s: SessionView, who: u64, id: u64)
    requires
        s.wf(),
    ensures
        attached(crate::session::on_live(s, who).0.clients, id) ==> attached(s.clients, id),
        received(crate::session::on_live(s, who).1, id) == Seq::<u8>::empty(),
{
    crate::session::lemma_position(s.clients, who);
    let (t, acts) = crate::session::on_live(s, who);
    if let Some(i) = crate::session::position(s.clients, who) {
        let c = ClientHandle { state: ClientState::Live, ..s.clients[i] };
        match s.exit_status {
            None => {
                lemma_same_ids(s.clients, t.clients, id);
            },
            Some(status) => {
                let p = crate::session::exit_packet(status);
                if crate::session::fits(c, p) {
                    lemma_same_ids(s.clients, t.clients, id);
                    let send = ActionView::Send { id: who, packet: p };
                    let finish = ActionView::Finish { id: who };
                    lemma_received_one(send, id);
                    lemma_received_push(seq![send], finish, id);
                    assert(acts =~= seq![send].push(finish));
                    assert(Seq::<u8>::empty() + Seq::<u8>::empty() =~= Seq::<u8>::empty());
                } else {
                    lemma_removal_shows_nothing(
                        s.clients,
                        i,
                        ActionView::Close { id: who },
                        id,
                    );
                }
            },
        }
    }
}

/// A client that is attached and still is after any course of events shows everything that the
/// child wrote meanwhile: all of it, once, in order, and nothing else.
pub proof fn law_attached_client_sees_all_output(
    s: SessionView,
    es: Seq<Event>,
    id: u64,
)
    requires
        s.wf(),
        possible_all(s, es),
        id < s.next_id,
        attached(run(s, es).clients, id),
    ensures
        attached(s.clients, id),
        received(run_actions(s, es), id) == outputs(es),
    decreases es.len(),
{
    if es.len() > 0 {
        let t = step(s, es[0]).0;
        law_step_keeps_invariant(s, es[0]);
        assert(s.next_id <= t.next_id);
        law_attached_client_sees_all_output(t, es.drop_first(), id);
        law_step_shows_output(s, es[0], id);
        lemma_received_append(step(s, es[0]).1, run_actions(t, es.drop_first()), id);
    }
}

/// A client that attaches is attached, as the one that attached last.
pub proof fn law_newcomer_is_attached(s: SessionView, flags: ClientFlags)
    requires
        s.wf(),
        s.next_id < u64::MAX,
    ensures
        attached(crate::session::on_register(s, flags).0.clients, s.next_id),
        crate::session::on_register(s, flags).0.clients.last().id == s.next_id,
        crate::session::on_register(s, flags).0.clients.last().is_controller
            == (!flags.readonly && !flags.low_priority),
{
    let c = crate::session::newcomer(s.next_id, flags);
    let cs = s.clients.push(c);
    crate::session::lemma_last_eligible(cs);
    lemma_elected_keeps_last(cs);
    let after = crate::session::elected(cs).0;
    crate::session::lemma_elected_keeps(cs, (s.next_id + 1) as u64);
    crate::session::lemma_last_eligible(after);
    crate::session::lemma_position(after, s.next_id);
}

/// Choosing the controller never loses a last client whose queue is empty.
proof fn lemma_elected_keeps_last(cs: Seq<ClientHandle>)
    requires
        cs.len() > 0,
        cs.last().queued == 0,
    ensures
        crate::session::elected(cs).0.len() > 0,
        crate::session::elected(cs).0.last().id == cs.last().id,
        crate::session::elected(cs).0.last().flags == cs.last().flags,
    decreases cs.len(),
{
    crate::session::lemma_last_eligible(cs);
    if let Some(i) = crate::session::last_eligible(cs) {
        if !cs[i].is_controller && !crate::session::fits(
            cs[i],
            crate::session::resize_request(),
        ) {
            assert(cs.remove(i).last() == cs.last());
            lemma_elected_keeps_last(cs.remove(i));
        }
    }
}

/// Nothing is missed between the recording and the live output: what a client's terminal shows
/// of the recording that it is given when it attaches, followed by what it shows afterwards, is
/// an unbroken end of all that the child ever wrote, as long as the recording was and everything
/// since.
pub proof fn law_attach_misses_nothing(
    s: SessionView,
    flags: ClientFlags,
    es: Seq<Event>,
    history: Seq<u8>,
)
    requires
        s.wf(),
        s.next_id < u64::MAX,
        s.ring == crate::ring::last_n(history, s.cap),
        possible_all(crate::session::on_register(s, flags).0, es),
        attached(run(crate::session::on_register(s, flags).0, es).clients, s.next_id),
    ensures
        crate::client::displayed(crate::protocol::replay_of(s.ring)) + received(
            run_actions(crate::session::on_register(s, flags).0, es),
            s.next_id,
        ) == crate::ring::last_n(history + outputs(es), s.ring.len() + outputs(es).len()),
{
    let t = crate::session::on_register(s, flags).0;
    law_step_keeps_invariant(s, Event::Register { flags });
    law_attached_client_sees_all_output(t, es, s.next_id);
    crate::client::law_recording_is_shown(s.ring);
    assert(s.ring + outputs(es) =~= crate::ring::last_n(
        history + outputs(es),
        s.ring.len() + outputs(es).len(),
    ));
}

/// The recording is at any time the end of all that the child wrote, as much of it as is kept.
pub proof fn law_recording_is_recent_output(
    s: SessionView,
    es: Seq<Event>,
    history: Seq<u8>,
)
    requires
        s.ring == crate::ring::last_n(history, s.cap),
    ensures
        run(s, es).ring == crate::ring::last_n(history + outputs(es), s.cap),
        run(s, es).cap == s.cap,
    decreases es.len(),
{
    if es.len() == 0 {
        assert(history + outputs(es) =~= history);
    } else {
        let t = step(s, es[0]).0;
        let longer = history + output_of(es[0]);
        if let Event::Output { data } = es[0] {
            crate::ring::lemma_last_n_append(history, data, s.cap);
        } else {
            assert(longer =~= history);
            assert(t.ring == s.ring && t.cap == s.cap);
        }
        law_recording_is_recent_output(t, es.drop_first(), longer);
        assert(history + outputs(es) =~= longer + outputs(es.drop_first()));
    }
}

/// Bytes reach the child's terminal only from a live client that is not read-only, exactly as it
/// sent them; from such a client they always do.
pub proof fn law_who_may_type(
    s: SessionView,
    id: u64,
    p: PacketView,
)
    requires
        s.wf(),
    ensures
        ({
            let c = s.clients[crate::session::position(s.clients, id)->0];
            p.msg_type == MsgType::Content ==> {
                &&& crate::session::on_packet(s, id, p).0 == s
                &&& crate::session::on_packet(s, id, p).1 == (if attached(s.clients, id) && c.state
                    == ClientState::Live && !c.flags.readonly {
                    seq![ActionView::Input { data: p.payload }]
                } else {
                    Seq::empty()
                })
            }
        }),
        forall|i: int|
            p.msg_type != MsgType::Content && 0 <= i < crate::session::on_packet(s, id, p).1.len()
                ==> !((#[trigger] crate::session::on_packet(s, id, p).1[i]) is Input),
{
    crate::session::lemma_position(s.clients, id);
    if let Some(k) = crate::session::position(s.clients, id) {
        lemma_elections_type_nothing(s.clients.remove(k));
    }
}

/// Choosing the controller neither types nor resizes.
proof fn lemma_elections_type_nothing(cs: Seq<ClientHandle>)
    ensures
        forall|i: int|
            0 <= i < crate::session::elected(cs).1.len() ==> !((
            #[trigger] crate::session::elected(cs).1[i]) is Input) && !(crate::session::elected(
                cs,
            ).1[i] is SetSize),
    decreases cs.len(),
{
    crate::session::lemma_last_eligible(cs);
    if let Some(k) = crate::session::last_eligible(cs) {
        if !cs[k].is_controller && !crate::session::fits(
            cs[k],
            crate::session::resize_request(),
        ) {
            lemma_elections_type_nothing(cs.remove(k));
        }
    }
}

/// Only the controller's size is applied, and only once it is live; any other client's is
/// ignored and changes nothing.
pub proof fn law_only_controller_resizes(
    s: SessionView,
    id: u64,
    rows: u16,
    cols: u16,
)
    requires
        s.wf(),
    ensures
        ({
            let p = PacketView {
                msg_type: MsgType::Resize,
                payload: crate::protocol::u16_le(rows) + crate::protocol::u16_le(cols),
            };
            let c = s.clients[crate::session::position(s.clients, id)->0];
            &&& crate::session::on_packet(s, id, p).0 == s
            &&& crate::session::on_packet(s, id, p).1 == (if attached(s.clients, id) && c.state
                == ClientState::Live && c.is_controller {
                seq![ActionView::SetSize { rows, cols }]
            } else {
                Seq::empty()
            })
        }),
{
    crate::protocol::law_resize_round_trip(rows, cols);
}

/// Whether the action sends this packet to some client.
pub open spec fn sends(a: ActionView, p: PacketView) -> bool {
    a matches ActionView::Send { packet, .. } && packet == p
}

/// Whether some action tells a client this exit status.
pub open spec fn tells_exit(actions: Seq<ActionView>, status: u32) -> bool {
    exists|i: int|
        0 <= i < actions.len() && sends(#[trigger] actions[i], crate::session::exit_packet(status))
}

/// The server is done only after a client has been told the exit status: a session that started
/// with a running child and has finished has sent the status to some client.
pub proof fn law_finished_only_after_telling(s: SessionView, es: Seq<Event>)
    requires
        s.wf(),
        possible_all(s, es),
        !s.exit_notified,
        run(s, es).finished(),
    ensures
        run(s, es).exit_status matches Some(status) && tells_exit(run_actions(s, es), status),
    decreases es.len(),
{
    if es.len() > 0 {
        let (t, acts) = step(s, es[0]);
        let rest = es.drop_first();
        law_step_keeps_invariant(s, es[0]);
        let later = run_actions(t, rest);
        if t.exit_notified {
            let status = t.exit_status->0;
            lemma_notified_means_told(s, es[0]);
            lemma_status_stays(t, rest);
            let p = crate::session::exit_packet(status);
            let i = choose|i: int| 0 <= i < acts.len() && sends(#[trigger] acts[i], p);
            assert((acts + later)[i] == acts[i]);
        } else {
            law_finished_only_after_telling(t, rest);
            let status = run(s, es).exit_status->0;
            let p = crate::session::exit_packet(status);
            let i = choose|i: int| 0 <= i < later.len() && sends(#[trigger] later[i], p);
            assert((acts + later)[acts.len() + i] == later[i]);
        }
    }
}

/// Once the child has exited, its status never changes.
proof fn lemma_status_stays(s: SessionView, es: Seq<Event>)
    requires
        s.exit_status is Some,
    ensures
        run(s, es).exit_status == s.exit_status,
    decreases es.len(),
{
    if es.len() > 0 {
        lemma_status_stays(step(s, es[0]).0, es.drop_first());
    }
}

/// A session counts a client as told only in a step that sends the status to one.
proof fn lemma_notified_means_told(s: SessionView, e: Event)
    requires
        s.wf(),
        !s.exit_notified,
        step(s, e).0.exit_notified,
    ensures
        step(s, e).0.exit_status matches Some(status) && tells_exit(step(s, e).1, status),
{
    let acts = step(s, e).1;
    match e {
        Event::ChildExit { status } => {
            let p = crate::session::exit_packet(status);
            lemma_delivery_tells(s.clients, p);
            let d = crate::session::delivery(s.clients, p, true);
            let i = choose|i: int|
                0 <= i < d.len() && sends(#[trigger] d[i], p);
            assert(acts[i] == d[i]);
        },
        Event::Live { id } => {
            assert(acts[0] is Send);
        },
        _ => {},
    }
}

proof fn lemma_delivery_tells(cs: Seq<ClientHandle>, p: PacketView)
    requires
        crate::session::reaches_live(cs, p),
    ensures
        exists|i: int|
            0 <= i < crate::session::delivery(cs, p, true).len() && sends(
            #[trigger] crate::session::delivery(cs, p, true)[i], p),
    decreases cs.len(),
{
    let init = cs.drop_last();
    let c = cs.last();
    let k = choose|i: int|
        0 <= i < cs.len() && (#[trigger] cs[i]).state == ClientState::Live
            && crate::session::fits(cs[i], p);
    assert(cs =~= init.push(c));
    crate::session::lemma_clients_after_push(init, c, p, true);
    let d = crate::session::delivery(cs, p, true);
    let e = crate::session::delivery(init, p, true);
    if k == cs.len() - 1 {
        assert(d.last() is Send);
        assert(d[d.len() - 1] is Send);
    } else {
        assert(init[k] == cs[k]);
        lemma_delivery_tells(init, p);
        let i = choose|i: int|
            0 <= i < e.len() && sends(#[trigger] e[i], p);
        assert(d[i] == e[i]);
    }
}

/// When the child exits, every live client is told the status, unless its queue has no room.
pub proof fn law_exit_reaches_live_clients(s: SessionView, status: u32, i: int)
    requires
        s.wf(),
        s.exit_status is None,
        0 <= i < s.clients.len(),
        s.clients[i].state == ClientState::Live,
        crate::session::fits(s.clients[i], crate::session::exit_packet(status)),
    ensures
        crate::session::on_child_exit(s, status).1.contains(
            ActionView::Send {
                id: s.clients[i].id,
                packet: crate::session::exit_packet(status),
            },
        ),
        crate::session::on_child_exit(s, status).0.exit_status == Some(status),
        crate::session::on_child_exit(s, status).0.exit_notified,
{
    let p = crate::session::exit_packet(status);
    let send = ActionView::Send { id: s.clients[i].id, packet: p };
    let d = crate::session::delivery(s.clients, p, true);
    lemma_delivery_contains(s.clients, p, i);
    let k = choose|k: int| 0 <= k < d.len() && d[k] == send;
    assert(crate::session::on_child_exit(s, status).1[k] == send);
    assert(s.clients[i].state == ClientState::Live);
}

proof fn lemma_delivery_contains(cs: Seq<ClientHandle>, p: PacketView, i: int)
    requires
        0 <= i < cs.len(),
        cs[i].state == ClientState::Live,
        crate::session::fits(cs[i], p),
    ensures
        crate::session::delivery(cs, p, true).contains(
            ActionView::Send { id: cs[i].id, packet: p },
        ),
    decreases cs.len(),
{
    let init = cs.drop_last();
    let send = ActionView::Send { id: cs[i].id, packet: p };
    assert(cs =~= init.push(cs.last()));
    crate::session::lemma_clients_after_push(init, cs.last(), p, true);
    let d = crate::session::delivery(cs, p, true);
    if i == cs.len() - 1 {
        assert(d[d.len() - 1] == send);
    } else {
        lemma_delivery_contains(init, p, i);
        let e = crate::session::delivery(init, p, true);
        let k = choose|k: int| 0 <= k < e.len() && e[k] == send;
        assert(d[k] == send);
    }
}

/// A client that asks to be let go is let go and no longer attached; the session goes on as it
/// was: the child, the recording and whoever was told the exit status are not touched.
pub proof fn law_detach_leaves_session_running(s: SessionView, id: u64)
    requires
        s.wf(),
        attached(s.clients, id),
    ensures
        ({
            let (t, acts) = crate::session::on_packet(s, id, crate::client::detach_packet());
            &&& acts[0] == ActionView::Finish { id }
            &&& !attached(t.clients, id)
            &&& t.ring == s.ring
            &&& t.exit_status == s.exit_status
            &&& t.exit_notified == s.exit_notified
            &&& t.pty_eof == s.pty_eof
        }),
{
    crate::session::lemma_position(s.clients, id);
    let i = crate::session::position(s.clients, id)->0;
    let rest = s.clients.remove(i);
    crate::session::lemma_position(rest, id);
    if let Some(k) = crate::session::position(rest, id) {
        if k < i {
            assert(rest[k] == s.clients[k]);
        } else {
            assert(rest[k] == s.clients[k + 1]);
        }
        assert(false);
    }
    lemma_elected_shows_nothing(rest, id);
}

/// A lost connection is an implicit detach: the session does the same as if the client had asked to
/// be let go, so that what is queued for it is still written.
pub proof fn law_lost_input_is_a_detach(s: SessionView, id: u64)
    ensures
        crate::session::on_input_ended(s, id) == crate::session::on_packet(
            s,
            id,
            crate::client::detach_packet(),
        ),
        crate::session::on_input_ended(s, id).0 == crate::session::on_gone(s, id).0,
{
}

/// Control is handed over at once: when the controller leaves, the next eligible client, most
/// recent first, becomes the controller and is asked for its terminal size, in whatever state its
/// connection is. When anybody else leaves, nobody is asked and nobody is promoted.
pub proof fn law_control_is_handed_over(s: SessionView, id: u64)
    requires
        s.wf(),
        attached(s.clients, id),
    ensures
        ({
            let i = crate::session::position(s.clients, id)->0;
            let rest = s.clients.remove(i);
            let (t, acts) = crate::session::on_gone(s, id);
            if s.clients[i].is_controller {
                match crate::session::last_eligible(rest) {
                    None => t.clients == rest && acts == seq![ActionView::Close { id }],
                    Some(k) => crate::session::fits(rest[k], crate::session::resize_request())
                        ==> t.clients.len() == rest.len() && t.clients[k].id == rest[k].id
                        && t.clients[k].is_controller && acts == seq![
                        ActionView::Close { id },
                        ActionView::Send {
                            id: rest[k].id,
                            packet: crate::session::resize_request(),
                        },
                    ],
                }
            } else {
                t.clients == rest && acts == seq![ActionView::Close { id }]
            }
        }),
{
    crate::session::lemma_position(s.clients, id);
    let i = crate::session::position(s.clients, id)->0;
    let rest = s.clients.remove(i);
    let (t, acts) = crate::session::on_gone(s, id);
    crate::session::lemma_last_eligible(s.clients);
    crate::session::lemma_last_eligible(rest);
    assert forall|j: int| 0 <= j < rest.len() implies #[trigger] rest[j] == s.clients[if j < i {
        j
    } else {
        j + 1
    }] by {}
    if s.clients[i].is_controller {
        match crate::session::last_eligible(rest) {
            None => {
                assert(t.clients =~= rest);
                assert(acts =~= seq![ActionView::Close { id }]);
            },
            Some(k) => {
                assert(!rest[k].is_controller);
                if crate::session::fits(rest[k], crate::session::resize_request()) {
                    assert(acts =~= seq![
                        ActionView::Close { id },
                        ActionView::Send {
                            id: rest[k].id,
                            packet: crate::session::resize_request(),
                        },
                    ]);
                }
            },
        }
    } else {
        match crate::session::last_eligible(s.clients) {
            None => {
                if let Some(k) = crate::session::last_eligible(rest) {
                    assert(crate::session::eligible(s.clients[if k < i {
                        k
                    } else {
                        k + 1
                    }]));
                }
            },
            Some(m) => {
                let k = if m < i {
                    m
                } else {
                    m - 1
                };
                assert(m != i);
                assert(rest[k] == s.clients[m]);
                let r = crate::session::last_eligible(rest)->0;
                assert(crate::session::last_eligible(rest) is Some);
                assert(rest[r] == s.clients[if r < i {
                    r
                } else {
                    r + 1
                }]);
                assert(r == k);
            },
        }
        assert(t.clients =~= rest);
        assert(acts =~= seq![ActionView::Close { id }]);
    }
}

/// A client that becomes live after the child has exited is told the status at once and then let
/// go; from then on the server may finish.
pub proof fn law_late_client_is_told(s: SessionView, id: u64)
    requires
        s.wf(),
        attached(s.clients, id),
        s.exit_status is Some,
        crate::session::fits(
            s.clients[crate::session::position(s.clients, id)->0],
            crate::session::exit_packet(s.exit_status->0),
        ),
    ensures
        crate::session::on_live(s, id).1 == seq![
            ActionView::Send {
                id,
                packet: crate::session::exit_packet(s.exit_status->0),
            },
            ActionView::Finish { id },
        ],
        crate::session::on_live(s, id).0.exit_notified,
{
}

/// How often the actions send the client with this id an exit status.
pub open spec fn times_told(actions: Seq<ActionView>, id: u64) -> nat
    decreases actions.len(),
{
    if actions.len() == 0 {
        0
    } else {
        times_told(actions.drop_last(), id) + told(actions.last(), id)
    }
}

/// How often the action sends the client with this id an exit status.
pub open spec fn told(a: ActionView, id: u64) -> nat {
    match a {
        ActionView::Send { id: to, packet } => if to == id && packet.msg_type == MsgType::Exit {
            1
        } else {
            0
        },
        _ => 0,
    }
}

/// Where the client with this id stands; `None` where it is not attached.
pub open spec fn state_of(cs: Seq<ClientHandle>, id: u64) -> Option<ClientState> {
    match crate::session::position(cs, id) {
        Some(i) => Some(cs[i].state),
        None => None,
    }
}

/// Whether the event may come: a client is reported to be up to date only while it is still being
/// brought there.
pub open spec fn timely(s: SessionView, e: Event) -> bool {
    e matches Event::Live { id } ==> state_of(s.clients, id) != Some(ClientState::Live)
}

/// Whether the events may come one after another.
pub open spec fn timely_all(s: SessionView, es: Seq<Event>) -> bool
    decreases es.len(),
{
    es.len() > 0 ==> timely(s, es[0]) && timely_all(step(s, es[0]).0, es.drop_first())
}

/// How often the client with this id can still be sent an exit status: once, unless it is gone or
/// was live when or after the child exited.
pub open spec fn still_to_tell(s: SessionView, id: u64) -> nat {
    if id >= s.next_id {
        1
    } else {
        match state_of(s.clients, id) {
            None => 0,
            Some(ClientState::Replaying) => 1,
            Some(ClientState::Live) => if s.exit_status is Some {
                0
            } else {
                1
            },
        }
    }
}

/// No client is ever sent the exit status twice, over any course of events in which each client
/// is reported to be up to date only while it is still being brought there; a client that was
/// live when the child exited, or was told later, is not sent it again.
pub proof fn law_exit_is_told_once(s: SessionView, es: Seq<Event>, id: u64)
    requires
        s.wf(),
        possible_all(s, es),
        timely_all(s, es),
    ensures
        times_told(run_actions(s, es), id) <= still_to_tell(s, id) <= 1,
    decreases es.len(),
{
    if es.len() > 0 {
        let (t, acts) = step(s, es[0]);
        law_step_keeps_invariant(s, es[0]);
        law_exit_is_told_once(t, es.drop_first(), id);
        lemma_step_tells_once(s, es[0], id);
        lemma_told_append(acts, run_actions(t, es.drop_first()), id);
    }
}

proof fn lemma_told_push(actions: Seq<ActionView>, a: ActionView, id: u64)
    ensures
        times_told(actions.push(a), id) == times_told(actions, id) + told(a, id),
{
    assert(actions.push(a).drop_last() =~= actions);
}

proof fn lemma_told_append(a: Seq<ActionView>, b: Seq<ActionView>, id: u64)
    ensures
        times_told(a + b, id) == times_told(a, id) + times_told(b, id),
    decreases b.len(),
{
    if b.len() == 0 {
        assert(a + b =~= a);
    } else {
        lemma_told_append(a, b.drop_last(), id);
        assert((a + b).drop_last() =~= a + b.drop_last());
    }
}

proof fn lemma_told_one(a: ActionView, id: u64)
    ensures
        times_told(seq![a], id) == told(a, id),
{
    reveal_with_fuel(times_told, 2);
    assert(seq![a].drop_last() =~= Seq::empty());
}

proof fn lemma_state_push(cs: Seq<ClientHandle>, c: ClientHandle, id: u64)
    ensures
        state_of(cs.push(c), id) == (if c.id == id {
            Some(c.state)
        } else {
            state_of(cs, id)
        }),
{
    crate::session::lemma_position(cs, id);
    assert(cs.push(c).drop_last() =~= cs);
}

/// Clients that keep their places, ids and states stand where they stood.
proof fn lemma_same_states(cs: Seq<ClientHandle>, ds: Seq<ClientHandle>, id: u64)
    requires
        cs.len() == ds.len(),
        forall|j: int|
            0 <= j < cs.len() ==> (#[trigger] cs[j]).id == (#[trigger] ds[j]).id && cs[j].state
                == ds[j].state,
    ensures
        state_of(cs, id) == state_of(ds, id),
    decreases cs.len(),
{
    if cs.len() > 0 {
        let c = cs.drop_last();
        let d = ds.drop_last();
        assert(cs =~= c.push(cs.last()) && ds =~= d.push(ds.last()));
        assert(cs[cs.len() - 1].id == ds[cs.len() - 1].id);
        assert forall|j: int| 0 <= j < c.len() implies (#[trigger] c[j]).id == (
        #[trigger] d[j]).id && c[j].state == d[j].state by {
            assert(c[j] == cs[j] && d[j] == ds[j]);
        }
        lemma_same_states(c, d, id);
        lemma_state_push(c, cs.last(), id);
        lemma_state_push(d, ds.last(), id);
    }
}

/// Removing a client leaves the others where they stand.
proof fn lemma_removed_state(cs: Seq<ClientHandle>, i: int, id: u64)
    requires
        crate::session::ordered(cs),
        0 <= i < cs.len(),
    ensures
        crate::session::ordered(cs.remove(i)),
        state_of(cs.remove(i), id) == (if cs[i].id == id {
            None
        } else {
            state_of(cs, id)
        }),
{
    let rest = cs.remove(i);
    crate::session::lemma_position(cs, id);
    crate::session::lemma_position(rest, id);
    if let Some(k) = crate::session::position(rest, id) {
        let m = if k < i {
            k
        } else {
            k + 1
        };
        assert(rest[k] == cs[m]);
        let n = crate::session::position(cs, id)->0;
        assert(cs[m].id == id && cs[n].id == id && m == n);
        assert(m != i);
        assert(cs[i].id != id);
    } else if let Some(n) = crate::session::position(cs, id) {
        if n < i {
            assert(rest[n] == cs[n]);
        } else if n > i {
            assert(rest[n - 1] == cs[n]);
        }
    }
}

/// One packet tells a client at most once, and only a client that it is meant for; whoever stays
/// attached stands where it stood.
proof fn lemma_delivery_tells_once(
    cs: Seq<ClientHandle>,
    p: PacketView,
    live_only: bool,
    id: u64,
)
    requires
        crate::session::ordered(cs),
    ensures
        ({
            let after = crate::session::clients_after(cs, p, live_only);
            let acts = crate::session::delivery(cs, p, live_only);
            &&& times_told(acts, id) <= 1
            &&& p.msg_type != MsgType::Exit ==> times_told(acts, id) == 0
            &&& state_of(cs, id) is None ==> times_told(acts, id) == 0
            &&& live_only && state_of(cs, id) != Some(ClientState::Live) ==> times_told(acts, id)
                == 0
            &&& state_of(after, id) is None || state_of(after, id) == state_of(cs, id)
        }),
    decreases cs.len(),
{
    if cs.len() == 0 {
        assert(crate::session::clients_after(cs, p, live_only) =~= Seq::empty());
        assert(crate::session::delivery(cs, p, live_only) =~= Seq::empty());
    } else {
        let init = cs.drop_last();
        let c = cs.last();
        assert(cs =~= init.push(c));
        lemma_delivery_tells_once(init, p, live_only, id);
        crate::session::lemma_clients_after_push(init, c, p, live_only);
        lemma_state_push(init, c, id);
        let after = crate::session::clients_after(init, p, live_only);
        let acts = crate::session::delivery(init, p, live_only);
        if c.id == id {
            crate::session::lemma_position(init, id);
            assert(state_of(init, id) is None);
        }
        lemma_state_push(after, c, id);
        lemma_state_push(after, crate::session::charged(c, p), id);
        lemma_told_push(acts, ActionView::Send { id: c.id, packet: p }, id);
        lemma_told_push(acts, ActionView::Close { id: c.id }, id);
    }
}

/// Output tells nobody the exit status.
proof fn lemma_output_tells_nobody(
    cs: Seq<ClientHandle>,
    payloads: Seq<Seq<u8>>,
    next: u64,
    id: u64,
)
    requires
        crate::session::ordered(cs),
        crate::session::bounded(cs),
        crate::session::below(cs, next),
    ensures
        ({
            let ps = crate::protocol::packets_with(MsgType::Content, payloads);
            let after = crate::session::clients_after_all(cs, ps);
            &&& times_told(crate::session::delivery_all(cs, ps), id) == 0
            &&& state_of(after, id) is None || state_of(after, id) == state_of(cs, id)
        }),
    decreases payloads.len(),
{
    let ps = crate::protocol::packets_with(MsgType::Content, payloads);
    if payloads.len() > 0 {
        let init = payloads.drop_last();
        let ps_init = crate::protocol::packets_with(MsgType::Content, init);
        assert(ps.drop_last() =~= ps_init);
        lemma_output_tells_nobody(cs, init, next, id);
        crate::session::lemma_clients_after_all_keeps(cs, ps_init, next);
        let mid = crate::session::clients_after_all(cs, ps_init);
        lemma_delivery_tells_once(mid, ps.last(), false, id);
        lemma_told_append(
            crate::session::delivery_all(cs, ps_init),
            crate::session::delivery(mid, ps.last(), false),
            id,
        );
    }
}

/// Choosing the controller tells nobody the exit status; whoever stays attached stands where it
/// stood.
proof fn lemma_elected_tells_nobody(cs: Seq<ClientHandle>, id: u64)
    requires
        crate::session::ordered(cs),
    ensures
        times_told(crate::session::elected(cs).1, id) == 0,
        state_of(crate::session::elected(cs).0, id) is None || state_of(
            crate::session::elected(cs).0,
            id,
        ) == state_of(cs, id),
    decreases cs.len(),
{
    crate::session::lemma_last_eligible(cs);
    let (after, acts) = crate::session::elected(cs);
    match crate::session::last_eligible(cs) {
        None => {
            lemma_same_states(cs, after, id);
        },
        Some(i) => {
            if cs[i].is_controller {
                lemma_same_states(cs, after, id);
            } else if crate::session::fits(cs[i], crate::session::resize_request()) {
                lemma_same_states(cs, after, id);
                lemma_told_one(acts[0], id);
                assert(acts =~= seq![acts[0]]);
            } else {
                lemma_removed_state(cs, i, id);
                lemma_elected_tells_nobody(cs.remove(i), id);
                let close = ActionView::Close { id: cs[i].id };
                lemma_told_one(close, id);
                lemma_told_append(seq![close], crate::session::elected(cs.remove(i)).1, id);
            }
        },
    }
}

/// The removal of a client tells nobody the exit status.
proof fn lemma_removal_tells_nobody(cs: Seq<ClientHandle>, i: int, a: ActionView, id: u64)
    requires
        crate::session::ordered(cs),
        0 <= i < cs.len(),
        told(a, id) == 0,
    ensures
        times_told(seq![a] + crate::session::elected(cs.remove(i)).1, id) == 0,
        state_of(crate::session::elected(cs.remove(i)).0, id) is None || state_of(
            crate::session::elected(cs.remove(i)).0,
            id,
        ) == state_of(cs, id),
{
    lemma_removed_state(cs, i, id);
    lemma_elected_tells_nobody(cs.remove(i), id);
    lemma_told_one(a, id);
    lemma_told_append(seq![a], crate::session::elected(cs.remove(i)).1, id);
}

/// What an event tells a client is taken off what it can still be told.
proof fn lemma_step_tells_once(s: SessionView, e: Event, id: u64)
    requires
        s.wf(),
        possible(s, e),
        timely(s, e),
    ensures
        times_told(step(s, e).1, id) + still_to_tell(step(s, e).0, id) <= still_to_tell(s, id),
{
    let (t, acts) = step(s, e);
    crate::session::lemma_position(s.clients, id);
    match e {
        Event::Output { data } => {
            let payloads = crate::protocol::chunked(data);
            let ps = crate::protocol::packets_with(MsgType::Content, payloads);
            let mid = crate::session::clients_after_all(s.clients, ps);
            lemma_output_tells_nobody(s.clients, payloads, s.next_id, id);
            crate::session::lemma_clients_after_all_keeps(s.clients, ps, s.next_id);
            lemma_elected_tells_nobody(mid, id);
            lemma_told_append(
                crate::session::delivery_all(s.clients, ps),
                crate::session::elected(mid).1,
                id,
            );
        },
        Event::ChildExit { status } => {
            if s.exit_status is None {
                let p = crate::session::exit_packet(status);
                let mid = crate::session::clients_after(s.clients, p, true);
                lemma_delivery_tells_once(s.clients, p, true, id);
                crate::session::lemma_clients_after_keeps(s.clients, p, true, s.next_id);
                lemma_elected_tells_nobody(mid, id);
                lemma_told_append(
                    crate::session::delivery(s.clients, p, true),
                    crate::session::elected(mid).1,
                    id,
                );
            }
        },
        Event::Register { flags } => {
            let c = crate::session::newcomer(s.next_id, flags);
            lemma_state_push(s.clients, c, id);
            lemma_elected_tells_nobody(s.clients.push(c), id);
        },
        Event::Live { id: who } => {
            lemma_live_tells_once(s, who, id);
        },
        Event::Packet { id: who, packet } => {
            crate::session::lemma_position(s.clients, who);
            if let Some(i) = crate::session::position(s.clients, who) {
                lemma_removal_tells_nobody(s.clients, i, ActionView::Finish { id: who }, id);
                if acts.len() == 1 {
                    lemma_told_one(acts[0], id);
                    assert(acts =~= seq![acts[0]]);
                }
            }
        },
        Event::InputEnded { id: who } => {
            crate::session::lemma_position(s.clients, who);
            if let Some(i) = crate::session::position(s.clients, who) {
                lemma_removal_tells_nobody(s.clients, i, ActionView::Finish { id: who }, id);
            }
        },
        Event::Gone { id: who } => {
            crate::session::lemma_position(s.clients, who);
            if let Some(i) = crate::session::position(s.clients, who) {
                lemma_removal_tells_nobody(s.clients, i, ActionView::Close { id: who }, id);
            }
        },
        Event::Written { id: who, n } => {
            crate::session::lemma_position(s.clients, who);
            if let Some(i) = crate::session::position(s.clients, who) {
                lemma_same_states(s.clients, t.clients, id);
            }
        },
        Event::PtyClosed => {},
    }
}

proof fn lemma_live_tells_once(s: SessionView, who: u64, id: u64)
    requires
        s.wf(),
        timely(s, Event::Live { id: who }),
    ensures
        ({
            let (t, acts) = crate::session::on_live(s, who);
            times_told(acts, id) + still_to_tell(t, id) <= still_to_tell(s, id)
        }),
{
    let (t, acts) = crate::session::on_live(s, who);
    crate::session::lemma_position(s.clients, who);
    crate::session::lemma_position(s.clients, id);
    crate::session::lemma_position(t.clients, id);
    if let Some(i) = crate::session::position(s.clients, who) {
        let c = ClientHandle { state: ClientState::Live, ..s.clients[i] };
        match s.exit_status {
            None => {},
            Some(status) => {
                let p = crate::session::exit_packet(status);
                if crate::session::fits(c, p) {
                    let send = ActionView::Send { id: who, packet: p };
                    let finish = ActionView::Finish { id: who };
                    lemma_told_one(send, id);
                    lemma_told_push(seq![send], finish, id);
                    assert(acts =~= seq![send].push(finish));
                } else {
                    lemma_removal_tells_nobody(s.clients, i, ActionView::Close { id: who }, id);
                }
            },
        }
    }
}

/// Without a client that was told, the server stays, however many clients come and go without
/// becoming live.
pub proof fn law_server_waits_for_a_client(s: SessionView)
    requires
        !s.exit_notified,
    ensures
        !s.finished(),
{
}

/// Bytes that several packets take in a queue.
pub open spec fn total_cost(ps: Seq<PacketView>) -> nat
    decreases ps.len(),
{
    if ps.len() == 0 {
        0
    } else {
        total_cost(ps.drop_last()) + crate::session::cost(ps.last())
    }
}

/// A client that keeps up is not harmed by others: with room for what goes out, and for one
/// question about its terminal size, it stays attached, whatever the state of the other queues.
pub proof fn law_slow_client_falls_alone(s: SessionView, data: Seq<u8>, i: int)
    requires
        s.wf(),
        0 <= i < s.clients.len(),
        s.clients[i].queued + total_cost(
            crate::protocol::packets_with(MsgType::Content, crate::protocol::chunked(data)),
        ) + crate::session::cost(crate::session::resize_request())
            <= crate::session::OUTBOUND_LIMIT,
    ensures
        attached(crate::session::on_output(s, data).0.clients, s.clients[i].id),
{
    let ps = crate::protocol::packets_with(MsgType::Content, crate::protocol::chunked(data));
    lemma_roomy_client_stays(s.clients, ps, i);
    let mid = crate::session::clients_after_all(s.clients, ps);
    let k = choose|k: int|
        0 <= k < mid.len() && (#[trigger] mid[k]) == (ClientHandle {
            queued: (s.clients[i].queued + total_cost(ps)) as usize,
            ..s.clients[i]
        });
    lemma_elected_keeps_roomy(mid, k);
}

/// Choosing the controller keeps a client that has room for the question about its size.
proof fn lemma_elected_keeps_roomy(cs: Seq<ClientHandle>, i: int)
    requires
        0 <= i < cs.len(),
        crate::session::fits(cs[i], crate::session::resize_request()),
    ensures
        attached(crate::session::elected(cs).0, cs[i].id),
    decreases cs.len(),
{
    crate::session::lemma_last_eligible(cs);
    let after = crate::session::elected(cs).0;
    crate::session::lemma_position(cs, cs[i].id);
    match crate::session::last_eligible(cs) {
        None => {
            lemma_same_ids(cs, after, cs[i].id);
        },
        Some(k) => {
            if cs[k].is_controller || crate::session::fits(
                cs[k],
                crate::session::resize_request(),
            ) {
                lemma_same_ids(cs, after, cs[i].id);
            } else {
                let j = if i < k {
                    i
                } else {
                    i - 1
                };
                assert(cs.remove(k)[j] == cs[i]);
                lemma_elected_keeps_roomy(cs.remove(k), j);
            }
        },
    }
}

proof fn lemma_roomy_client_stays(cs: Seq<ClientHandle>, ps: Seq<PacketView>, i: int)
    requires
        0 <= i < cs.len(),
        cs[i].queued + total_cost(ps) <= crate::session::OUTBOUND_LIMIT,
    ensures
        exists|k: int|
            0 <= k < crate::session::clients_after_all(cs, ps).len() && (
            #[trigger] crate::session::clients_after_all(cs, ps)[k]) == (ClientHandle {
                queued: (cs[i].queued + total_cost(ps)) as usize,
                ..cs[i]
            }),
    decreases ps.len(),
{
    if ps.len() == 0 {
        assert(crate::session::clients_after_all(cs, ps)[i] == cs[i]);
    } else {
        lemma_roomy_client_stays(cs, ps.drop_last(), i);
        let mid = crate::session::clients_after_all(cs, ps.drop_last());
        let after = crate::session::clients_after(mid, ps.last(), false);
        let k = choose|k: int|
            0 <= k < mid.len() && (#[trigger] mid[k]) == (ClientHandle {
                queued: (cs[i].queued + total_cost(ps.drop_last())) as usize,
                ..cs[i]
            });
        lemma_fitting_client_stays(mid, ps.last(), k);
        let m = choose|m: int|
            0 <= m < after.len() && (#[trigger] after[m]) == crate::session::charged(
                mid[k],
                ps.last(),
            );
        assert(crate::session::clients_after_all(cs, ps)[m] == (ClientHandle {
            queued: (cs[i].queued + total_cost(ps)) as usize,
            ..cs[i]
        }));
    }
}

proof fn lemma_fitting_client_stays(
    cs: Seq<ClientHandle>,
    p: PacketView,
    i: int,
)
    requires
        0 <= i < cs.len(),
        crate::session::fits(cs[i], p),
    ensures
        exists|k: int|
            0 <= k < crate::session::clients_after(cs, p, false).len() && (
            #[trigger] crate::session::clients_after(cs, p, false)[k]) == crate::session::charged(
                cs[i],
                p,
            ),
    decreases cs.len(),
{
    let init = cs.drop_last();
    let c = cs.last();
    assert(cs =~= init.push(c));
    crate::session::lemma_clients_after_push(init, c, p, false);
    let after = crate::session::clients_after(cs, p, false);
    if i == cs.len() - 1 {
        assert(after[after.len() - 1] == crate::session::charged(cs[i], p));
    } else {
        lemma_fitting_client_stays(init, p, i);
        let before = crate::session::clients_after(init, p, false);
        let k = choose|k: int|
            0 <= k < before.len() && (#[trigger] before[k]) == crate::session::charged(init[i], p);
        assert(after[k] == before[k]);
    }
}

// ---------------------------------------------------------------------------
// What a step means for one client
// ---------------------------------------------------------------------------

/// The client with this id, if it is attached.
pub open spec fn handle_of(cs: Seq<ClientHandle>, id: u64) -> Option<ClientHandle> {
    match crate::session::position(cs, id) {
        Some(i) => Some(cs[i]),
        None => None,
    }
}

/// What actions amount to for one client.
pub struct Tally {
    /// Bytes on the wire of the packets that it is sent.
    pub bytes: nat,
    /// How often it is asked for its terminal size.
    pub asks: nat,
    /// How often it is told an exit status.
    pub tells: nat,
    /// How often its connection is ended after what is queued.
    pub finishes: nat,
    /// How often its connection is ended at once.
    pub closes: nat,
}

/// Nothing at all.
pub open spec fn nothing() -> Tally {
    Tally { bytes: 0, asks: 0, tells: 0, finishes: 0, closes: 0 }
}

/// Two tallies put together.
pub open spec fn both(a: Tally, b: Tally) -> Tally {
    Tally {
        bytes: a.bytes + b.bytes,
        asks: a.asks + b.asks,
        tells: a.tells + b.tells,
        finishes: a.finishes + b.finishes,
        closes: a.closes + b.closes,
    }
}

/// What one action amounts to for the client with this id.
pub open spec fn share(a: ActionView, id: u64) -> Tally {
    match a {
        ActionView::Send { id: to, packet } => if to != id {
            nothing()
        } else {
            Tally {
                bytes: crate::protocol::encoded(packet).len(),
                asks: if packet.msg_type == MsgType::ResizeReq {
                    1
                } else {
                    0
                },
                tells: if packet.msg_type == MsgType::Exit {
                    1
                } else {
                    0
                },
                ..nothing()
            }
        },
        ActionView::Finish { id: who } => if who == id {
            Tally { finishes: 1, ..nothing() }
        } else {
            nothing()
        },
        ActionView::Close { id: who } => if who == id {
            Tally { closes: 1, ..nothing() }
        } else {
            nothing()
        },
        _ => nothing(),
    }
}

/// What actions amount to for the client with this id.
pub open spec fn tally(actions: Seq<ActionView>, id: u64) -> Tally
    decreases actions.len(),
{
    if actions.len() == 0 {
        nothing()
    } else {
        both(tally(actions.drop_last(), id), share(actions.last(), id))
    }
}

proof fn lemma_tally_push(actions: Seq<ActionView>, a: ActionView, id: u64)
    ensures
        tally(actions.push(a), id) == both(tally(actions, id), share(a, id)),
{
    assert(actions.push(a).drop_last() =~= actions);
}

proof fn lemma_tally_append(a: Seq<ActionView>, b: Seq<ActionView>, id: u64)
    ensures
        tally(a + b, id) == both(tally(a, id), tally(b, id)),
    decreases b.len(),
{
    if b.len() == 0 {
        assert(a + b =~= a);
    } else {
        lemma_tally_append(a, b.drop_last(), id);
        assert((a + b).drop_last() =~= a + b.drop_last());
    }
}

proof fn lemma_tally_one(a: ActionView, id: u64)
    ensures
        tally(seq![a], id) == share(a, id),
{
    reveal_with_fuel(tally, 2);
    assert(seq![a].drop_last() =~= Seq::empty());
}

proof fn lemma_handle_push(cs: Seq<ClientHandle>, c: ClientHandle, id: u64)
    ensures
        handle_of(cs.push(c), id) == (if c.id == id {
            Some(c)
        } else {
            handle_of(cs, id)
        }),
{
    crate::session::lemma_position(cs, id);
    assert(cs.push(c).drop_last() =~= cs);
}

proof fn lemma_handle_at(cs: Seq<ClientHandle>, i: int)
    requires
        crate::session::ordered(cs),
        0 <= i < cs.len(),
    ensures
        handle_of(cs, cs[i].id) == Some(cs[i]),
        crate::session::position(cs, cs[i].id) == Some(i),
{
    crate::session::lemma_position(cs, cs[i].id);
}

proof fn lemma_handle_removed(cs: Seq<ClientHandle>, i: int, id: u64)
    requires
        crate::session::ordered(cs),
        0 <= i < cs.len(),
    ensures
        crate::session::ordered(cs.remove(i)),
        handle_of(cs.remove(i), id) == (if cs[i].id == id {
            None
        } else {
            handle_of(cs, id)
        }),
{
    let rest = cs.remove(i);
    crate::session::lemma_position(cs, id);
    crate::session::lemma_position(rest, id);
    if let Some(k) = crate::session::position(rest, id) {
        let m = if k < i {
            k
        } else {
            k + 1
        };
        assert(rest[k] == cs[m]);
        lemma_handle_at(cs, m);
        lemma_handle_at(cs, i);
    } else if let Some(n) = crate::session::position(cs, id) {
        if n < i {
            assert(rest[n] == cs[n]);
        } else if n > i {
            assert(rest[n - 1] == cs[n]);
        }
    }
}

/// One packet, seen by one client.
proof fn lemma_delivery_tally(
    cs: Seq<ClientHandle>,
    p: PacketView,
    live_only: bool,
    id: u64,
)
    requires
        crate::session::ordered(cs),
        crate::session::bounded(cs),
    ensures
        ({
            let after = handle_of(crate::session::clients_after(cs, p, live_only), id);
            let t = tally(crate::session::delivery(cs, p, live_only), id);
            match handle_of(cs, id) {
                None => after is None && t == nothing(),
                Some(c) => if live_only && c.state != ClientState::Live {
                    after == Some(c) && t == nothing()
                } else if c.queued + 3 + p.payload.len() <= 262144 {
                    &&& after == Some(
                        ClientHandle { queued: (c.queued + 3 + p.payload.len()) as usize, ..c },
                    )
                    &&& t == share(ActionView::Send { id, packet: p }, id)
                } else {
                    after is None && t == (Tally { closes: 1, ..nothing() })
                },
            }
        }),
    decreases cs.len(),
{
    if cs.len() == 0 {
        assert(crate::session::clients_after(cs, p, live_only) =~= Seq::empty());
        assert(crate::session::delivery(cs, p, live_only) =~= Seq::empty());
    } else {
        let init = cs.drop_last();
        let c = cs.last();
        assert(cs =~= init.push(c));
        lemma_delivery_tally(init, p, live_only, id);
        crate::session::lemma_clients_after_push(init, c, p, live_only);
        lemma_handle_push(init, c, id);
        let after = crate::session::clients_after(init, p, live_only);
        let acts = crate::session::delivery(init, p, live_only);
        if c.id == id {
            crate::session::lemma_position(init, id);
        }
        lemma_handle_push(after, c, id);
        lemma_handle_push(after, crate::session::charged(c, p), id);
        lemma_tally_push(acts, ActionView::Send { id: c.id, packet: p }, id);
        lemma_tally_push(acts, ActionView::Close { id: c.id }, id);
    }
}

/// Output, seen by one client.
proof fn lemma_output_tally(cs: Seq<ClientHandle>, payloads: Seq<Seq<u8>>, next: u64, id: u64)
    requires
        crate::session::ordered(cs),
        crate::session::bounded(cs),
        crate::session::below(cs, next),
        forall|i: int| 0 <= i < payloads.len() ==> (#[trigger] payloads[i]).len() <= 4093,
    ensures
        ({
            let ps = crate::protocol::packets_with(MsgType::Content, payloads);
            let after = handle_of(crate::session::clients_after_all(cs, ps), id);
            let t = tally(crate::session::delivery_all(cs, ps), id);
            &&& t == (Tally { bytes: t.bytes, closes: t.closes, ..nothing() })
            &&& match handle_of(cs, id) {
                None => after is None && t == nothing(),
                Some(c) => match after {
                    Some(d) => t.closes == 0 && c.queued + t.bytes <= 262144 && d == (
                    ClientHandle { queued: (c.queued + t.bytes) as usize, ..c }),
                    None => t.closes == 1 && c.queued + t.bytes + 4096 > 262144,
                },
            }
        }),
    decreases payloads.len(),
{
    let ps = crate::protocol::packets_with(MsgType::Content, payloads);
    if payloads.len() > 0 {
        let init = payloads.drop_last();
        let ps_init = crate::protocol::packets_with(MsgType::Content, init);
        assert(ps.drop_last() =~= ps_init);
        assert forall|i: int| 0 <= i < init.len() implies (#[trigger] init[i]).len() <= 4093 by {
            assert(init[i] == payloads[i]);
        }
        assert(ps.last().payload == payloads[payloads.len() - 1]);
        lemma_output_tally(cs, init, next, id);
        crate::session::lemma_clients_after_all_keeps(cs, ps_init, next);
        let mid = crate::session::clients_after_all(cs, ps_init);
        lemma_delivery_tally(mid, ps.last(), false, id);
        lemma_tally_append(
            crate::session::delivery_all(cs, ps_init),
            crate::session::delivery(mid, ps.last(), false),
            id,
        );
    } else if let Some(i) = crate::session::position(cs, id) {
        crate::session::lemma_position(cs, id);
    }
}

/// Choosing the controller, seen by one client.
proof fn lemma_elected_tally(cs: Seq<ClientHandle>, id: u64)
    requires
        crate::session::ordered(cs),
        crate::session::bounded(cs),
    ensures
        ({
            let after = handle_of(crate::session::elected(cs).0, id);
            let t = tally(crate::session::elected(cs).1, id);
            &&& t == (Tally { bytes: 3 * t.asks, asks: t.asks, closes: t.closes, ..nothing() })
            &&& match handle_of(cs, id) {
                None => after is None && t == nothing(),
                Some(c) => match after {
                    Some(d) => {
                        &&& t.closes == 0
                        &&& c.queued + t.bytes <= 262144
                        &&& d == (ClientHandle {
                            queued: (c.queued + t.bytes) as usize,
                            is_controller: d.is_controller,
                            ..c
                        })
                        &&& t.asks == (if d.is_controller && !c.is_controller {
                            1nat
                        } else {
                            0
                        })
                    },
                    None => t.closes == 1 && t.asks == 0 && c.queued + 3 > 262144,
                },
            }
        }),
    decreases cs.len(),
{
    crate::session::lemma_last_eligible(cs);
    crate::session::lemma_position(cs, id);
    let (after, acts) = crate::session::elected(cs);
    match crate::session::last_eligible(cs) {
        None => {
            lemma_same_order(cs, after, id);
        },
        Some(i) => {
            if cs[i].is_controller {
                lemma_same_order(cs, after, id);
            } else if crate::session::fits(cs[i], crate::session::resize_request()) {
                lemma_same_order(cs, after, id);
                lemma_handle_at(cs, i);
                lemma_tally_one(acts[0], id);
                assert(acts =~= seq![acts[0]]);
            } else {
                lemma_handle_removed(cs, i, id);
                lemma_elected_tally(cs.remove(i), id);
                let close = ActionView::Close { id: cs[i].id };
                lemma_tally_one(close, id);
                lemma_tally_append(seq![close], crate::session::elected(cs.remove(i)).1, id);
                lemma_handle_at(cs, i);
            }
        },
    }
}

proof fn lemma_same_order(cs: Seq<ClientHandle>, ds: Seq<ClientHandle>, id: u64)
    requires
        cs.len() == ds.len(),
        forall|j: int| 0 <= j < cs.len() ==> (#[trigger] cs[j]).id == (#[trigger] ds[j]).id,
    ensures
        crate::session::position(cs, id) == crate::session::position(ds, id),
{
    crate::session::lemma_position(cs, id);
    crate::session::lemma_position(ds, id);
    if let Some(i) = crate::session::position(cs, id) {
        assert(cs[i].id == ds[i].id);
    }
    if let Some(i) = crate::session::position(ds, id) {
        assert(cs[i].id == ds[i].id);
    }
}

/// Whether the event says that the client with this id leaves.
pub open spec fn leaves(e: Event, id: u64) -> bool {
    match e {
        Event::Packet { id: who, packet } => who == id && packet.msg_type == MsgType::Detach,
        Event::InputEnded { id: who } => who == id,
        Event::Gone { id: who } => who == id,
        _ => false,
    }
}

/// The books of a step from `s` to `t` with these actions balance for the client with this id.
spec fn books(s: SessionView, e: Event, t: SessionView, acts: Seq<ActionView>, id: u64) -> bool {
    let u = tally(acts, id);
    let after = handle_of(t.clients, id);
    &&& u.asks <= 1 && u.tells <= 1 && u.finishes <= 1 && u.closes <= 1
    &&& match handle_of(s.clients, id) {
        None => after is None && u == nothing(),
        Some(c) => match after {
            None => {
                &&& u.asks == 0
                &&& u.finishes + u.closes == 1
                &&& !leaves(e, id) ==> u.closes == 1 && c.queued + u.bytes + 4096 > 262144
                &&& leaves(e, id) ==> u.finishes == (if e is Gone {
                    0nat
                } else {
                    1
                })
            },
            Some(d) => {
                &&& !leaves(e, id)
                &&& u.closes == 0
                &&& u.finishes == (if e == (Event::Live { id }) && s.exit_status is Some {
                    1nat
                } else {
                    0
                })
                &&& d.id == id
                &&& d.flags == c.flags
                &&& d.state == (if e == (Event::Live { id }) {
                    ClientState::Live
                } else {
                    c.state
                })
                &&& u.asks == (if d.is_controller && !c.is_controller {
                    1nat
                } else {
                    0
                })
                &&& d.queued == (match e {
                    Event::Written { id: who, n } => if who != id {
                        c.queued as int
                    } else if n <= c.queued {
                        c.queued - n
                    } else {
                        0
                    },
                    _ => c.queued + u.bytes,
                })
            },
        },
    }
}

/// The books of every step balance for every client that may have been there before.
proof fn lemma_step_books(s: SessionView, e: Event, id: u64)
    requires
        s.wf(),
        possible(s, e),
        id < s.next_id,
    ensures
        books(s, e, step(s, e).0, step(s, e).1, id),
{
    match e {
        Event::Output { data } => lemma_output_books(s, data, id),
        Event::ChildExit { status } => lemma_exit_books(s, status, id),
        Event::Register { flags } => {
            let c = crate::session::newcomer(s.next_id, flags);
            crate::session::lemma_position(s.clients, id);
            lemma_handle_push(s.clients, c, id);
            lemma_elected_tally(s.clients.push(c), id);
        },
        Event::Live { id: who } => {
            crate::session::lemma_position(s.clients, id);
            lemma_live_books(s, who, id);
        },
        Event::Packet { id: who, packet } => lemma_packet_books(s, who, packet, id),
        Event::InputEnded { id: who } => {
            crate::session::lemma_position(s.clients, id);
            crate::session::lemma_position(s.clients, who);
            if let Some(i) = crate::session::position(s.clients, who) {
                lemma_removal_books(s.clients, i, ActionView::Finish { id: who }, id);
            }
        },
        Event::Gone { id: who } => {
            crate::session::lemma_position(s.clients, id);
            crate::session::lemma_position(s.clients, who);
            if let Some(i) = crate::session::position(s.clients, who) {
                lemma_removal_books(s.clients, i, ActionView::Close { id: who }, id);
            }
        },
        Event::Written { id: who, n } => {
            let t = step(s, e).0;
            crate::session::lemma_position(s.clients, id);
            crate::session::lemma_position(s.clients, who);
            if let Some(i) = crate::session::position(s.clients, who) {
                lemma_same_order(s.clients, t.clients, id);
                lemma_handle_at(s.clients, i);
            }
        },
        Event::PtyClosed => {
            crate::session::lemma_position(s.clients, id);
        },
    }
}

proof fn lemma_output_books(s: SessionView, data: Seq<u8>, id: u64)
    requires
        s.wf(),
        id < s.next_id,
    ensures
        books(
            s,
            Event::Output { data },
            crate::session::on_output(s, data).0,
            crate::session::on_output(s, data).1,
            id,
        ),
{
    let payloads = crate::protocol::chunked(data);
    let ps = crate::protocol::packets_with(MsgType::Content, payloads);
    let mid = crate::session::clients_after_all(s.clients, ps);
    crate::session::lemma_position(s.clients, id);
    crate::protocol::law_chunks_cover_data(data);
    lemma_output_tally(s.clients, payloads, s.next_id, id);
    crate::session::lemma_clients_after_all_keeps(s.clients, ps, s.next_id);
    lemma_elected_tally(mid, id);
    lemma_tally_append(
        crate::session::delivery_all(s.clients, ps),
        crate::session::elected(mid).1,
        id,
    );
}

proof fn lemma_exit_books(s: SessionView, status: u32, id: u64)
    requires
        s.wf(),
        id < s.next_id,
    ensures
        books(
            s,
            Event::ChildExit { status },
            crate::session::on_child_exit(s, status).0,
            crate::session::on_child_exit(s, status).1,
            id,
        ),
{
    crate::session::lemma_position(s.clients, id);
    if s.exit_status is None {
        let p = crate::session::exit_packet(status);
        let mid = crate::session::clients_after(s.clients, p, true);
        lemma_delivery_tally(s.clients, p, true, id);
        crate::session::lemma_clients_after_keeps(s.clients, p, true, s.next_id);
        lemma_elected_tally(mid, id);
        lemma_tally_append(
            crate::session::delivery(s.clients, p, true),
            crate::session::elected(mid).1,
            id,
        );
    }
}

proof fn lemma_packet_books(s: SessionView, who: u64, packet: PacketView, id: u64)
    requires
        s.wf(),
        id < s.next_id,
    ensures
        books(
            s,
            Event::Packet { id: who, packet },
            crate::session::on_packet(s, who, packet).0,
            crate::session::on_packet(s, who, packet).1,
            id,
        ),
{
    let acts = crate::session::on_packet(s, who, packet).1;
    crate::session::lemma_position(s.clients, id);
    crate::session::lemma_position(s.clients, who);
    if let Some(i) = crate::session::position(s.clients, who) {
        if packet.msg_type == MsgType::Detach {
            lemma_removal_books(s.clients, i, ActionView::Finish { id: who }, id);
        } else if acts.len() == 1 {
            lemma_tally_one(acts[0], id);
            assert(acts =~= seq![acts[0]]);
        }
    }
}

proof fn lemma_removal_books(cs: Seq<ClientHandle>, i: int, a: ActionView, id: u64)
    requires
        crate::session::ordered(cs),
        crate::session::bounded(cs),
        0 <= i < cs.len(),
    ensures
        ({
            let after = handle_of(crate::session::elected(cs.remove(i)).0, id);
            let t = tally(seq![a] + crate::session::elected(cs.remove(i)).1, id);
            let u = tally(crate::session::elected(cs.remove(i)).1, id);
            &&& t == both(share(a, id), u)
            &&& u == (Tally { bytes: 3 * u.asks, asks: u.asks, closes: u.closes, ..nothing() })
            &&& cs[i].id == id ==> after is None && u == nothing()
            &&& cs[i].id != id ==> match handle_of(cs, id) {
                None => after is None && u == nothing(),
                Some(c) => match after {
                    Some(d) => {
                        &&& u.closes == 0
                        &&& c.queued + u.bytes <= 262144
                        &&& d == (ClientHandle {
                            queued: (c.queued + u.bytes) as usize,
                            is_controller: d.is_controller,
                            ..c
                        })
                        &&& u.asks == (if d.is_controller && !c.is_controller {
                            1nat
                        } else {
                            0
                        })
                    },
                    None => u.closes == 1 && u.asks == 0 && c.queued + 3 > 262144,
                },
            }
        }),
{
    lemma_handle_removed(cs, i, id);
    assert(crate::session::bounded(cs.remove(i)));
    lemma_elected_tally(cs.remove(i), id);
    lemma_tally_one(a, id);
    lemma_tally_append(seq![a], crate::session::elected(cs.remove(i)).1, id);
}

proof fn lemma_live_books(s: SessionView, who: u64, id: u64)
    requires
        s.wf(),
    ensures
        ({
            let (t, acts) = crate::session::on_live(s, who);
            let u = tally(acts, id);
            let after = handle_of(t.clients, id);
            &&& u.asks <= 1 && u.tells <= 1 && u.finishes <= 1 && u.closes <= 1
            &&& match handle_of(s.clients, id) {
                None => after is None && u == nothing(),
                Some(c) => match after {
                    None => u.closes == 1 && u.finishes == 0 && u.tells == 0 && u.asks == 0
                        && c.queued + u.bytes + 4096 > 262144,
                    Some(d) => {
                        &&& u.closes == 0
                        &&& u.finishes == (if who == id && s.exit_status is Some {
                            1nat
                        } else {
                            0
                        })
                        &&& u.tells == u.finishes
                        &&& u.asks == (if d.is_controller && !c.is_controller {
                            1nat
                        } else {
                            0
                        })
                        &&& c.queued + u.bytes <= 262144
                        &&& d == (ClientHandle {
                            queued: (c.queued + u.bytes) as usize,
                            is_controller: d.is_controller,
                            state: if who == id {
                                ClientState::Live
                            } else {
                                c.state
                            },
                            ..c
                        })
                    },
                },
            }
        }),
{
    let (t, acts) = crate::session::on_live(s, who);
    crate::session::lemma_position(s.clients, who);
    crate::session::lemma_position(s.clients, id);
    if let Some(i) = crate::session::position(s.clients, who) {
        let c = ClientHandle { state: ClientState::Live, ..s.clients[i] };
        lemma_handle_at(s.clients, i);
        match s.exit_status {
            None => {
                lemma_same_order(s.clients, t.clients, id);
            },
            Some(status) => {
                let p = crate::session::exit_packet(status);
                if crate::session::fits(c, p) {
                    lemma_same_order(s.clients, t.clients, id);
                    let send = ActionView::Send { id: who, packet: p };
                    let finish = ActionView::Finish { id: who };
                    lemma_tally_one(send, id);
                    lemma_tally_push(seq![send], finish, id);
                    assert(acts =~= seq![send].push(finish));
                } else {
                    lemma_removal_books(s.clients, i, ActionView::Close { id: who }, id);
                }
            },
        }
    }
}

/// A connection is ended only with the attachment: an event that ends the connection of a client
/// leaves it unattached, unless the child has exited and the client has just been told; and a
/// client that is no longer attached has had its connection ended, exactly once.
pub proof fn law_connections_end_with_attachments(s: SessionView, e: Event, id: u64)
    requires
        s.wf(),
        possible(s, e),
        id < s.next_id,
    ensures
        ({
            let t = tally(step(s, e).1, id);
            let before = handle_of(s.clients, id);
            let after = handle_of(step(s, e).0.clients, id);
            &&& t.finishes + t.closes > 0 ==> before is Some && (after is None || (
            step(s, e).0.exit_status is Some && t.closes == 0 && t.tells == 1))
            &&& before is Some && after is None ==> t.finishes + t.closes == 1
            &&& before is None ==> after is None
        }),
{
    lemma_step_books(s, e, id);
    if let Event::Live { id: who } = e {
        lemma_live_books(s, who, id);
    }
}

/// Becoming live while the child runs calls for no action at all and changes nothing but the
/// client's state.
pub proof fn law_going_live_is_quiet(s: SessionView, id: u64)
    requires
        s.wf(),
        s.exit_status is None,
    ensures
        crate::session::on_live(s, id).1.len() == 0,
        crate::session::on_live(s, id).0.clients.len() == s.clients.len(),
        forall|j: int|
            0 <= j < s.clients.len() ==> #[trigger] crate::session::on_live(s, id).0.clients[j] == (
            ClientHandle {
                state: if s.clients[j].id == id {
                    ClientState::Live
                } else {
                    s.clients[j].state
                },
                ..s.clients[j]
            }),
{
    crate::session::lemma_position(s.clients, id);
}

/// Nobody is dropped without a cause: a client that an event detaches either left by itself, by a
/// detach, by the end of its input or by a failed connection, or had less room in its queue of 256
/// KiB than a packet may need. Whoever left by itself is let go gently, unless the connection had
/// failed; whoever could not keep up is cut off.
pub proof fn law_nobody_is_dropped_without_cause(s: SessionView, e: Event, id: u64)
    requires
        s.wf(),
        possible(s, e),
        id < s.next_id,
        handle_of(s.clients, id) is Some,
    ensures
        ({
            let t = tally(step(s, e).1, id);
            let c = handle_of(s.clients, id)->0;
            let gone = handle_of(step(s, e).0.clients, id) is None;
            let detached = (e matches Event::Packet { id: who, packet } && who == id
                && packet.msg_type == MsgType::Detach) || e == (Event::InputEnded { id });
            &&& detached ==> gone && t.finishes == 1 && t.closes == 0
            &&& e == (Event::Gone { id }) ==> gone && t.finishes == 0 && t.closes == 1
            &&& gone && !detached && e != (Event::Gone { id }) ==> t.closes == 1 && c.queued
                + t.bytes + 4096 > 262144
        }),
{
    lemma_step_books(s, e, id);
}

/// The books balance: what is queued for a client grows by exactly the bytes on the wire of the
/// packets that it is sent, shrinks by what has been written but not below nothing, and is never
/// over 256 KiB.
pub proof fn law_queue_is_what_was_sent(s: SessionView, e: Event, id: u64)
    requires
        s.wf(),
        possible(s, e),
        id < s.next_id,
        handle_of(step(s, e).0.clients, id) is Some,
    ensures
        ({
            let c = handle_of(s.clients, id)->0;
            let d = handle_of(step(s, e).0.clients, id)->0;
            let t = tally(step(s, e).1, id);
            &&& d.queued <= 262144
            &&& d.queued == (match e {
                Event::Written { id: who, n } => if who != id {
                    c.queued as int
                } else if n <= c.queued {
                    c.queued - n
                } else {
                    0
                },
                _ => c.queued + t.bytes,
            })
        }),
{
    lemma_step_books(s, e, id);
    law_step_keeps_invariant(s, e);
    crate::session::lemma_position(step(s, e).0.clients, id);
}

/// A client stays what it is: its flags never change, it becomes live when it is reported to be up
/// to date and never goes back.
pub proof fn law_clients_stay_themselves(s: SessionView, e: Event, id: u64)
    requires
        s.wf(),
        possible(s, e),
        id < s.next_id,
        handle_of(step(s, e).0.clients, id) is Some,
    ensures
        ({
            let c = handle_of(s.clients, id)->0;
            let d = handle_of(step(s, e).0.clients, id)->0;
            &&& handle_of(s.clients, id) is Some
            &&& d.flags == c.flags
            &&& d.state == ClientState::Live <==> c.state == ClientState::Live || e == (
            Event::Live { id })
        }),
{
    lemma_step_books(s, e, id);
}

/// A client is asked for its terminal size exactly when an event makes it the controller.
pub proof fn law_new_controller_is_asked(s: SessionView, e: Event, id: u64)
    requires
        s.wf(),
        possible(s, e),
        id < s.next_id,
    ensures
        ({
            let t = tally(step(s, e).1, id);
            let after = handle_of(step(s, e).0.clients, id);
            let promoted = after is Some && after->0.is_controller && !(handle_of(
                s.clients,
                id,
            )->0).is_controller;
            t.asks == (if promoted {
                1nat
            } else {
                0
            })
        }),
{
    lemma_step_books(s, e, id);
}

/// A client that attaches gets the next id, in order of attachment the last; it is not live yet,
/// and all that is queued for it is the question about its terminal size, where it becomes the
/// controller.
pub proof fn law_newcomer_as_it_is(s: SessionView, flags: ClientFlags)
    requires
        s.wf(),
        s.next_id < u64::MAX,
    ensures
        ({
            let (t, acts) = crate::session::on_register(s, flags);
            let eligible = !flags.readonly && !flags.low_priority;
            &&& t.next_id == s.next_id + 1
            &&& handle_of(t.clients, s.next_id) == Some(
                ClientHandle {
                    id: s.next_id,
                    flags,
                    state: ClientState::Replaying,
                    is_controller: eligible,
                    queued: if eligible {
                        3
                    } else {
                        0
                    },
                },
            )
            &&& t.clients.last() == handle_of(t.clients, s.next_id)->0
            &&& tally(acts, s.next_id) == (if eligible {
                Tally { bytes: 3, asks: 1, ..nothing() }
            } else {
                nothing()
            })
        }),
{
    let c = crate::session::newcomer(s.next_id, flags);
    let cs = s.clients.push(c);
    lemma_handle_push(s.clients, c, s.next_id);
    law_newcomer_is_attached(s, flags);
    let after = crate::session::on_register(s, flags).0.clients;
    lemma_elected_tally(cs, s.next_id);
    crate::session::lemma_elected_keeps(cs, (s.next_id + 1) as u64);
    crate::session::lemma_position(after, s.next_id);
    lemma_handle_at(after, after.len() - 1);
}

/// When the child exits, exactly the clients that are live and have room for the seven bytes are
/// told, each once.
pub proof fn law_exit_tells_the_live(s: SessionView, status: u32, id: u64)
    requires
        s.wf(),
        s.exit_status is None,
    ensures
        tally(crate::session::on_child_exit(s, status).1, id).tells == (match handle_of(
            s.clients,
            id,
        ) {
            Some(c) => if c.state == ClientState::Live && c.queued + 7 <= 262144 {
                1nat
            } else {
                0
            },
            None => 0,
        }),
{
    let p = crate::session::exit_packet(status);
    let mid = crate::session::clients_after(s.clients, p, true);
    lemma_delivery_tally(s.clients, p, true, id);
    crate::session::lemma_clients_after_keeps(s.clients, p, true, s.next_id);
    lemma_elected_tally(mid, id);
    lemma_tally_append(
        crate::session::delivery(s.clients, p, true),
        crate::session::elected(mid).1,
        id,
    );
}

/// A client that becomes live after the child has exited is told and let go, each exactly once,
/// where it has room for the seven bytes; where it has none it is cut off and not told. Nobody
/// else is told anything.
pub proof fn law_late_client_is_told_and_let_go(s: SessionView, who: u64, id: u64)
    requires
        s.wf(),
        s.exit_status is Some,
    ensures
        ({
            let t = tally(crate::session::on_live(s, who).1, id);
            match handle_of(s.clients, who) {
                Some(c) => if c.queued + 7 <= 262144 {
                    t == (if who == id {
                        Tally { bytes: 7, tells: 1, finishes: 1, ..nothing() }
                    } else {
                        nothing()
                    })
                } else {
                    &&& t.tells == 0 && t.finishes == 0
                    &&& who == id ==> t.closes == 1
                },
                None => t == nothing(),
            }
        }),
{
    lemma_live_books(s, who, id);
    crate::session::lemma_position(s.clients, who);
    if let Some(i) = crate::session::position(s.clients, who) {
        let p = crate::session::exit_packet(s.exit_status->0);
        let send = ActionView::Send { id: who, packet: p };
        let finish = ActionView::Finish { id: who };
        lemma_tally_one(send, id);
        lemma_tally_push(seq![send], finish, id);
        assert(seq![send, finish] =~= seq![send].push(finish));
        lemma_removal_books(s.clients, i, ActionView::Close { id: who }, id);
    }
}

/// What clients are told of the exit is how the child exited: the packet carries the status in
/// full, least significant byte first, and whoever reads it reads that status.
pub proof fn law_told_status_is_the_status(status: u32)
    ensures
        crate::session::exit_packet(status).msg_type == MsgType::Exit,
        crate::protocol::exit_status_of(crate::session::exit_packet(status)) == Some(status),
        crate::client::event_of(crate::session::exit_packet(status)) == Some(
            crate::client::ServerEventView::Exit(status),
        ),
        ({
            let p = crate::session::exit_packet(status).payload;
            &&& p.len() == 4
            &&& p[0] + 256 * p[1] + 65536 * p[2] + 16777216 * p[3] == status
        }),
{
    crate::protocol::law_exit_round_trip(status);
}

/// Whether an action is one that the event calls for, in the session that results from it.
pub open spec fn proper(s: SessionView, e: Event, t: SessionView, a: ActionView) -> bool {
    match a {
        ActionView::Send { packet, .. } => match packet.msg_type {
            MsgType::Content => e is Output && 0 < packet.payload.len() <= 4093,
            MsgType::ResizeReq => packet.payload.len() == 0,
            MsgType::Exit => t.exit_status is Some && packet.payload.len() == 4
                && crate::protocol::exit_status_of(packet) == t.exit_status && (e is ChildExit
                || e is Live),
            _ => false,
        },
        ActionView::Input { data } => e matches Event::Packet { id, packet } && packet.msg_type
            == MsgType::Content && data == packet.payload && (handle_of(s.clients, id) matches Some(
            c,
        ) && c.state == ClientState::Live && !c.flags.readonly),
        ActionView::SetSize { rows, cols } => e matches Event::Packet { id, packet }
            && packet.msg_type == MsgType::Resize && packet.payload.len() >= 4 && rows
            == packet.payload[0] + 256 * packet.payload[1] && cols == packet.payload[2] + 256
            * packet.payload[3] && (handle_of(s.clients, id) matches Some(c) && c.state
            == ClientState::Live && c.is_controller),
        _ => true,
    }
}

/// Every action has its reason. Only output is sent as content, in packets that fit; a question
/// about the size is empty; what is told of the exit is the status that the child exited with;
/// only what a live client that may type has sent is typed, as it was sent; and only the size
/// that the live controller announced is set.
pub proof fn law_every_action_has_its_reason(s: SessionView, e: Event, i: int)
    requires
        s.wf(),
        possible(s, e),
        0 <= i < step(s, e).1.len(),
    ensures
        proper(s, e, step(s, e).0, step(s, e).1[i]),
{
    let (t, acts) = step(s, e);
    match e {
        Event::Output { data } => {
            let payloads = crate::protocol::chunked(data);
            let ps = crate::protocol::packets_with(MsgType::Content, payloads);
            crate::protocol::law_chunks_cover_data(data);
            lemma_delivery_all_kinds(s.clients, payloads);
            lemma_elected_kinds(crate::session::clients_after_all(s.clients, ps));
        },
        Event::ChildExit { status } => {
            law_told_status_is_the_status(status);
            let p = crate::session::exit_packet(status);
            lemma_elected_kinds(crate::session::clients_after(s.clients, p, true));
            if s.exit_status is None {
                assert(acts =~= crate::session::delivery(s.clients, p, true)
                    + crate::session::elected(
                    crate::session::clients_after(s.clients, p, true),
                ).1);
            }
        },
        Event::Register { flags } => {
            lemma_elected_kinds(s.clients.push(crate::session::newcomer(s.next_id, flags)));
        },
        Event::Live { id } => {
            if let Some(status) = s.exit_status {
                law_told_status_is_the_status(status);
            }
            if let Some(k) = crate::session::position(s.clients, id) {
                lemma_elected_kinds(s.clients.remove(k));
            }
        },
        Event::Packet { id, packet } => {
            if let Some(k) = crate::session::position(s.clients, id) {
                lemma_elected_kinds(s.clients.remove(k));
            }
        },
        Event::InputEnded { id } => {
            if let Some(k) = crate::session::position(s.clients, id) {
                lemma_elected_kinds(s.clients.remove(k));
            }
        },
        Event::Gone { id } => {
            if let Some(k) = crate::session::position(s.clients, id) {
                lemma_elected_kinds(s.clients.remove(k));
            }
        },
        _ => {},
    }
}

proof fn lemma_elected_kinds(cs: Seq<ClientHandle>)
    ensures
        forall|i: int|
            0 <= i < crate::session::elected(cs).1.len() ==> match (
            #[trigger] crate::session::elected(cs).1[i]) {
                ActionView::Send { packet, .. } => packet.msg_type == MsgType::ResizeReq
                    && packet.payload.len() == 0,
                ActionView::Close { .. } => true,
                _ => false,
            },
    decreases cs.len(),
{
    crate::session::lemma_last_eligible(cs);
    if let Some(k) = crate::session::last_eligible(cs) {
        if !cs[k].is_controller && !crate::session::fits(
            cs[k],
            crate::session::resize_request(),
        ) {
            lemma_elected_kinds(cs.remove(k));
        }
    }
}

proof fn lemma_delivery_all_kinds(cs: Seq<ClientHandle>, payloads: Seq<Seq<u8>>)
    requires
        forall|i: int| 0 <= i < payloads.len() ==> 0 < (#[trigger] payloads[i]).len() <= 4093,
    ensures
        ({
            let ps = crate::protocol::packets_with(MsgType::Content, payloads);
            let acts = crate::session::delivery_all(cs, ps);
            forall|i: int|
                0 <= i < acts.len() ==> match (#[trigger] acts[i]) {
                    ActionView::Send { packet, .. } => packet.msg_type == MsgType::Content && 0
                        < packet.payload.len() <= 4093,
                    ActionView::Close { .. } => true,
                    _ => false,
                }
        }),
    decreases payloads.len(),
{
    if payloads.len() > 0 {
        let ps = crate::protocol::packets_with(MsgType::Content, payloads);
        let init = payloads.drop_last();
        assert(ps.drop_last() =~= crate::protocol::packets_with(MsgType::Content, init));
        assert forall|i: int| 0 <= i < init.len() implies 0 < (#[trigger] init[i]).len()
            <= 4093 by {
            assert(init[i] == payloads[i]);
        }
        lemma_delivery_all_kinds(cs, init);
        assert(ps.last().payload == payloads[payloads.len() - 1]);
    }
}

/// Packets of a client do what they are for and no more: input is typed and a size is set, each
/// exactly where it counts; a detach lets go; anything else is ignored, and so is everything from
/// an id that is not attached.
pub proof fn law_packets_of_clients(s: SessionView, id: u64, p: PacketView)
    requires
        s.wf(),
    ensures
        ({
            let (t, acts) = crate::session::on_packet(s, id, p);
            match handle_of(s.clients, id) {
                None => t == s && acts.len() == 0,
                Some(c) => {
                    &&& p.msg_type == MsgType::Content ==> t == s && acts == (if c.state
                        == ClientState::Live && !c.flags.readonly {
                        seq![ActionView::Input { data: p.payload }]
                    } else {
                        Seq::empty()
                    })
                    &&& p.msg_type == MsgType::Resize ==> t == s && acts == (if c.state
                        == ClientState::Live && c.is_controller && p.payload.len() >= 4 {
                        seq![
                            ActionView::SetSize {
                                rows: (p.payload[0] + 256 * p.payload[1]) as u16,
                                cols: (p.payload[2] + 256 * p.payload[3]) as u16,
                            },
                        ]
                    } else {
                        Seq::empty()
                    })
                    &&& p.msg_type != MsgType::Content && p.msg_type != MsgType::Resize
                        && p.msg_type != MsgType::Detach ==> t == s && acts.len() == 0
                },
            }
        }),
{
}

/// A step touches only what it is about: the size of the recording and the child's process id
/// never change; the recording changes with output alone, the next id with an attachment alone;
/// the exit status is what the child exited with first; and the terminal, once closed, stays
/// closed.
pub proof fn law_steps_touch_only_their_own(s: SessionView, e: Event)
    requires
        s.wf(),
        possible(s, e),
    ensures
        ({
            let t = step(s, e).0;
            &&& t.cap == s.cap
            &&& t.child_pid == s.child_pid
            &&& e !is Output ==> t.ring == s.ring
            &&& t.next_id == (if e is Register {
                s.next_id + 1
            } else {
                s.next_id as int
            })
            &&& t.pty_eof == (s.pty_eof || e is PtyClosed)
            &&& t.exit_status == (match e {
                Event::ChildExit { status } => if s.exit_status is None {
                    Some(status)
                } else {
                    s.exit_status
                },
                _ => s.exit_status,
            })
        }),
{
    if let Event::Live { id } = e {
        crate::session::lemma_position(s.clients, id);
    }
}

/// A client counts as told exactly when one is sent the exit status, then or before.
pub proof fn law_notified_means_told(s: SessionView, e: Event)
    requires
        s.wf(),
        possible(s, e),
    ensures
        step(s, e).0.exit_notified <==> s.exit_notified || exists|i: int|
            0 <= i < step(s, e).1.len() && ((#[trigger] step(s, e).1[i]) matches ActionView::Send {
                packet,
                ..
            } && packet.msg_type == MsgType::Exit),
{
    let (t, acts) = step(s, e);
    if t.exit_notified && !s.exit_notified {
        lemma_notified_means_told(s, e);
        let status = t.exit_status->0;
        let p = crate::session::exit_packet(status);
        let i = choose|i: int| 0 <= i < acts.len() && sends(#[trigger] acts[i], p);
        law_told_status_is_the_status(status);
        assert(acts[i] matches ActionView::Send { packet, .. } && packet.msg_type == MsgType::Exit);
    }
    if exists|i: int|
        0 <= i < acts.len() && ((#[trigger] acts[i]) matches ActionView::Send { packet, .. }
            && packet.msg_type == MsgType::Exit) {
        let i = choose|i: int|
            0 <= i < acts.len() && ((#[trigger] acts[i]) matches ActionView::Send { packet, .. }
                && packet.msg_type == MsgType::Exit);
        law_every_action_has_its_reason(s, e, i);
        if let Event::ChildExit { status } = e {
            let p = crate::session::exit_packet(status);
            let d = crate::session::delivery(s.clients, p, true);
            lemma_elected_kinds(crate::session::clients_after(s.clients, p, true));
            if s.exit_status is None {
                assert(i < d.len());
                assert(acts[i] == d[i]);
                lemma_delivery_means_live(s.clients, p, i);
            }
        }
        if let Event::Live { id } = e {
            crate::session::lemma_position(s.clients, id);
            if let Some(k) = crate::session::position(s.clients, id) {
                lemma_elected_kinds(s.clients.remove(k));
            }
        }
    }
}

proof fn lemma_delivery_means_live(cs: Seq<ClientHandle>, p: PacketView, i: int)
    requires
        0 <= i < crate::session::delivery(cs, p, true).len(),
        crate::session::delivery(cs, p, true)[i] is Send,
    ensures
        crate::session::reaches_live(cs, p),
    decreases cs.len(),
{
    if cs.len() == 0 {
        assert(crate::session::delivery(cs, p, true) =~= Seq::empty());
    } else {
        let init = cs.drop_last();
        assert(cs =~= init.push(cs.last()));
        crate::session::lemma_clients_after_push(init, cs.last(), p, true);
        let d = crate::session::delivery(init, p, true);
        if i < d.len() {
            assert(crate::session::delivery(cs, p, true)[i] == d[i]);
            lemma_delivery_means_live(init, p, i);
            let k = choose|k: int|
                0 <= k < init.len() && (#[trigger] init[k]).state == ClientState::Live
                    && crate::session::fits(init[k], p);
            assert(cs[k] == init[k]);
        } else {
            assert(cs[cs.len() - 1].state == ClientState::Live);
        }
    }
}

/// The server is done exactly when the child has exited, nobody is attached, and somebody was
/// told.
pub proof fn law_when_the_server_ends(s: SessionView)
    ensures
        s.finished() <==> s.exit_status is Some && s.clients.len() == 0 && s.exit_notified,
{
}

/// What always holds of a session, said plainly: ids rise in order of attachment and are all
/// used up, no queue is over 256 KiB, the recording is not longer than what is kept, and nobody
/// counts as told before the child has exited.
pub proof fn law_invariant_in_words(s: SessionView, i: int, j: int)
    requires
        s.wf(),
        0 <= i < j < s.clients.len(),
    ensures
        s.clients[i].id < s.clients[j].id < s.next_id,
        s.clients[i].queued <= 262144,
        s.clients[j].queued <= 262144,
        s.ring.len() <= s.cap,
        s.exit_notified ==> s.exit_status is Some,
{
}

/// How a session introduces itself: version 1, the two process ids, whether the child runs and
/// else the low byte of its status, how many clients there are (as many as can be counted), and
/// how much of the recording is in use.
pub proof fn law_introduction(s: SessionView, server_pid: u32)
    requires
        s.wf(),
    ensures
        ({
            let w = crate::session::welcome_of_session(s, server_pid);
            &&& w.version == 1
            &&& w.server_pid == server_pid
            &&& w.child_pid == s.child_pid
            &&& w.child_running <==> s.exit_status is None
            &&& w.exit_status == (match s.exit_status {
                Some(status) => status % 256,
                None => 0,
            })
            &&& w.client_count == (if s.clients.len() < 65536 {
                s.clients.len() as int
            } else {
                65535
            })
            &&& s.cap <= u32::MAX ==> w.ring_size == s.cap && w.ring_used == s.ring.len()
        }),
{
    if let Some(status) = s.exit_status {
        assert(status as u8 == status % 256) by (bit_vector);
    }
}

/// Output reaches whoever is attached afterwards whole and in order, in whatever state the client
/// is, and reaches nobody else; and all of it is recorded, as far as the recording goes.
pub proof fn law_output_is_recorded_and_fanned_out(s: SessionView, data: Seq<u8>, id: u64)
    requires
        s.wf(),
        handle_of(crate::session::on_output(s, data).0.clients, id) is Some,
    ensures
        received(crate::session::on_output(s, data).1, id) == data,
        ({
            let ring = crate::session::on_output(s, data).0.ring;
            let all = s.ring + data;
            &&& ring.len() == (if all.len() <= s.cap {
                all.len()
            } else {
                s.cap
            })
            &&& forall|k: int|
                0 <= k < ring.len() ==> #[trigger] ring[k] == all[all.len() - ring.len() + k]
        }),
{
    let e = Event::Output { data };
    law_step_keeps_invariant(s, e);
    crate::session::lemma_position(step(s, e).0.clients, id);
    law_step_shows_output(s, e, id);
}

/// Actions are seen as they are, one by one.
pub proof fn law_actions_as_seen(actions: Seq<crate::session::Action>, i: int)
    requires
        0 <= i < actions.len(),
    ensures
        crate::session::action_views(actions).len() == actions.len(),
        match actions[i] {
            crate::session::Action::Send { id, packet } => crate::session::action_views(actions)[i]
                == (ActionView::Send { id, packet: packet@ }),
            crate::session::Action::Finish { id } => crate::session::action_views(actions)[i] == (
            ActionView::Finish { id }),
            crate::session::Action::Close { id } => crate::session::action_views(actions)[i] == (
            ActionView::Close { id }),
            crate::session::Action::Input { data } => crate::session::action_views(actions)[i] == (
            ActionView::Input { data: data@ }),
            crate::session::Action::SetSize { rows, cols } => crate::session::action_views(
                actions,
            )[i] == (ActionView::SetSize { rows, cols }),
        },
{
}

} // verus!
