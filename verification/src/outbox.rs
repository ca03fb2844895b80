//! What is written to one client, in order: the recorded output, then whatever was queued.

use crate::protocol::{replay_packets, Packet, PacketView};
use std::collections::VecDeque;
use vstd::prelude::*;

verus! {

/// What is still to be written to a client.
#[derive(Debug)]
pub struct Outbox {
    /// Packets of the recorded output, with the end mark.
    replay: VecDeque<Packet>,
    /// Whether the session has been told that the client is up to date.
    live: bool,
    /// Packets that the session queued.
    queue: VecDeque<Packet>,
    /// Whether the connection ends once the queue is empty.
    finishing: bool,
}

/// What an [`Outbox`] is.
pub struct OutboxView {
    pub replay: Seq<PacketView>,
    pub live: bool,
    pub queue: Seq<PacketView>,
    pub finishing: bool,
}

impl View for Outbox {
    type V = OutboxView;

    closed spec fn view(&self) -> OutboxView {
        OutboxView {
            replay: crate::protocol::packet_views(self.replay@),
            live: self.live,
            queue: crate::protocol::packet_views(self.queue@),
            finishing: self.finishing,
        }
    }
}

/// What to do next for a client.
#[derive(Debug)]
pub enum OutStep {
    /// Write a packet of the recorded output.
    Replay(Packet),
    /// Tell the session that the client is up to date.
    ReportLive,
    /// Write a packet that was queued, and tell the session that it is written.
    Send(Packet),
    /// Wait for something to be queued.
    Wait,
    /// Close the connection.
    Close,
}

/// What an [`OutStep`] is.
pub enum OutStepView {
    Replay(PacketView),
    ReportLive,
    Send(PacketView),
    Wait,
    Close,
}

impl View for OutStep {
    type V = OutStepView;

    open spec fn view(&self) -> OutStepView {
        match *self {
            OutStep::Replay(p) => OutStepView::Replay(p@),
            OutStep::ReportLive => OutStepView::ReportLive,
            OutStep::Send(p) => OutStepView::Send(p@),
            OutStep::Wait => OutStepView::Wait,
            OutStep::Close => OutStepView::Close,
        }
    }
}

/// The next step for a client and what remains: all of the recorded output, then the report,
/// then the queue in order, then the end where it is wanted.
pub open spec fn out_next(s: OutboxView) -> (OutboxView, OutStepView) {
    if s.replay.len() > 0 {
        (OutboxView { replay: s.replay.drop_first(), ..s }, OutStepView::Replay(s.replay[0]))
    } else if !s.live {
        (OutboxView { live: true, ..s }, OutStepView::ReportLive)
    } else if s.queue.len() > 0 {
        (OutboxView { queue: s.queue.drop_first(), ..s }, OutStepView::Send(s.queue[0]))
    } else if s.finishing {
        (s, OutStepView::Close)
    } else {
        (s, OutStepView::Wait)
    }
}

/// The first packet of a queue, taken out.
fn take_first(q: &mut VecDeque<Packet>) -> (r: Option<Packet>)
    ensures
        old(q)@.len() == 0 ==> r is None && final(q)@ == old(q)@,
        old(q)@.len() > 0 ==> (r matches Some(p) && p@ == crate::protocol::packet_views(
            old(q)@,
        )[0]) && crate::protocol::packet_views(final(q)@) == crate::protocol::packet_views(
            old(q)@,
        ).drop_first(),
{
    let ghost before = q@;
    let r = q.pop_front();
    assert(before.len() > 0 ==> crate::protocol::packet_views(q@)
        =~= crate::protocol::packet_views(before).drop_first());
    r
}

impl Outbox {
    /// What is to be written to a client that has just attached and is given this recording.
    pub fn new(snapshot: &[u8]) -> (o: Outbox)
        ensures
            o@ == (OutboxView {
                replay: crate::protocol::replay_of(snapshot@),
                live: false,
                queue: Seq::empty(),
                finishing: false,
            }),
    {
        let packets: Vec<Packet> = replay_packets(snapshot);
        let mut replay: VecDeque<Packet> = VecDeque::new();
        let mut i: usize = 0;
        assert(crate::protocol::packet_views(replay@) =~= crate::protocol::packet_views(
            packets@,
        ).take(0));
        while i < packets.len()
            invariant
                i <= packets@.len(),
                crate::protocol::packet_views(replay@) == crate::protocol::packet_views(
                    packets@,
                ).take(i as int),
            decreases packets@.len() - i,
        {
            let ghost before = replay@;
            replay.push_back(packets[i].clone());
            assert(crate::protocol::packet_views(replay@) =~= crate::protocol::packet_views(
                before,
            ).push(packets@[i as int]@));
            i = i + 1;
            assert(crate::protocol::packet_views(replay@) =~= crate::protocol::packet_views(
                packets@,
            ).take(i as int));
        }
        let queue: VecDeque<Packet> = VecDeque::new();
        assert(crate::protocol::packet_views(replay@) =~= crate::protocol::replay_of(snapshot@));
        assert(crate::protocol::packet_views(queue@) =~= Seq::<PacketView>::empty());
        Outbox { replay, live: false, queue, finishing: false }
    }

    /// Queue a packet. After the end has been ordered nothing more is queued.
    pub fn enqueue(&mut self, packet: Packet)
        ensures
            final(self)@ == (if old(self)@.finishing {
                old(self)@
            } else {
                OutboxView { queue: old(self)@.queue.push(packet@), ..old(self)@ }
            }),
    {
        if !self.finishing {
            let ghost before = self.queue@;
            self.queue.push_back(packet);
            assert(crate::protocol::packet_views(self.queue@) =~= crate::protocol::packet_views(
                before,
            ).push(packet@));
        }
    }

    /// Order the end of the connection, after what is queued.
    pub fn finish(&mut self)
        ensures
            final(self)@ == (OutboxView { finishing: true, ..old(self)@ }),
    {
        self.finishing = true;
    }

    /// What to do next.
    pub fn next_step(&mut self) -> (step: OutStep)
        ensures
            final(self)@ == out_next(old(self)@).0,
            step@ == out_next(old(self)@).1,
    {
        if let Some(p) = take_first(&mut self.replay) {
            return OutStep::Replay(p);
        }
        if !self.live {
            self.live = true;
            return OutStep::ReportLive;
        }
        if let Some(p) = take_first(&mut self.queue) {
            return OutStep::Send(p);
        }
        if self.finishing {
            OutStep::Close
        } else {
            OutStep::Wait
        }
    }
}

/// All steps that can be taken without anything new being queued.
pub open spec fn out_steps(s: OutboxView) -> Seq<OutStepView>
    decreases
            s.replay.len() + s.queue.len() + (if s.live {
                0int
            } else {
                1
            }),
{
    match out_next(s).1 {
        OutStepView::Wait => Seq::empty(),
        OutStepView::Close => seq![OutStepView::Close],
        step => seq![step] + out_steps(out_next(s).0),
    }
}

/// The packets that the steps write.
pub open spec fn wire(steps: Seq<OutStepView>) -> Seq<PacketView>
    decreases steps.len(),
{
    if steps.len() == 0 {
        Seq::empty()
    } else {
        (match steps[0] {
            OutStepView::Replay(p) => seq![p],
            OutStepView::Send(p) => seq![p],
            _ => Seq::empty(),
        }) + wire(steps.drop_first())
    }
}

/// On the wire the recorded output comes first and whole, and whatever was queued comes after it
/// in the order in which it was queued: no live output before the end mark of the recording, and
/// an ordered end only after everything.
pub proof fn law_recording_comes_first(s: OutboxView)
    ensures
        wire(out_steps(s)) == s.replay + s.queue,
        s.finishing <==> out_steps(s).len() > 0 && out_steps(s).last() == OutStepView::Close,
    decreases
            s.replay.len() + s.queue.len() + (if s.live {
                0int
            } else {
                1
            }),
{
    let (t, step) = out_next(s);
    match step {
        OutStepView::Wait => {
            assert(s.replay + s.queue =~= Seq::<PacketView>::empty());
        },
        OutStepView::Close => {
            reveal_with_fuel(wire, 2);
            assert(seq![OutStepView::Close].drop_first() =~= Seq::<OutStepView>::empty());
            assert(wire(out_steps(s)) =~= s.replay + s.queue);
        },
        _ => {
            law_recording_comes_first(t);
            let rest = out_steps(t);
            assert((seq![step] + rest).drop_first() =~= rest);
            assert(wire(out_steps(s)) =~= s.replay + s.queue);
            if rest.len() > 0 {
                assert((seq![step] + rest).last() == rest.last());
            }
        },
    }
}

/// All that is done for a client, step by step: the recording, packet by packet; then once the
/// report that the client is up to date, unless it was made; then what was queued, in order; then
/// the end where it was ordered.
pub proof fn law_steps_in_order(s: OutboxView, i: int)
    requires
        0 <= i < out_steps(s).len(),
    ensures
        ({
            let r = s.replay.len() as int;
            let q = s.queue.len() as int;
            let l = if s.live {
                0int
            } else {
                1
            };
            let step = out_steps(s)[i];
            &&& out_steps(s).len() == r + l + q + (if s.finishing {
                1int
            } else {
                0
            })
            &&& i < r ==> step == OutStepView::Replay(s.replay[i])
            &&& r <= i < r + l ==> step == OutStepView::ReportLive
            &&& r + l <= i < r + l + q ==> step == OutStepView::Send(s.queue[i - r - l])
            &&& i == r + l + q ==> step == OutStepView::Close
        }),
    decreases
            s.replay.len() + s.queue.len() + (if s.live {
                0int
            } else {
                1
            }),
{
    let (t, step) = out_next(s);
    match step {
        OutStepView::Wait => {},
        OutStepView::Close => {},
        _ => {
            let rest = out_steps(t);
            lemma_number_of_steps(t);
            assert(out_steps(s) =~= seq![step] + rest);
            if i > 0 {
                law_steps_in_order(t, i - 1);
                assert(out_steps(s)[i] == rest[i - 1]);
            }
        },
    }
}

proof fn lemma_number_of_steps(s: OutboxView)
    ensures
        out_steps(s).len() == s.replay.len() + s.queue.len() + (if s.live {
            0int
        } else {
            1
        }) + (if s.finishing {
            1int
        } else {
            0
        }),
    decreases
            s.replay.len() + s.queue.len() + (if s.live {
                0int
            } else {
                1
            }),
{
    let (t, step) = out_next(s);
    match step {
        OutStepView::Wait => {},
        OutStepView::Close => {},
        _ => {
            lemma_number_of_steps(t);
        },
    }
}

/// Looking for the next step loses nothing: what remains after it is what was there, without the
/// packet that it writes.
pub proof fn law_next_step_takes_one(s: OutboxView)
    ensures
        ({
            let (t, step) = out_next(s);
            &&& t.finishing == s.finishing
            &&& match step {
                OutStepView::Replay(p) => s.replay == seq![p] + t.replay && t.queue == s.queue
                    && t.live == s.live,
                OutStepView::ReportLive => s.replay.len() == 0 && !s.live && t.live && t.replay
                    == s.replay && t.queue == s.queue,
                OutStepView::Send(p) => s.replay.len() == 0 && s.live && s.queue == seq![p]
                    + t.queue && t.replay == s.replay && t.live,
                OutStepView::Wait => t == s && s.replay.len() == 0 && s.live && s.queue.len() == 0
                    && !s.finishing,
                OutStepView::Close => t == s && s.replay.len() == 0 && s.live && s.queue.len() == 0
                    && s.finishing,
            }
        }),
{
}

} // verus!
