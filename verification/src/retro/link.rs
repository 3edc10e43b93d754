//! Where a core's serial traffic goes: the link cable and wireless adapter packets that
//! gpSP hands the frontend through libretro's netpacket interface.
use std::collections::VecDeque;
use vstd::prelude::*;

verus! {

/// The packets of a queue, as byte sequences.
pub open spec fn packets(q: Seq<Vec<u8>>) -> Seq<Seq<u8>> {
    Seq::new(q.len(), |i: int| q[i]@)
}

/// A transport for a core's packets. The real one runs over the OS's private WiFi link;
/// `LoopbackLink` runs in memory, so everything above it can be exercised with no network,
/// no peer and no device.
pub trait LinkChannel {
    /// `flags` is libretro's own — `NETPACKET_RELIABLE`, `_UNSEQUENCED`, `_FLUSH_HINT` — so a
    /// transport that cannot honour one should fall back to reliable delivery rather than
    /// drop silently.
    fn send(&mut self, flags: i32, buf: &[u8]);

    /// Must never block: this is called once a frame. `None` means nothing has arrived yet,
    /// never an error.
    fn try_recv(&mut self) -> Option<Vec<u8>>;

    /// Whether the other end is known to have gone. Only a transport that can tell a closed
    /// wire from a quiet one says yes.
    fn is_closed(&self) -> (r: bool)
        default_ensures
            !r,
    {
        false
    }
}

/// Hands back whatever was put in, in the order it was sent.
pub struct LoopbackLink {
    queue: VecDeque<Vec<u8>>,
}

impl View for LoopbackLink {
    type V = Seq<Seq<u8>>;

    closed spec fn view(&self) -> Seq<Seq<u8>> {
        packets(self.queue@)
    }
}

impl LoopbackLink {
    pub fn new() -> (r: Self)
        ensures
            r@ == Seq::<Seq<u8>>::empty(),
    {
        let r = LoopbackLink { queue: VecDeque::new() };
        assert(r@ =~= Seq::<Seq<u8>>::empty());
        r
    }
}

impl Default for LoopbackLink {
    fn default() -> (r: Self)
        ensures
            r@ == Seq::<Seq<u8>>::empty(),
    {
        LoopbackLink::new()
    }
}

fn bytes_of(buf: &[u8]) -> (r: Vec<u8>)
    ensures
        r@ == buf@,
{
    let mut out: Vec<u8> = Vec::new();
    let mut i: usize = 0;
    while i < buf.len()
        invariant
            i <= buf.len(),
            out@ == buf@.take(i as int),
        decreases buf.len() - i,
    {
        out.push(buf[i]);
        i += 1;
        assert(out@ =~= buf@.take(i as int));
    }
    assert(buf@.take(buf.len() as int) =~= buf@);
    out
}

impl LinkChannel for LoopbackLink {
    fn send(&mut self, flags: i32, buf: &[u8])
        ensures
            final(self)@ == old(self)@.push(buf@),
    {
        self.queue.push_back(bytes_of(buf));
        assert(packets(self.queue@) =~= packets(old(self).queue@).push(buf@));
    }

    fn try_recv(&mut self) -> (r: Option<Vec<u8>>)
        ensures
            match r {
                Some(p) => old(self)@.len() > 0 && p@ == old(self)@[0] && final(self)@ == old(
                    self,
                )@.drop_first(),
                None => old(self)@.len() == 0 && final(self)@ == old(self)@,
            },
    {
        let r = self.queue.pop_front();
        assert(packets(self.queue@) =~= if r is Some {
            packets(old(self).queue@).drop_first()
        } else {
            packets(old(self).queue@)
        });
        r
    }
}

/// The core's end of a link session: packets queue in both directions without being
/// dropped, and a flag says whether a session is live at all. One owner changes it; a
/// caller that shares it between threads puts it behind a lock.
pub struct Link {
    /// Packets that arrived from the peer, waiting to reach the core.
    inbound: VecDeque<Vec<u8>>,
    /// Packets the core produced, waiting to reach the peer.
    outbound: VecDeque<Vec<u8>>,
    /// Whether a session is actually live, as opposed to a core merely having registered the
    /// netpacket interface.
    active: bool,
}

/// A link's two queues, oldest first, and whether its session is live.
pub struct LinkModel {
    pub inbound: Seq<Seq<u8>>,
    pub outbound: Seq<Seq<u8>>,
    pub active: bool,
}

impl View for Link {
    type V = LinkModel;

    closed spec fn view(&self) -> LinkModel {
        LinkModel {
            inbound: packets(self.inbound@),
            outbound: packets(self.outbound@),
            active: self.active,
        }
    }
}

impl Default for Link {
    fn default() -> (r: Self)
        ensures
            r@ == (LinkModel {
                inbound: Seq::empty(),
                outbound: Seq::empty(),
                active: false,
            }),
    {
        Link::new()
    }
}

impl Link {
    /// No session, nothing queued.
    pub fn new() -> (r: Self)
        ensures
            r@ == (LinkModel {
                inbound: Seq::empty(),
                outbound: Seq::empty(),
                active: false,
            }),
    {
        let r = Link { inbound: VecDeque::new(), outbound: VecDeque::new(), active: false };
        assert(r@.inbound =~= Seq::<Seq<u8>>::empty());
        assert(r@.outbound =~= Seq::<Seq<u8>>::empty());
        r
    }

    /// A packet that arrived from the peer. The transport calls this; the core's side drains
    /// it back out.
    pub fn push_inbound(&mut self, packet: Vec<u8>)
        ensures
            final(self)@ == (LinkModel { inbound: old(self)@.inbound.push(packet@), ..old(self)@ }),
    {
        let ghost p = packet@;
        self.inbound.push_back(packet);
        assert(packets(self.inbound@) =~= packets(old(self).inbound@).push(p));
    }

    /// Pop the next packet waiting for the core, in the order it arrived.
    pub fn take_inbound(&mut self) -> (r: Option<Vec<u8>>)
        ensures
            match r {
                Some(p) => old(self)@.inbound.len() > 0 && p@ == old(self)@.inbound[0]
                    && final(self)@ == (LinkModel {
                    inbound: old(self)@.inbound.drop_first(),
                    ..old(self)@
                }),
                None => old(self)@.inbound.len() == 0 && final(self)@ == old(self)@,
            },
    {
        let r = self.inbound.pop_front();
        assert(packets(self.inbound@) =~= if r is Some {
            packets(old(self).inbound@).drop_first()
        } else {
            packets(old(self).inbound@)
        });
        r
    }

    /// The core handed this to the `send` trampoline. The transport is what actually puts it
    /// on the wire.
    pub fn push_outbound(&mut self, packet: Vec<u8>)
        ensures
            final(self)@ == (LinkModel { outbound: old(self)@.outbound.push(packet@), ..old(self)@ }),
    {
        let ghost p = packet@;
        self.outbound.push_back(packet);
        assert(packets(self.outbound@) =~= packets(old(self).outbound@).push(p));
    }

    /// Pop the next packet the core produced, in the order it was sent.
    pub fn take_outbound(&mut self) -> (r: Option<Vec<u8>>)
        ensures
            match r {
                Some(p) => old(self)@.outbound.len() > 0 && p@ == old(self)@.outbound[0]
                    && final(self)@ == (LinkModel {
                    outbound: old(self)@.outbound.drop_first(),
                    ..old(self)@
                }),
                None => old(self)@.outbound.len() == 0 && final(self)@ == old(self)@,
            },
    {
        let r = self.outbound.pop_front();
        assert(packets(self.outbound@) =~= if r is Some {
            packets(old(self).outbound@).drop_first()
        } else {
            packets(old(self).outbound@)
        });
        r
    }

    /// Whether a session is actually live right now.
    pub fn is_active(&self) -> (r: bool)
        ensures
            r == self@.active,
    {
        self.active
    }

    /// Mark the session live or ended. Ending it does not clear either queue itself — see
    /// `clear` for that — so a transport that is winding down may still flush what is left.
    pub fn set_active(&mut self, active: bool)
        ensures
            final(self)@ == (LinkModel { active, ..old(self)@ }),
    {
        self.active = active;
    }

    /// Empties both queues, so a packet from one session is never mistaken for traffic
    /// belonging to the next.
    pub fn clear(&mut self)
        ensures
            final(self)@ == (LinkModel {
                inbound: Seq::empty(),
                outbound: Seq::empty(),
                ..old(self)@
            }),
    {
        self.inbound.clear();
        self.outbound.clear();
        assert(packets(self.inbound@) =~= Seq::<Seq<u8>>::empty());
        assert(packets(self.outbound@) =~= Seq::<Seq<u8>>::empty());
    }
}

/// A queue after a run of operations, `Some(p)` pushing `p` and `None` taking the oldest
/// packet if there is one; with the packets the takes handed out, in order.
pub open spec fn run_queue(q: Seq<Seq<u8>>, ops: Seq<Option<Seq<u8>>>) -> (Seq<Seq<u8>>, Seq<Seq<u8>>)
    decreases ops.len(),
{
    if ops.len() == 0 {
        (q, Seq::empty())
    } else {
        let (r, out) = run_queue(q, ops.drop_last());
        match ops.last() {
            Some(p) => (r.push(p), out),
            None => if r.len() > 0 {
                (r.drop_first(), out.push(r[0]))
            } else {
                (r, out)
            },
        }
    }
}

/// Everything pushed, in order.
pub open spec fn pushed(ops: Seq<Option<Seq<u8>>>) -> Seq<Seq<u8>>
    decreases ops.len(),
{
    if ops.len() == 0 {
        Seq::empty()
    } else {
        match ops.last() {
            Some(p) => pushed(ops.drop_last()).push(p),
            None => pushed(ops.drop_last()),
        }
    }
}

/// A queue is first in, first out: what the takes handed out, followed by what is still
/// waiting, is what was waiting at the start followed by everything pushed, in order. No
/// packet is lost, none is made up, and none overtakes another.
pub proof fn law_queue_is_fifo(q: Seq<Seq<u8>>, ops: Seq<Option<Seq<u8>>>)
    ensures
        run_queue(q, ops).1 + run_queue(q, ops).0 == q + pushed(ops),
    decreases ops.len(),
{
    if ops.len() > 0 {
        law_queue_is_fifo(q, ops.drop_last());
        let (r, out) = run_queue(q, ops.drop_last());
        match ops.last() {
            Some(p) => {
                assert(out + r.push(p) =~= (out + r).push(p));
            },
            None => {
                if r.len() > 0 {
                    assert(out.push(r[0]) + r.drop_first() =~= out + r);
                }
            },
        }
    }
}

} // verus!
