use crate::marker::BcDataMarked;
use crate::marker::Header;
use crate::marker::headers_view;
use tokio::sync::mpsc::Receiver;
use tokio::sync::mpsc::Sender;
use vstd::prelude::*;

verus! {

#[verifier::external_type_specification]
#[verifier::external_body]
#[verifier::reject_recursive_types(T)]
pub struct ExSender<T>(Sender<T>);

#[verifier::external_type_specification]
#[verifier::external_body]
#[verifier::reject_recursive_types(T)]
pub struct ExReceiver<T>(Receiver<T>);

/// How many payloads a consumer may have waiting before it counts as too slow.
pub const QUEUE_CAPACITY: usize = 256;

/// The status a consumer sees before any upstream response came in.
pub const BAD_GATEWAY: u16 = 502;

/// Relies on tokio::sync::mpsc::channel: a bounded queue of the given
/// capacity, as its sending and its receiving end. It panics on a capacity of
/// zero or one above the semaphore's limit.
#[verifier::external_body]
fn bounded_queue(capacity: usize) -> (Sender<Vec<u8>>, Receiver<Vec<u8>>)
    requires
        0 < capacity <= QUEUE_CAPACITY,
{
    tokio::sync::mpsc::channel(capacity)
}

/// Relies on tokio::sync::mpsc::Sender::try_send: queues the payload without
/// waiting and reports whether it was queued. It fails where the queue is full
/// or its receiver is gone, which depends on the consumer.
#[verifier::external_body]
fn try_send(tx: &Sender<Vec<u8>>, bytes: Vec<u8>) -> (r: bool) {
    tx.try_send(bytes).is_ok()
}

/// What the hub knows of one consumer: its id, whether it has seen a frame
/// start, and every payload queued for it so far.
pub struct ConsumerView {
    pub id: u64,
    pub started: bool,
    pub sent: Seq<Seq<u8>>,
}

/// The hub's state: the upstream status and forwarded headers, the attached
/// consumers in attachment order, and the id the next consumer gets.
pub struct HubView {
    pub status: u16,
    pub headers: Seq<(Seq<u8>, Seq<u8>)>,
    pub consumers: Seq<ConsumerView>,
    pub next_id: u64,
}

impl HubView {
    /// Ids rise in attachment order and stay below the next one.
    pub open spec fn wf(&self) -> bool {
        &&& forall|i: int, j: int|
            0 <= i < j < self.consumers.len() ==> self.consumers[i].id < self.consumers[j].id
        &&& forall|i: int| 0 <= i < self.consumers.len() ==> self.consumers[i].id < self.next_id
    }
}

/// A consumer after a segment went out: a frame start makes it eligible, and
/// an eligible consumer gets the bytes.
pub open spec fn after(c: ConsumerView, seg: (Seq<u8>, bool)) -> ConsumerView {
    let started = c.started || seg.1;
    ConsumerView { id: c.id, started, sent: if started { c.sent.push(seg.0) } else { c.sent } }
}

/// `cs` without the consumers whose id is in `gone`, order kept.
pub open spec fn retain(cs: Seq<ConsumerView>, gone: Seq<u64>) -> Seq<ConsumerView>
    decreases cs.len(),
{
    if cs.len() == 0 {
        cs
    } else if gone.contains(cs.last().id) {
        retain(cs.drop_last(), gone)
    } else {
        retain(cs.drop_last(), gone).push(cs.last())
    }
}

/// A consumer once the upstream reconnected: it waits for the new stream's
/// first frame start.
pub open spec fn rewound(c: ConsumerView) -> ConsumerView {
    ConsumerView { id: c.id, started: false, sent: c.sent }
}

/// The hub once `seg` went out to every consumer of `old` and the consumers
/// in `evicted` were dropped.
pub open spec fn broadcast_result(old: HubView, seg: (Seq<u8>, bool), evicted: Seq<u64>) -> HubView {
    HubView {
        consumers: retain(old.consumers.map_values(|c: ConsumerView| after(c, seg)), evicted),
        ..old
    }
}

/// `new` is `old` once `seg` was broadcast and the consumers in `evicted`
/// were dropped; only a consumer that the segment was due to can be dropped.
pub open spec fn broadcast_post(
    old: HubView,
    seg: (Seq<u8>, bool),
    new: HubView,
    evicted: Seq<u64>,
) -> bool {
    &&& new == broadcast_result(old, seg, evicted)
    &&& forall|k: int| 0 <= k < evicted.len() ==> #[trigger] due(old, seg, evicted[k])
}

/// Segment `seg` was due to the consumer with this id.
pub open spec fn due(old: HubView, seg: (Seq<u8>, bool), id: u64) -> bool {
    exists|i: int|
        0 <= i < old.consumers.len() && #[trigger] old.consumers[i].id == id && (
        old.consumers[i].started || seg.1)
}

/// `new` is `old` with a fresh consumer `id` at the end, not yet started.
pub open spec fn attach_post(old: HubView, new: HubView, id: u64) -> bool {
    &&& id == old.next_id
    &&& new == HubView {
        consumers: old.consumers.push(ConsumerView { id, started: false, sent: Seq::empty() }),
        next_id: (old.next_id + 1) as u64,
        ..old
    }
}

/// `new` is `old` with the upstream's status and headers replaced, every
/// consumer kept and waiting for a frame start again.
pub open spec fn update_post(
    old: HubView,
    status: u16,
    headers: Seq<(Seq<u8>, Seq<u8>)>,
    new: HubView,
) -> bool {
    new == HubView {
        status,
        headers,
        consumers: old.consumers.map_values(|c: ConsumerView| rewound(c)),
        next_id: old.next_id,
    }
}

struct BroadcastSender {
    tx: Sender<Vec<u8>>,
    header_sent: bool,
    id: u64,
    sent: Ghost<Seq<Seq<u8>>>,
}

impl BroadcastSender {
    spec fn view(&self) -> ConsumerView {
        ConsumerView { id: self.id, started: self.header_sent, sent: self.sent@ }
    }
}

spec fn senders_view(s: Seq<BroadcastSender>) -> Seq<ConsumerView> {
    s.map_values(|b: BroadcastSender| b.view())
}

/// A new consumer's end of the hub: its id, the upstream status and headers
/// to answer with, and the queue its bytes arrive on.
pub struct Attached {
    pub id: u64,
    pub status: u16,
    pub headers: Vec<Header>,
    pub rx: Receiver<Vec<u8>>,
}

/// Fans the upstream stream out to every attached consumer.
pub struct BroadcastChannel {
    tx_vec: Vec<BroadcastSender>,
    status: u16,
    headers: Vec<Header>,
    next_id: u64,
}

impl View for BroadcastChannel {
    type V = HubView;

    closed spec fn view(&self) -> HubView {
        HubView {
            status: self.status,
            headers: headers_view(self.headers@),
            consumers: senders_view(self.tx_vec@),
            next_id: self.next_id,
        }
    }
}

fn copy_headers(hs: &Vec<Header>) -> (r: Vec<Header>)
    ensures
        headers_view(r@) == headers_view(hs@),
{
    let mut r: Vec<Header> = Vec::new();
    let mut i: usize = 0;
    while i < hs.len()
        invariant
            i <= hs@.len(),
            headers_view(r@) == headers_view(hs@.subrange(0, i as int)),
        decreases hs.len() - i,
    {
        r.push(hs[i].copy());
        assert(headers_view(hs@.subrange(0, i + 1)) =~= headers_view(hs@.subrange(0, i as int)).push(
            hs@[i as int]@,
        ));
        i = i + 1;
    }
    assert(hs@.subrange(0, hs@.len() as int) =~= hs@);
    r
}

impl BroadcastChannel {
    #[verifier::type_invariant]
    spec fn inv(self) -> bool {
        self@.wf()
    }

    pub fn new() -> (r: Self)
        ensures
            r@ == (HubView {
                status: BAD_GATEWAY,
                headers: Seq::empty(),
                consumers: Seq::empty(),
                next_id: 0,
            }),
            r@.wf(),
    {
        let r = Self { tx_vec: Vec::new(), status: BAD_GATEWAY, headers: Vec::new(), next_id: 0 };
        assert(r@.consumers =~= Seq::empty());
        assert(r@.headers =~= Seq::empty());
        r
    }

    /// Whether another consumer can still get an id of its own.
    pub fn can_attach(&self) -> (r: bool)
        ensures
            r == (self@.next_id < u64::MAX),
    {
        self.next_id < u64::MAX
    }

    /// Registers a new consumer, not yet started, with an empty queue, and
    /// hands back the current status and headers with the queue's receiving end.
    pub fn attach(&mut self) -> (r: Attached)
        requires
            old(self)@.next_id < u64::MAX,
        ensures
            attach_post(old(self)@, final(self)@, r.id),
            r.status == old(self)@.status,
            headers_view(r.headers@) == old(self)@.headers,
    {
        proof {
            use_type_invariant(&*self);
        }
        let (tx, rx) = bounded_queue(QUEUE_CAPACITY);
        let id = self.next_id;
        let mut senders: Vec<BroadcastSender> = Vec::new();
        core::mem::swap(&mut senders, &mut self.tx_vec);
        let ghost old_senders = senders@;
        senders.push(BroadcastSender { tx, header_sent: false, id, sent: Ghost(Seq::empty()) });
        self.next_id = self.next_id + 1;
        assert(senders_view(senders@) =~= senders_view(old_senders).push(
            ConsumerView { id, started: false, sent: Seq::empty() },
        ));
        proof {
            let ov = old(self)@;
            let cs = senders_view(senders@);
            assert forall|a: int, c: int| 0 <= a < c < cs.len() implies #[trigger] cs[a].id
                < #[trigger] cs[c].id by {
                assert(cs[a] == ov.consumers[a]);
                if c < cs.len() - 1 {
                    assert(cs[c] == ov.consumers[c]);
                }
            }
            assert forall|a: int| 0 <= a < cs.len() implies #[trigger] cs[a].id < self.next_id by {
                if a < cs.len() - 1 {
                    assert(cs[a] == ov.consumers[a]);
                }
            }
        }
        core::mem::swap(&mut senders, &mut self.tx_vec);
        Attached { id, status: self.status, headers: copy_headers(&self.headers), rx }
    }

    /// Replaces the upstream status and headers; every consumer stays
    /// attached and waits for the new stream's first frame start.
    pub fn update_stream_state(&mut self, status: u16, headers: Vec<Header>)
        ensures
            update_post(old(self)@, status, headers_view(headers@), final(self)@),
    {
        proof {
            use_type_invariant(&*self);
        }
        let mut senders: Vec<BroadcastSender> = Vec::new();
        core::mem::swap(&mut senders, &mut self.tx_vec);
        let ghost old_senders = senders@;
        let mut i: usize = 0;
        while i < senders.len()
            invariant
                i <= senders@.len(),
                senders@.len() == old_senders.len(),
                old_senders == old(self).tx_vec@,
                forall|k: int|
                    0 <= k < old_senders.len() ==> #[trigger] senders@[k].view() == (if k < i {
                        rewound(old_senders[k].view())
                    } else {
                        old_senders[k].view()
                    }),
            decreases senders.len() - i,
        {
            let ghost before = senders@;
            senders[i].header_sent = false;
            assert(senders@[i as int].view() == rewound(before[i as int].view()));
            assert(forall|k: int| 0 <= k < before.len() && k != i ==> senders@[k] == before[k]);
            i = i + 1;
        }
        assert forall|k: int| 0 <= k < old_senders.len() implies senders@[k].id
            == #[trigger] old_senders[k].id by {
            assert(senders@[k].view() == rewound(old_senders[k].view()));
        }
        assert(senders_view(senders@) =~= senders_view(old_senders).map_values(
            |c: ConsumerView| rewound(c),
        ));
        proof {
            let ov = old(self)@;
            let cs = senders_view(senders@);
            assert forall|a: int, c: int| 0 <= a < c < cs.len() implies #[trigger] cs[a].id
                < #[trigger] cs[c].id by {
                assert(cs[a].id == ov.consumers[a].id);
                assert(cs[c].id == ov.consumers[c].id);
            }
            assert forall|a: int| 0 <= a < cs.len() implies #[trigger] cs[a].id < ov.next_id by {
                assert(cs[a].id == ov.consumers[a].id);
            }
        }
        *self = BroadcastChannel { tx_vec: senders, status, headers, next_id: self.next_id };
    }

    /// Sends one segment to every consumer in attachment order. A frame start
    /// makes each consumer eligible; an eligible consumer gets the bytes
    /// queued without waiting, and one whose queue refuses them is dropped at
    /// once. Hands back the ids of the dropped consumers.
    pub fn broadcast(&mut self, b: &BcDataMarked) -> (evicted: Vec<u64>)
        ensures
            broadcast_post(old(self)@, b@, final(self)@, evicted@),
    {
        proof {
            use_type_invariant(&*self);
        }
        let mut pending: Vec<BroadcastSender> = Vec::new();
        core::mem::swap(&mut pending, &mut self.tx_vec);
        let ghost olds = pending@;
        let ghost mapped = senders_view(olds).map_values(|c: ConsumerView| after(c, b@));
        let ghost n = olds.len() as int;
        let mut evicted: Vec<u64> = Vec::new();
        let mut kept: Vec<BroadcastSender> = Vec::new();
        let mut i: usize = 0;
        assert(n == pending.len());
        assert(retain(mapped.subrange(0, 0), evicted@) =~= senders_view(kept@));
        while pending.len() > 0
            invariant
                old(self)@.consumers == senders_view(olds),
                old(self)@.wf(),
                mapped == senders_view(olds).map_values(|c: ConsumerView| after(c, b@)),
                n == olds.len(),
                n <= usize::MAX,
                0 <= i <= n,
                pending@ == olds.subrange(i as int, n),
                self.status == old(self).status,
                self.headers == old(self).headers,
                self.next_id == old(self).next_id,
                self.tx_vec@ == Seq::<BroadcastSender>::empty(),
                senders_view(kept@) == retain(mapped.subrange(0, i as int), evicted@),
                forall|k: int| 0 <= k < evicted@.len() ==> #[trigger] due(old(self)@, b@, evicted@[k]),
                forall|k: int, j: int|
                    0 <= k < evicted@.len() && i <= j < n ==> #[trigger] evicted@[k] < #[trigger] olds[j].id,
                forall|a: int, c: int|
                    0 <= a < c < kept@.len() ==> #[trigger] kept@[a].id < #[trigger] kept@[c].id,
                forall|a: int, j: int|
                    0 <= a < kept@.len() && i <= j < n ==> #[trigger] kept@[a].id < #[trigger] olds[j].id,
                forall|a: int| 0 <= a < kept@.len() ==> #[trigger] kept@[a].id < old(self).next_id,
            decreases pending.len(),
        {
            let s = pending.remove(0);
            assert(s == olds[i as int]);
            assert(old(self)@.consumers[i as int].id == s.id);
            let ghost ov = old(self)@;
            assert(ov.consumers[i as int].id < ov.next_id);
            assert forall|j: int| 0 <= j < i implies #[trigger] olds[j].id < s.id by {
                assert(ov.consumers[j].id == olds[j].id);
                assert(ov.consumers[j].id < ov.consumers[i as int].id);
            }
            assert forall|j: int| i < j < n implies s.id < #[trigger] olds[j].id by {
                assert(ov.consumers[j].id == olds[j].id);
                assert(ov.consumers[i as int].id < ov.consumers[j].id);
            }
            assert forall|j: int| 0 <= j < i implies #[trigger] mapped.subrange(0, i as int)[j].id < s.id by {
                assert(mapped[j].id == olds[j].id);
            }
            let started = s.header_sent || b.valid_start;
            let ok = if started {
                try_send(&s.tx, vstd::slice::slice_to_vec(b.bytes.as_slice()))
            } else {
                true
            };
            let ghost kept_before = kept@;
            let ghost evicted_before = evicted@;
            proof {
                assert(mapped.subrange(0, i + 1).drop_last() =~= mapped.subrange(0, i as int));
                assert(mapped.subrange(0, i + 1).last() == after(s.view(), b@));
            }
            if ok {
                let sent = Ghost(if started { s.sent@.push(b.bytes@) } else { s.sent@ });
                kept.push(BroadcastSender { tx: s.tx, header_sent: started, id: s.id, sent });
                proof {
                    assert(!evicted@.contains(s.id)) by {
                        if evicted@.contains(s.id) {
                            let k = choose|k: int| 0 <= k < evicted@.len() && evicted@[k] == s.id;
                            assert(evicted@[k] < olds[i as int].id);
                        }
                    }
                    assert(senders_view(kept@) =~= senders_view(kept_before).push(
                        after(s.view(), b@),
                    ));
                    assert(retain(mapped.subrange(0, i + 1), evicted@) == retain(
                        mapped.subrange(0, i as int),
                        evicted@,
                    ).push(after(s.view(), b@)));
                }
            } else {
                evicted.push(s.id);
                proof {
                    assert(due(old(self)@, b@, s.id));
                    lemma_retain_skip(mapped.subrange(0, i as int), evicted_before, s.id);
                    assert(evicted_before.push(s.id) =~= evicted@);
                    assert(evicted@[evicted@.len() - 1] == s.id);
                    assert(evicted@.contains(s.id));
                    assert(mapped.subrange(0, i + 1).last().id == s.id);
                }
            }
            i = i + 1;
        }
        assert(mapped.subrange(0, n) =~= mapped);
        core::mem::swap(&mut kept, &mut self.tx_vec);
        evicted
    }
}

/// Dropping one more id that no consumer in `cs` has changes nothing.
proof fn lemma_retain_skip(cs: Seq<ConsumerView>, gone: Seq<u64>, id: u64)
    requires
        forall|j: int| 0 <= j < cs.len() ==> #[trigger] cs[j].id < id,
    ensures
        retain(cs, gone.push(id)) == retain(cs, gone),
    decreases cs.len(),
{
    if cs.len() > 0 {
        lemma_retain_skip(cs.drop_last(), gone, id);
        assert(gone.push(id).contains(cs.last().id) == gone.contains(cs.last().id)) by {
            if gone.push(id).contains(cs.last().id) && !gone.contains(cs.last().id) {
                let k = choose|k: int| 0 <= k < gone.push(id).len() && gone.push(id)[k] == cs.last().id;
                assert(k == gone.len());
            }
            if gone.contains(cs.last().id) {
                let k = choose|k: int| 0 <= k < gone.len() && gone[k] == cs.last().id;
                assert(gone.push(id)[k] == cs.last().id);
            }
        }
    }
}

/// The consumer with this id in `cs`, if one is attached.
pub open spec fn find_id(cs: Seq<ConsumerView>, id: u64) -> Option<ConsumerView>
    decreases cs.len(),
{
    if cs.len() == 0 {
        None
    } else if cs.last().id == id {
        Some(cs.last())
    } else {
        find_id(cs.drop_last(), id)
    }
}

/// Whether a consumer is eligible once `segs` went out, having been `started` before.
pub open spec fn started_after(started: bool, segs: Seq<(Seq<u8>, bool)>) -> bool
    decreases segs.len(),
{
    if segs.len() == 0 {
        started
    } else {
        started_after(started, segs.drop_last()) || segs.last().1
    }
}

/// What a consumer gets of `segs`: nothing before it is eligible, then the
/// bytes of every segment, in order, from the first frame start on.
pub open spec fn deliveries(started: bool, segs: Seq<(Seq<u8>, bool)>) -> Seq<Seq<u8>>
    decreases segs.len(),
{
    if segs.len() == 0 {
        Seq::empty()
    } else if started_after(started, segs) {
        deliveries(started, segs.drop_last()).push(segs.last().0)
    } else {
        deliveries(started, segs.drop_last())
    }
}

/// `hs[i + 1]` follows from `hs[i]` by broadcasting `segs[i]`, with the
/// consumers in `evs[i]` dropped.
pub open spec fn broadcast_run(hs: Seq<HubView>, segs: Seq<(Seq<u8>, bool)>, evs: Seq<Seq<u64>>) -> bool {
    &&& hs.len() == segs.len() + 1
    &&& evs.len() == segs.len()
    &&& forall|i: int| 0 <= i < segs.len() ==> broadcast_post(#[trigger] hs[i], segs[i], hs[i + 1], evs[i])
}

proof fn lemma_find_after_broadcast(cs: Seq<ConsumerView>, seg: (Seq<u8>, bool), ev: Seq<u64>, id: u64)
    ensures
        find_id(retain(cs.map_values(|c: ConsumerView| after(c, seg)), ev), id) == match find_id(cs, id) {
            Some(c) => if ev.contains(id) {
                None
            } else {
                Some(after(c, seg))
            },
            None => None::<ConsumerView>,
        },
    decreases cs.len(),
{
    if cs.len() > 0 {
        let m = cs.map_values(|c: ConsumerView| after(c, seg));
        assert(m.drop_last() =~= cs.drop_last().map_values(|c: ConsumerView| after(c, seg)));
        lemma_find_after_broadcast(cs.drop_last(), seg, ev, id);
        let r = retain(m.drop_last(), ev);
        assert(m.last() == after(cs.last(), seg));
        assert(r.push(m.last()).drop_last() =~= r);
    }
}

/// One broadcast: a consumer stays only if it was attached and not dropped,
/// and then it is the same consumer after the segment went out.
pub proof fn lemma_broadcast_finds(old: HubView, seg: (Seq<u8>, bool), new: HubView, ev: Seq<u64>, id: u64)
    requires
        broadcast_post(old, seg, new, ev),
    ensures
        find_id(new.consumers, id) == match find_id(old.consumers, id) {
            Some(c) => if ev.contains(id) {
                None
            } else {
                Some(after(c, seg))
            },
            None => None::<ConsumerView>,
        },
        new.status == old.status,
        new.headers == old.headers,
{
    lemma_find_after_broadcast(old.consumers, seg, ev, id);
}

/// A consumer still attached after a run of broadcasts got nothing before it
/// became eligible and, from the first frame start on, every segment in
/// order. One that attached before any frame start thus begins its stream
/// exactly at a frame boundary.
pub proof fn lemma_consumer_receives_from_frame_start(
    hs: Seq<HubView>,
    segs: Seq<(Seq<u8>, bool)>,
    evs: Seq<Seq<u64>>,
    id: u64,
    c: ConsumerView,
)
    requires
        broadcast_run(hs, segs, evs),
        find_id(hs[0].consumers, id) == Some(c),
        find_id(hs[segs.len() as int].consumers, id) is Some,
    ensures
        find_id(hs[segs.len() as int].consumers, id) == Some(
            ConsumerView {
                id: c.id,
                started: started_after(c.started, segs),
                sent: c.sent + deliveries(c.started, segs),
            },
        ),
    decreases segs.len(),
{
    let n = segs.len() as int;
    if n == 0 {
        assert(c.sent + Seq::<Seq<u8>>::empty() =~= c.sent);
    } else {
        let hs0 = hs.drop_last();
        let segs0 = segs.drop_last();
        let evs0 = evs.drop_last();
        assert(broadcast_post(hs[n - 1], segs[n - 1], hs[n], evs[n - 1]));
        lemma_broadcast_finds(hs[n - 1], segs[n - 1], hs[n], evs[n - 1], id);
        assert forall|i: int| 0 <= i < segs0.len() implies broadcast_post(
            #[trigger] hs0[i],
            segs0[i],
            hs0[i + 1],
            evs0[i],
        ) by {
            assert(broadcast_post(hs[i], segs[i], hs[i + 1], evs[i]));
        }
        lemma_consumer_receives_from_frame_start(hs0, segs0, evs0, id, c);
        let st = started_after(c.started, segs0);
        if started_after(c.started, segs) {
            assert(c.sent + deliveries(c.started, segs0).push(segs.last().0) =~= (c.sent + deliveries(
                c.started,
                segs0,
            )).push(segs.last().0));
        }
    }
}

/// A consumer dropped in a run of broadcasts stays gone for the rest of it,
/// whatever later segments bring.
pub proof fn lemma_evicted_stays_gone(
    hs: Seq<HubView>,
    segs: Seq<(Seq<u8>, bool)>,
    evs: Seq<Seq<u64>>,
    j: int,
    id: u64,
    m: int,
)
    requires
        broadcast_run(hs, segs, evs),
        0 <= j < m <= segs.len(),
        evs[j].contains(id),
    ensures
        find_id(hs[m].consumers, id) is None,
    decreases m - j,
{
    if m == j + 1 {
        assert(broadcast_post(hs[j], segs[j], hs[j + 1], evs[j]));
        lemma_broadcast_finds(hs[j], segs[j], hs[j + 1], evs[j], id);
    } else {
        lemma_evicted_stays_gone(hs, segs, evs, j, id, m - 1);
        assert(broadcast_post(hs[m - 1], segs[m - 1], hs[m], evs[m - 1]));
        lemma_broadcast_finds(hs[m - 1], segs[m - 1], hs[m], evs[m - 1], id);
    }
}

/// After an update of the stream state and any run of broadcasts, the hub
/// holds that update's status and headers: they are what `attach` hands out.
pub proof fn lemma_attach_sees_latest_state(
    h0: HubView,
    status: u16,
    headers: Seq<(Seq<u8>, Seq<u8>)>,
    hs: Seq<HubView>,
    segs: Seq<(Seq<u8>, bool)>,
    evs: Seq<Seq<u64>>,
)
    requires
        update_post(h0, status, headers, hs[0]),
        broadcast_run(hs, segs, evs),
    ensures
        hs[segs.len() as int].status == status,
        hs[segs.len() as int].headers == headers,
    decreases segs.len(),
{
    let n = segs.len() as int;
    if n > 0 {
        let hs0 = hs.drop_last();
        let segs0 = segs.drop_last();
        let evs0 = evs.drop_last();
        assert forall|i: int| 0 <= i < segs0.len() implies broadcast_post(
            #[trigger] hs0[i],
            segs0[i],
            hs0[i + 1],
            evs0[i],
        ) by {
            assert(broadcast_post(hs[i], segs[i], hs[i + 1], evs[i]));
        }
        lemma_attach_sees_latest_state(h0, status, headers, hs0, segs0, evs0);
        assert(broadcast_post(hs[n - 1], segs[n - 1], hs[n], evs[n - 1]));
    }
}

} // verus!
