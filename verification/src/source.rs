//! Source fan-out: one media feed broadcast to per-subscriber bounded
//! queues. Every subscriber sees `Init` first, packets in production
//! order after it; a slow subscriber loses oldest packets and is told so
//! once; a stopping source ends every subscriber with `End`.

use vstd::prelude::*;

verus! {

/// What DESCRIBE needs of a stream: its SDP description bytes.
pub struct StreamInfo {
    pub sdp: Vec<u8>,
}

/// One item observed by a subscriber.
pub enum SourceMsg {
    /// The stream's description; always the first observation.
    Init(StreamInfo),
    /// One raw media packet, in production order.
    Packet(Vec<u8>),
    /// This many oldest packets were dropped since the last observation.
    Lagged(u64),
    /// The source stopped; the handle is spent.
    End,
}

/// One subscriber's pending queue and delivery state. A handle that was
/// given back (`live == false`) keeps its slot, so other handles stay
/// valid, but receives nothing further.
pub struct Subscriber {
    pub queue: Vec<SourceMsg>,
    pub lagged: u64,
    pub seen_init: bool,
    pub live: bool,
}

/// No packet sits in `q` before an `Init`: whoever drains `q` in order
/// meets an `Init` first.
pub open spec fn no_early_packet(q: Seq<SourceMsg>) -> bool {
    forall|k: int|
        0 <= k < q.len() && q[k] is Packet ==> exists|j: int| 0 <= j < k && q[j] is Init
}

/// Whether some queued item is an `Init`.
pub open spec fn has_init(q: Seq<SourceMsg>) -> bool {
    exists|j: int| 0 <= j < q.len() && q[j] is Init
}

/// A subscriber that has not yet observed `Init` holds no packet ahead
/// of one.
pub open spec fn sub_wf(s: Subscriber) -> bool {
    s.seen_init || no_early_packet(s.queue@)
}

/// The index of the oldest pending packet, the one a full queue drops.
pub open spec fn first_packet(q: Seq<SourceMsg>, i: int) -> Option<int>
    decreases q.len() - i,
    when i >= 0
{
    if i >= q.len() {
        None
    } else if q[i] is Packet {
        Some(i)
    } else {
        first_packet(q, i + 1)
    }
}

proof fn lemma_first_packet(q: Seq<SourceMsg>, i: int)
    requires
        0 <= i,
    ensures
        match first_packet(q, i) {
            Some(k) => i <= k < q.len() && q[k] is Packet && forall|j: int|
                i <= j < k ==> !(q[j] is Packet),
            None => forall|j: int| i <= j < q.len() ==> !(q[j] is Packet),
        },
    decreases q.len() - i,
{
    if i < q.len() && !(q[i] is Packet) {
        lemma_first_packet(q, i + 1);
    }
}

/// Finds the oldest pending packet.
fn first_packet_exec(q: &Vec<SourceMsg>) -> (r: Option<usize>)
    ensures
        match r {
            Some(k) => first_packet(q@, 0) == Some(k as int) && k < q@.len(),
            None => first_packet(q@, 0) is None,
        },
{
    let mut i: usize = 0;
    while i < q.len()
        invariant
            i <= q@.len(),
            first_packet(q@, 0) == first_packet(q@, i as int),
        decreases q@.len() - i,
    {
        match &q[i] {
            SourceMsg::Packet(_) => {
                return Some(i);
            },
            _ => {},
        }
        i = i + 1;
    }
    None
}

/// Whether `m` is a packet carrying exactly the bytes `pv`.
pub open spec fn is_packet_of(m: SourceMsg, pv: Seq<u8>) -> bool {
    match m {
        SourceMsg::Packet(x) => x@ == pv,
        _ => false,
    }
}

/// The law of enqueueing one packet with bytes `pv` under the bound
/// `cap`: under the bound the packet is appended; at the bound the
/// oldest pending packet leaves first and the loss is counted; a full
/// queue without any packet is left alone. Everything else about the
/// subscriber stays.
pub open spec fn enqueue_effect(pre: Subscriber, post: Subscriber, pv: Seq<u8>, cap: int) -> bool {
    &&& post.seen_init == pre.seen_init
    &&& post.live == pre.live
    &&& (if pre.queue@.len() < cap {
        &&& post.queue@.len() == pre.queue@.len() + 1
        &&& post.queue@.subrange(0, pre.queue@.len() as int) == pre.queue@
        &&& is_packet_of(post.queue@.last(), pv)
        &&& post.lagged == pre.lagged
    } else {
        match first_packet(pre.queue@, 0) {
            Some(j) => {
                &&& post.queue@.len() == pre.queue@.len()
                &&& post.queue@.subrange(0, pre.queue@.len() - 1) == pre.queue@.remove(j)
                &&& is_packet_of(post.queue@.last(), pv)
                &&& post.lagged == (if pre.lagged < u64::MAX {
                    (pre.lagged + 1) as u64
                } else {
                    pre.lagged
                })
            },
            None => post.queue@ == pre.queue@ && post.lagged == pre.lagged,
        }
    })
}

/// Enqueues one packet on a subscriber under the queue bound `cap`: a
/// full queue first drops its oldest pending packet and counts the loss.
pub fn enqueue_packet(s: &mut Subscriber, p: Vec<u8>, cap: usize)
    requires
        cap >= 1,
        sub_wf(*old(s)),
        old(s).seen_init || has_init(old(s).queue@),
    ensures
        sub_wf(*final(s)),
        enqueue_effect(*old(s), *final(s), p@, cap as int),
        final(s).seen_init || has_init(final(s).queue@),
{
    let ghost q0 = s.queue@;
    let ghost pv = p@;
    if s.queue.len() >= cap {
        match first_packet_exec(&s.queue) {
            None => {
                proof {
                    assert(enqueue_effect(*old(s), *s, pv, cap as int));
                }
                return ;
            },
            Some(j) => {
                proof {
                    lemma_first_packet(q0, 0);
                }
                s.queue.remove(j);
                if s.lagged < u64::MAX {
                    s.lagged = s.lagged + 1;
                }
                proof {
                    if !s.seen_init {
                        assert forall|k: int|
                            0 <= k < s.queue@.len() && s.queue@[k] is Packet implies exists|jj: int|
                            0 <= jj < k && s.queue@[jj] is Init by {
                            let korig: int = if k < j {
                                k
                            } else {
                                k + 1
                            };
                            assert(q0[korig] is Packet);
                            let w = choose|w: int| 0 <= w < korig && q0[w] is Init;
                            if w < j {
                                assert(s.queue@[w] is Init);
                            } else {
                                assert(s.queue@[w - 1] is Init);
                            }
                        }
                    }
                }
            },
        }
    }
    let ghost q1 = s.queue@;
    proof {
        if !s.seen_init {
            assert(no_early_packet(q1));
        }
    }
    s.queue.push(SourceMsg::Packet(p));
    proof {
        assert(s.queue@.subrange(0, q1.len() as int) =~= q1);
        assert(is_packet_of(s.queue@.last(), pv));
        if q0.len() >= cap {
            match first_packet(q0, 0) {
                Some(j) => {
                    assert(q1 == q0.remove(j));
                },
                None => {},
            }
        }
        assert(enqueue_effect(*old(s), *s, pv, cap as int));
        if !s.seen_init {
            assert(has_init(q0));
            let w0 = choose|w0: int| 0 <= w0 < q0.len() && q0[w0] is Init;
            // the Init survives any removal of a packet
            assert(has_init(q1)) by {
                if q1 != q0 {
                    match first_packet(q0, 0) {
                        Some(j) => {
                            lemma_first_packet(q0, 0);
                            if w0 < j {
                                assert(q1[w0] is Init);
                            } else {
                                assert(q1[w0 - 1] is Init);
                            }
                        },
                        None => {},
                    }
                }
            }
            let w1 = choose|w1: int| 0 <= w1 < q1.len() && q1[w1] is Init;
            assert(has_init(s.queue@));
            assert forall|k: int|
                0 <= k < s.queue@.len() && s.queue@[k] is Packet implies exists|jj: int|
                0 <= jj < k && s.queue@[jj] is Init by {
                if k < q1.len() {
                    assert(q1[k] is Packet);
                    let wk = choose|jj: int| 0 <= jj < k && q1[jj] is Init;
                    assert(s.queue@[wk] is Init);
                } else {
                    assert(s.queue@[w1] is Init && w1 < k);
                }
            }
        }
    }
}

/// Hands the subscriber its next observation: a pending lag notice takes
/// precedence, otherwise the oldest queued item. A subscriber that has
/// not seen `Init` is never handed a packet.
pub fn recv_msg(s: &mut Subscriber) -> (r: Option<SourceMsg>)
    requires
        sub_wf(*old(s)),
    ensures
        sub_wf(*final(s)),
        final(s).live == old(s).live,
        !old(s).seen_init ==> !(r matches Some(SourceMsg::Packet(_))),
        (if old(s).lagged > 0 {
            r == Some(SourceMsg::Lagged(old(s).lagged)) && final(s).lagged == 0 && final(s).queue@
                == old(s).queue@ && final(s).seen_init == old(s).seen_init
        } else if old(s).queue@.len() == 0 {
            r is None && *final(s) == *old(s)
        } else {
            r == Some(old(s).queue@[0]) && final(s).queue@ == old(s).queue@.drop_first()
                && final(s).lagged == 0 && final(s).seen_init == (old(s).seen_init || old(
                s,
            ).queue@[0] is Init)
        }),
{
    if s.lagged > 0 {
        let n = s.lagged;
        s.lagged = 0;
        return Some(SourceMsg::Lagged(n));
    }
    if s.queue.len() == 0 {
        return None;
    }
    let ghost q0 = s.queue@;
    let m = s.queue.remove(0);
    proof {
        assert(q0.remove(0) =~= q0.drop_first());
        if !s.seen_init && q0[0] is Packet {
            assert(no_early_packet(q0));
            assert(exists|j: int| 0 <= j < 0 && q0[j] is Init);
        }
    }
    match &m {
        SourceMsg::Init(_) => {
            s.seen_init = true;
        },
        _ => {},
    }
    proof {
        if !s.seen_init {
            assert forall|k: int|
                0 <= k < s.queue@.len() && s.queue@[k] is Packet implies exists|j: int|
                0 <= j < k && s.queue@[j] is Init by {
                assert(q0[k + 1] is Packet);
                let w = choose|w: int| 0 <= w < k + 1 && q0[w] is Init;
                if w == 0 {
                    assert(s.seen_init);
                } else {
                    assert(s.queue@[w - 1] is Init);
                }
            }
        }
    }
    Some(m)
}

/// A source's life: not yet started, streaming (with its description
/// cached for late subscribers), or ended.
pub enum SourceLife {
    Idle,
    Streaming(StreamInfo),
    Ended,
}

/// One media source and its subscribers. The single producer mutates it;
/// subscribers drain their own queues through `recv`.
pub struct Source {
    pub path: Vec<u8>,
    pub life: SourceLife,
    pub subscribers: Vec<Subscriber>,
    pub cap: usize,
}

/// Every subscriber is well-formed, and while the source streams, any
/// live one still owed an `Init` has one queued.
pub open spec fn src_wf(src: Source) -> bool {
    &&& src.cap >= 1
    &&& forall|i: int|
        0 <= i < src.subscribers@.len() ==> sub_wf(#[trigger] src.subscribers@[i]) && (
        src.life is Streaming && src.subscribers@[i].live ==> (src.subscribers@[i].seen_init
            || has_init(src.subscribers@[i].queue@)))
}

impl Source {
    /// A fresh, idle source for `path` with the given per-subscriber
    /// queue bound.
    pub fn new(path: Vec<u8>, cap: usize) -> (r: Source)
        requires
            cap >= 1,
        ensures
            src_wf(r),
            r.life is Idle,
            r.subscribers@.len() == 0,
            r.path@ == path@,
            r.cap == cap,
    {
        Source { path, life: SourceLife::Idle, subscribers: Vec::new(), cap }
    }

    /// Adds a subscriber; one already streaming replays its cached `Init`
    /// as the newcomer's first observation. Returns the handle index.
    pub fn subscribe(&mut self) -> (r: usize)
        requires
            src_wf(*old(self)),
        ensures
            src_wf(*final(self)),
            final(self).subscribers@.len() == old(self).subscribers@.len() + 1,
            r == old(self).subscribers@.len(),
            final(self).life == old(self).life,
            final(self).cap == old(self).cap,
            final(self).path == old(self).path,
            forall|i: int|
                0 <= i < old(self).subscribers@.len() ==> final(self).subscribers@[i] == old(
                    self,
                ).subscribers@[i],
            final(self).subscribers@[r as int].seen_init == false,
            final(self).subscribers@[r as int].lagged == 0,
            final(self).subscribers@[r as int].live == true,
            old(self).life is Streaming ==> final(self).subscribers@[r as int].queue@.len() == 1
                && final(self).subscribers@[r as int].queue@[0] is Init,
            !(old(self).life is Streaming) ==> final(self).subscribers@[r as int].queue@.len()
                == 0,
    {
        let idx = self.subscribers.len();
        let mut queue: Vec<SourceMsg> = Vec::new();
        match &self.life {
            SourceLife::Streaming(info) => {
                queue.push(SourceMsg::Init(StreamInfo { sdp: info.sdp.clone() }));
            },
            _ => {},
        }
        let sub = Subscriber { queue, lagged: 0, seen_init: false, live: true };
        proof {
            if self.life is Streaming {
                assert(sub.queue@[0] is Init);
                assert(has_init(sub.queue@));
            }
            assert(sub_wf(sub));
        }
        self.subscribers.push(sub);
        idx
    }

    /// Gives a subscriber handle back: the slot stays (so other handles
    /// keep their indices) but observes nothing further.
    pub fn unsubscribe(&mut self, idx: usize)
        requires
            src_wf(*old(self)),
            idx < old(self).subscribers@.len(),
        ensures
            src_wf(*final(self)),
            final(self).life == old(self).life,
            final(self).cap == old(self).cap,
            final(self).path == old(self).path,
            final(self).subscribers@.len() == old(self).subscribers@.len(),
            forall|k: int|
                0 <= k < old(self).subscribers@.len() && k != idx ==> final(self).subscribers@[k]
                    == old(self).subscribers@[k],
            final(self).subscribers@[idx as int].live == false,
            final(self).subscribers@[idx as int].queue@.len() == 0,
            final(self).subscribers@[idx as int].lagged == 0,
    {
        let sub = &mut self.subscribers[idx];
        sub.queue = Vec::new();
        sub.lagged = 0;
        sub.live = false;
        proof {
            assert(sub.queue@ =~= Seq::<SourceMsg>::empty());
            assert(sub_wf(*sub));
        }
    }

    /// Starts streaming: caches the description and queues `Init` for
    /// every live subscriber that was waiting.
    pub fn start(&mut self, info: StreamInfo)
        requires
            src_wf(*old(self)),
            old(self).life is Idle,
        ensures
            src_wf(*final(self)),
            final(self).life == SourceLife::Streaming(info),
            final(self).cap == old(self).cap,
            final(self).path == old(self).path,
            final(self).subscribers@.len() == old(self).subscribers@.len(),
            forall|k: int|
                0 <= k < old(self).subscribers@.len() ==> (if old(self).subscribers@[k].live {
                    {
                        let pre = old(self).subscribers@[k];
                        let post = final(self).subscribers@[k];
                        &&& post.queue@.len() == pre.queue@.len() + 1
                        &&& post.queue@.subrange(0, pre.queue@.len() as int) == pre.queue@
                        &&& (post.queue@.last() matches SourceMsg::Init(si) && si.sdp@
                            == info.sdp@)
                        &&& post.lagged == pre.lagged
                        &&& post.seen_init == pre.seen_init
                        &&& post.live == pre.live
                    }
                } else {
                    final(self).subscribers@[k] == old(self).subscribers@[k]
                }),
    {
        let n = self.subscribers.len();
        let mut i: usize = 0;
        while i < n
            invariant
                n == self.subscribers@.len(),
                n == old(self).subscribers@.len(),
                i <= n,
                self.cap == old(self).cap,
                self.path == old(self).path,
                self.life == old(self).life,
                forall|k: int| i <= k < n ==> self.subscribers@[k] == old(self).subscribers@[k],
                forall|k: int| 0 <= k < n ==> sub_wf(#[trigger] self.subscribers@[k]),
                forall|k: int|
                    0 <= k < i ==> (if old(self).subscribers@[k].live {
                        {
                            let pre = old(self).subscribers@[k];
                            let post = #[trigger] self.subscribers@[k];
                            &&& post.queue@.len() == pre.queue@.len() + 1
                            &&& post.queue@.subrange(0, pre.queue@.len() as int) == pre.queue@
                            &&& (post.queue@.last() matches SourceMsg::Init(si) && si.sdp@
                                == info.sdp@)
                            &&& post.lagged == pre.lagged
                            &&& post.seen_init == pre.seen_init
                            &&& post.live == pre.live
                            &&& (post.seen_init || has_init(post.queue@))
                        }
                    } else {
                        self.subscribers@[k] == old(self).subscribers@[k]
                    }),
            decreases n - i,
        {
            let sub = &mut self.subscribers[i];
            if sub.live {
                let ghost qb = sub.queue@;
                sub.queue.push(SourceMsg::Init(StreamInfo { sdp: info.sdp.clone() }));
                proof {
                    assert(sub.queue@[qb.len() as int] is Init);
                    assert(has_init(sub.queue@));
                    assert(sub.queue@.subrange(0, qb.len() as int) =~= qb);
                    if !sub.seen_init {
                        assert(no_early_packet(qb));
                        assert forall|k: int|
                            0 <= k < sub.queue@.len() && sub.queue@[k] is Packet implies exists|
                            j: int,
                        |
                            0 <= j < k && sub.queue@[j] is Init by {
                            assert(qb[k] is Packet);
                            let wk = choose|j: int| 0 <= j < k && qb[j] is Init;
                            assert(sub.queue@[wk] is Init);
                        }
                    }
                    assert(sub_wf(*sub));
                }
            }
            i = i + 1;
        }
        self.life = SourceLife::Streaming(info);
    }

    /// Broadcasts one packet: every live subscriber's queue evolves by
    /// the enqueue law (oldest-drop at the bound); the producer never
    /// blocks; handles that were given back see nothing.
    pub fn broadcast_packet(&mut self, p: &Vec<u8>)
        requires
            src_wf(*old(self)),
            old(self).life is Streaming,
        ensures
            src_wf(*final(self)),
            final(self).life == old(self).life,
            final(self).cap == old(self).cap,
            final(self).path == old(self).path,
            final(self).subscribers@.len() == old(self).subscribers@.len(),
            forall|k: int|
                0 <= k < old(self).subscribers@.len() ==> (if old(self).subscribers@[k].live {
                    enqueue_effect(
                        old(self).subscribers@[k],
                        final(self).subscribers@[k],
                        p@,
                        old(self).cap as int,
                    )
                } else {
                    final(self).subscribers@[k] == old(self).subscribers@[k]
                }),
    {
        let n = self.subscribers.len();
        let cap = self.cap;
        let mut i: usize = 0;
        while i < n
            invariant
                n == self.subscribers@.len(),
                n == old(self).subscribers@.len(),
                i <= n,
                cap == self.cap,
                self.cap == old(self).cap,
                cap >= 1,
                self.path == old(self).path,
                self.life == old(self).life,
                old(self).life is Streaming,
                src_wf(*old(self)),
                forall|k: int| i <= k < n ==> self.subscribers@[k] == old(self).subscribers@[k],
                forall|k: int|
                    0 <= k < n ==> sub_wf(#[trigger] self.subscribers@[k]) && (
                    self.subscribers@[k].live ==> (self.subscribers@[k].seen_init || has_init(
                        self.subscribers@[k].queue@,
                    ))),
                forall|k: int|
                    0 <= k < i ==> (if old(self).subscribers@[k].live {
                        enqueue_effect(
                            old(self).subscribers@[k],
                            #[trigger] self.subscribers@[k],
                            p@,
                            cap as int,
                        )
                    } else {
                        self.subscribers@[k] == old(self).subscribers@[k]
                    }),
            decreases n - i,
        {
            let live_here = self.subscribers[i].live;
            if live_here {
                let sub = &mut self.subscribers[i];
                let packet = p.clone();
                proof {
                    assert(packet@ =~= p@);
                }
                enqueue_packet(sub, packet, cap);
            }
            i = i + 1;
        }
    }

    /// Stops the source: every live subscriber's last observation is
    /// `End`.
    pub fn stop(&mut self)
        requires
            src_wf(*old(self)),
        ensures
            src_wf(*final(self)),
            final(self).life is Ended,
            final(self).cap == old(self).cap,
            final(self).path == old(self).path,
            final(self).subscribers@.len() == old(self).subscribers@.len(),
            forall|k: int|
                0 <= k < old(self).subscribers@.len() ==> (if old(self).subscribers@[k].live {
                    {
                        let pre = old(self).subscribers@[k];
                        let post = final(self).subscribers@[k];
                        &&& post.queue@ == pre.queue@.push(SourceMsg::End)
                        &&& post.lagged == pre.lagged
                        &&& post.seen_init == pre.seen_init
                        &&& post.live == pre.live
                    }
                } else {
                    final(self).subscribers@[k] == old(self).subscribers@[k]
                }),
    {
        let n = self.subscribers.len();
        let mut i: usize = 0;
        while i < n
            invariant
                n == self.subscribers@.len(),
                n == old(self).subscribers@.len(),
                i <= n,
                self.cap == old(self).cap,
                self.path == old(self).path,
                forall|k: int| i <= k < n ==> self.subscribers@[k] == old(self).subscribers@[k],
                forall|k: int| 0 <= k < n ==> sub_wf(#[trigger] self.subscribers@[k]),
                forall|k: int|
                    0 <= k < i ==> (if old(self).subscribers@[k].live {
                        {
                            let pre = old(self).subscribers@[k];
                            let post = #[trigger] self.subscribers@[k];
                            &&& post.queue@ == pre.queue@.push(SourceMsg::End)
                            &&& post.lagged == pre.lagged
                            &&& post.seen_init == pre.seen_init
                            &&& post.live == pre.live
                        }
                    } else {
                        self.subscribers@[k] == old(self).subscribers@[k]
                    }),
            decreases n - i,
        {
            let sub = &mut self.subscribers[i];
            if sub.live {
                let ghost qb = sub.queue@;
                sub.queue.push(SourceMsg::End);
                proof {
                    if !sub.seen_init {
                        assert(no_early_packet(qb));
                        assert forall|k: int|
                            0 <= k < sub.queue@.len() && sub.queue@[k] is Packet implies exists|
                            j: int,
                        |
                            0 <= j < k && sub.queue@[j] is Init by {
                            assert(qb[k] is Packet);
                            let wk = choose|j: int| 0 <= j < k && qb[j] is Init;
                            assert(sub.queue@[wk] is Init);
                        }
                    }
                    assert(sub_wf(*sub));
                }
            }
            i = i + 1;
        }
        self.life = SourceLife::Ended;
    }

    /// Drains one observation for subscriber `idx`: a pending lag notice
    /// first, otherwise the oldest queued item; `None` when nothing is
    /// pending. Other subscribers are untouched; no packet comes before
    /// `Init`.
    pub fn recv(&mut self, idx: usize) -> (r: Option<SourceMsg>)
        requires
            src_wf(*old(self)),
            idx < old(self).subscribers@.len(),
        ensures
            src_wf(*final(self)),
            final(self).life == old(self).life,
            final(self).cap == old(self).cap,
            final(self).path == old(self).path,
            final(self).subscribers@.len() == old(self).subscribers@.len(),
            forall|k: int|
                0 <= k < old(self).subscribers@.len() && k != idx ==> final(self).subscribers@[k]
                    == old(self).subscribers@[k],
            !old(self).subscribers@[idx as int].seen_init ==> !(r matches Some(
                SourceMsg::Packet(_),
            )),
            ({
                let pre = old(self).subscribers@[idx as int];
                let post = final(self).subscribers@[idx as int];
                &&& post.live == pre.live
                &&& (if pre.lagged > 0 {
                    r == Some(SourceMsg::Lagged(pre.lagged)) && post.lagged == 0 && post.queue@
                        == pre.queue@ && post.seen_init == pre.seen_init
                } else if pre.queue@.len() == 0 {
                    r is None && post == pre
                } else {
                    r == Some(pre.queue@[0]) && post.queue@ == pre.queue@.drop_first()
                        && post.lagged == 0 && post.seen_init == (pre.seen_init || pre.queue@[0]
                        is Init)
                })
            }),
    {
        let ghost pre_state = *self;
        let sub = &mut self.subscribers[idx];
        let r = recv_msg(sub);
        proof {
            if self.life is Streaming && sub.live && !sub.seen_init {
                let q0 = pre_state.subscribers@[idx as int].queue@;
                if pre_state.subscribers@[idx as int].lagged == 0 && q0.len() > 0 {
                    assert(has_init(q0));
                    let w = choose|j: int| 0 <= j < q0.len() && q0[j] is Init;
                    assert(!(q0[0] is Init));
                    assert(sub.queue@[w - 1] is Init);
                    assert(has_init(sub.queue@));
                }
            }
        }
        r
    }
}

} // verus!
