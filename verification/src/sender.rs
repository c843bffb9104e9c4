//! What the playback side hands to the OMT sender: the latest-wins video slot,
//! the bounded audio queue that drops on overflow, and the order in which the
//! sender drains them.
use std::collections::VecDeque;
use vstd::prelude::*;

use crate::config::ColorSpaceSetting;

verus! {

/// One BGRA frame ready to send.
#[derive(Debug, Clone)]
pub struct VideoJob {
    pub width: u32,
    pub height: u32,
    pub stride: i32,
    pub bgra: Vec<u8>,
    pub has_alpha: bool,
    pub timestamp: i64,
    pub fps_n: i32,
    pub fps_d: i32,
    pub color_space: ColorSpaceSetting,
}

/// One block of planar float audio ready to send.
#[derive(Debug, Clone)]
pub struct AudioJob {
    pub data: Vec<u8>,
    pub timestamp: i64,
    pub sample_rate: i32,
    pub channels: i32,
    pub samples_per_channel: i32,
}

/// `n + 1`, wrapping at `u64::MAX` as an atomic counter does.
pub open spec fn bump(n: u64) -> u64 {
    if n == u64::MAX {
        0
    } else {
        (n + 1) as u64
    }
}

/// Depth-1 latest-wins slot. Pushing while occupied drops the older value.
#[derive(Debug)]
pub struct LatestSlot<T> {
    slot: Option<T>,
    drops: u64,
}

impl<T> LatestSlot<T> {
    /// The item waiting in the slot.
    pub closed spec fn item(&self) -> Option<T> {
        self.slot
    }

    /// How many items were overwritten before anyone took them.
    pub closed spec fn drop_count(&self) -> u64 {
        self.drops
    }

    /// `self` is `before` with `item` pushed: the item waits, and an item
    /// that was waiting counts as dropped.
    pub open spec fn pushed(self, before: Self, item: T) -> bool {
        &&& self.item() == Some(item)
        &&& self.drop_count() == if before.item() is Some {
            bump(before.drop_count())
        } else {
            before.drop_count()
        }
    }

    pub fn new() -> (s: Self)
        ensures
            s.item() is None,
            s.drop_count() == 0,
    {
        Self { slot: None, drops: 0 }
    }

    pub fn push(&mut self, item: T)
        ensures
            final(self).pushed(*old(self), item),
    {
        let occupied = self.slot.is_some();
        self.slot = Some(item);
        if occupied {
            self.drops = self.drops.wrapping_add(1);
        }
    }

    pub fn take(&mut self) -> (item: Option<T>)
        ensures
            item == old(self).item(),
            final(self).item() is None,
            final(self).drop_count() == old(self).drop_count(),
    {
        self.slot.take()
    }

    pub fn clear(&mut self)
        ensures
            final(self).item() is None,
            final(self).drop_count() == old(self).drop_count(),
    {
        let _ = self.take();
    }

    pub fn drops(&self) -> (n: u64)
        ensures
            n == self.drop_count(),
    {
        self.drops
    }
}

impl<T> Default for LatestSlot<T> {
    fn default() -> (s: Self)
        ensures
            s.item() is None,
            s.drop_count() == 0,
    {
        Self::new()
    }
}

/// A bounded first-in first-out queue that refuses and counts what does not
/// fit instead of waiting. Once its receiving side is closed it refuses and
/// counts everything.
#[derive(Debug)]
pub struct DropSender<T> {
    queue: VecDeque<T>,
    depth: usize,
    drops: u64,
    closed: bool,
}

impl<T> DropSender<T> {
    #[verifier::type_invariant]
    spec fn wf(self) -> bool {
        &&& 1 <= self.depth
        &&& self.queue@.len() <= self.depth
        &&& self.closed ==> self.queue@.len() == 0
    }

    /// The items waiting, oldest first.
    pub closed spec fn pending(&self) -> Seq<T> {
        self.queue@
    }

    /// How many items fit at once.
    pub closed spec fn capacity(&self) -> usize {
        self.depth
    }

    /// How many items were refused.
    pub closed spec fn drop_count(&self) -> u64 {
        self.drops
    }

    /// The receiving side is gone.
    pub closed spec fn is_closed(&self) -> bool {
        self.closed
    }

    /// An item offered now would be queued: the receiving side is there and
    /// the queue is not full.
    pub open spec fn has_room(&self) -> bool {
        !self.is_closed() && self.pending().len() < self.capacity()
    }

    /// `self` is `before` after offering `item`: queued where there was
    /// room, else refused and counted.
    pub open spec fn sent(self, before: Self, item: T, accepted: bool) -> bool {
        &&& accepted == before.has_room()
        &&& self.capacity() == before.capacity()
        &&& self.is_closed() == before.is_closed()
        &&& accepted ==> self.pending() == before.pending().push(item) && self.drop_count()
            == before.drop_count()
        &&& !accepted ==> self.pending() == before.pending() && self.drop_count() == bump(
            before.drop_count(),
        )
    }

    /// `self` is `before` after taking `item`: the oldest waiting item, if
    /// any.
    pub open spec fn received(self, before: Self, item: Option<T>) -> bool {
        &&& before.pending().len() == 0 ==> item is None && self.pending() == before.pending()
        &&& before.pending().len() > 0 ==> item == Some(before.pending()[0]) && self.pending()
            == before.pending().drop_first()
        &&& self.capacity() == before.capacity()
        &&& self.drop_count() == before.drop_count()
        &&& self.is_closed() == before.is_closed()
    }

    /// Queue `item` if there is room; otherwise count it as dropped.
    pub fn try_send(&mut self, item: T) -> (accepted: bool)
        ensures
            final(self).sent(*old(self), item, accepted),
    {
        proof {
            use_type_invariant(&*self);
        }
        if !self.closed && self.queue.len() < self.depth {
            let mut queue = VecDeque::new();
            std::mem::swap(&mut queue, &mut self.queue);
            queue.push_back(item);
            self.queue = queue;
            true
        } else {
            self.drops = self.drops.wrapping_add(1);
            false
        }
    }

    /// Take the oldest waiting item.
    pub fn try_recv(&mut self) -> (item: Option<T>)
        ensures
            final(self).received(*old(self), item),
    {
        proof {
            use_type_invariant(&*self);
        }
        let mut queue = VecDeque::new();
        std::mem::swap(&mut queue, &mut self.queue);
        let item = queue.pop_front();
        self.queue = queue;
        item
    }

    pub fn drops(&self) -> (n: u64)
        ensures
            n == self.drop_count(),
    {
        self.drops
    }

    /// The receiving side goes away: what waits is discarded, and every item
    /// offered from now on is refused and counted.
    pub fn close(&mut self)
        ensures
            final(self).is_closed(),
            final(self).pending().len() == 0,
            final(self).capacity() == old(self).capacity(),
            final(self).drop_count() == old(self).drop_count(),
    {
        proof {
            use_type_invariant(&*self);
        }
        self.queue = VecDeque::new();
        self.closed = true;
    }
}

/// A queue that holds up to `depth` items (at least one), empty and with no
/// drops counted.
pub fn drop_channel<T>(depth: usize) -> (tx: DropSender<T>)
    ensures
        tx.pending().len() == 0,
        tx.capacity() == if depth < 1 {
            1
        } else {
            depth
        },
        tx.drop_count() == 0,
        !tx.is_closed(),
{
    let depth = if depth < 1 { 1 } else { depth };
    DropSender { queue: VecDeque::new(), depth, drops: 0, closed: false }
}

/// Drain audio first, then at most one video frame: every queued audio block
/// in order, then the waiting video frame if there is one.
pub fn drain_audio_priority<A, V>(audio: &mut DropSender<A>, video: &mut LatestSlot<V>) -> (out: (
    Vec<A>,
    Option<V>,
))
    ensures
        out.0@ == old(audio).pending(),
        out.1 == old(video).item(),
        final(audio).pending().len() == 0,
        final(audio).capacity() == old(audio).capacity(),
        final(audio).drop_count() == old(audio).drop_count(),
        final(audio).is_closed() == old(audio).is_closed(),
        final(video).item() is None,
        final(video).drop_count() == old(video).drop_count(),
{
    let mut blocks: Vec<A> = Vec::new();
    loop
        invariant
            old(audio).pending() == blocks@ + audio.pending(),
            audio.capacity() == old(audio).capacity(),
            audio.drop_count() == old(audio).drop_count(),
            audio.is_closed() == old(audio).is_closed(),
        ensures
            old(audio).pending() == blocks@,
            audio.pending().len() == 0,
            audio.capacity() == old(audio).capacity(),
            audio.drop_count() == old(audio).drop_count(),
            audio.is_closed() == old(audio).is_closed(),
        decreases audio.pending().len(),
    {
        let ghost before = audio.pending();
        match audio.try_recv() {
            Some(block) => {
                blocks.push(block);
                assert(before == seq![before[0]] + before.drop_first());
                assert(old(audio).pending() == blocks@ + audio.pending());
            },
            None => {
                assert(before.len() == 0);
                break ;
            },
        }
    }
    let frame = video.take();
    (blocks, frame)
}

/// Latest frame wins: of two frames pushed in a row the sender takes the
/// second, and the first counts as one drop.
pub proof fn lemma_latest_wins<T>(
    s0: LatestSlot<T>,
    s1: LatestSlot<T>,
    s2: LatestSlot<T>,
    a: T,
    b: T,
)
    requires
        s1.pushed(s0, a),
        s2.pushed(s1, b),
    ensures
        s2.item() == Some(b),
        s2.drop_count() == bump(s1.drop_count()),
{
}

/// The audio queue is first in, first out: on an empty queue, of two blocks
/// offered in a row the first is always accepted and comes out first.
pub proof fn lemma_audio_fifo<T>(
    q0: DropSender<T>,
    q1: DropSender<T>,
    q2: DropSender<T>,
    q3: DropSender<T>,
    a: T,
    b: T,
    accepted_a: bool,
    accepted_b: bool,
    out: Option<T>,
)
    requires
        q0.capacity() >= 1,
        q0.pending().len() == 0,
        !q0.is_closed(),
        q1.sent(q0, a, accepted_a),
        q2.sent(q1, b, accepted_b),
        q3.received(q2, out),
    ensures
        accepted_a,
        out == Some(a),
{
    if accepted_b {
        assert(q2.pending() == seq![a].push(b));
    }
}

/// Audio never waits: offering a block to a full queue, or to one whose
/// receiving side is gone, refuses it, leaves the queue as it was and counts
/// one drop.
pub proof fn lemma_audio_overflow_counted<T>(q0: DropSender<T>, q1: DropSender<T>, a: T, accepted: bool)
    requires
        q0.pending().len() == q0.capacity() || q0.is_closed(),
        q1.sent(q0, a, accepted),
    ensures
        !accepted,
        q1.pending() == q0.pending(),
        q1.drop_count() == bump(q0.drop_count()),
{
}

/// `after` follows `before` by one call on the slot: a `push` of some item,
/// or a `take` or `clear`, which empty it and leave the drop count alone.
pub open spec fn slot_step<T>(before: LatestSlot<T>, after: LatestSlot<T>) -> bool {
    ||| exists|item: T| #[trigger] after.pushed(before, item)
    ||| after.item() is None && after.drop_count() == before.drop_count()
}

/// 1 while an item waits in the slot, else 0.
pub open spec fn waiting<T>(s: LatestSlot<T>) -> nat {
    if s.item() is Some {
        1
    } else {
        0
    }
}

/// How many of the first `n` steps of `states` were pushes (they leave an
/// item waiting).
pub open spec fn pushes_in<T>(states: Seq<LatestSlot<T>>, n: int) -> nat
    decreases n,
{
    if n <= 0 {
        0
    } else {
        pushes_in(states, n - 1) + waiting(states[n])
    }
}

/// How many of the first `n` steps of `states` took an item out of the slot
/// (a `take` that returned it, or a `clear` that discarded it).
pub open spec fn takes_in<T>(states: Seq<LatestSlot<T>>, n: int) -> nat
    decreases n,
{
    if n <= 0 {
        0
    } else {
        takes_in(states, n - 1) + if states[n].item() is None {
            waiting(states[n - 1])
        } else {
            0
        }
    }
}

proof fn lemma_slot_accounting_upto<T>(states: Seq<LatestSlot<T>>, n: int)
    requires
        0 <= n < states.len(),
        states.len() <= u64::MAX,
        states[0].item() is None,
        states[0].drop_count() == 0,
        forall|i: int| 0 <= i < states.len() - 1 ==> #[trigger] slot_step(states[i], states[i + 1]),
    ensures
        pushes_in(states, n) == takes_in(states, n) + states[n].drop_count() + waiting(states[n]),
        pushes_in(states, n) <= n,
    decreases n,
{
    if n > 0 {
        lemma_slot_accounting_upto(states, n - 1);
        let i = n - 1;
        assert(slot_step(states[i], states[i + 1]));
        assert(i + 1 == n);
        if exists|item: T| #[trigger] states[n].pushed(states[n - 1], item) {
            let item = choose|item: T| #[trigger] states[n].pushed(states[n - 1], item);
            assert(states[n].pushed(states[n - 1], item));
        }
    }
}

/// Every video frame pushed into the slot is accounted for: starting from an
/// empty slot, after any run of `push`, `take` and `clear` calls (fewer than
/// `u64::MAX`, so the drop counter has not wrapped), the pushes equal the
/// frames taken out plus the frames dropped plus the one still waiting.
pub proof fn lemma_slot_accounting<T>(states: Seq<LatestSlot<T>>)
    requires
        1 <= states.len() <= u64::MAX,
        states[0].item() is None,
        states[0].drop_count() == 0,
        forall|i: int| 0 <= i < states.len() - 1 ==> #[trigger] slot_step(states[i], states[i + 1]),
    ensures
        pushes_in(states, states.len() - 1) == takes_in(states, states.len() - 1)
            + states.last().drop_count() + waiting(states.last()),
{
    lemma_slot_accounting_upto(states, states.len() - 1);
}

} // verus!
