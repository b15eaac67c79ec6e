use vstd::prelude::*;

use crate::cc_mon::CcValueTime;
use crossbeam::atomic::AtomicCell;
use std::collections::VecDeque;

verus! {

/// One of the three buffers of a `CommChannel`.
#[derive(Copy, Clone, Debug, PartialEq, Eq, Structural)]
pub enum WhichBuffer {
    A,
    B,
    C,
}

/// The buffer after `w`, cyclically.
pub open spec fn spec_next(w: WhichBuffer) -> WhichBuffer {
    match w {
        WhichBuffer::A => WhichBuffer::B,
        WhichBuffer::B => WhichBuffer::C,
        WhichBuffer::C => WhichBuffer::A,
    }
}

impl WhichBuffer {
    /// The buffer after this one, cyclically.
    pub fn next(self) -> (r: Self)
        ensures
            r == spec_next(self),
    {
        match self {
            WhichBuffer::A => WhichBuffer::B,
            WhichBuffer::B => WhichBuffer::C,
            WhichBuffer::C => WhichBuffer::A,
        }
    }
}

#[verifier::external_type_specification]
#[verifier::external_body]
#[verifier::reject_recursive_types(T)]
pub struct ExAtomicCell<T>(AtomicCell<T>);

/// The buffer that a cell of `crossbeam::atomic::AtomicCell` holds.
pub uninterp spec fn cell_value(cell: AtomicCell<WhichBuffer>) -> WhichBuffer;

/// `AtomicCell::new`: the new cell holds `val`.
#[verifier::external_body]
fn cell_new(val: WhichBuffer) -> (r: AtomicCell<WhichBuffer>)
    ensures
        cell_value(r) == val,
{
    AtomicCell::new(val)
}

/// `AtomicCell::load`: returns what the cell holds.
#[verifier::external_body]
fn cell_load(cell: &AtomicCell<WhichBuffer>) -> (r: WhichBuffer)
    ensures
        r == cell_value(*cell),
{
    cell.load()
}

/// `AtomicCell::store`, made through an exclusive borrow: the cell then holds
/// `val`.
#[verifier::external_body]
fn cell_store(cell: &mut AtomicCell<WhichBuffer>, val: WhichBuffer)
    ensures
        cell_value(*final(cell)) == val,
{
    cell.store(val)
}

/// Messages handed from a writer to a reader through three buffers, so that
/// the reader always reads one buffer while the writer writes another.
///
/// The writer pushes into the write buffer and, when a batch is complete,
/// moves on to the next buffer if the reader is not on it. The reader pops
/// from the read buffer and, when it is empty, moves on to the next buffer
/// unless that is the one being written.
#[derive(Debug)]
pub struct CommChannel {
    cc_values_a: VecDeque<CcValueTime>,
    cc_values_b: VecDeque<CcValueTime>,
    cc_values_c: VecDeque<CcValueTime>,
    write_queue: AtomicCell<WhichBuffer>,
    read_queue: AtomicCell<WhichBuffer>,
}

/// The messages that can be read: all buffers in use but the one written.
pub open spec fn spec_readable(s: Seq<Seq<CcValueTime>>) -> Seq<CcValueTime> {
    s.drop_last().flatten()
}

/// All messages in the channel, in the order they were pushed.
pub open spec fn spec_queued(s: Seq<Seq<CcValueTime>>) -> Seq<CcValueTime> {
    s.flatten()
}

/// The buffers in use after a push: the message joins the write buffer.
pub open spec fn spec_push(s: Seq<Seq<CcValueTime>>, val: CcValueTime) -> Seq<Seq<CcValueTime>> {
    s.update(s.len() - 1, s.last().push(val))
}

/// The buffers in use after a batch is complete: the writer moves on to the
/// free buffer when there is one, so that the batch becomes readable.
pub open spec fn spec_pushes_completed(s: Seq<Seq<CcValueTime>>) -> Seq<Seq<CcValueTime>> {
    if s.len() == 2 {
        s.push(Seq::empty())
    } else {
        s
    }
}

/// What a pop returns and the buffers in use after it: the oldest readable
/// message, if there is one; an empty read buffer is given up when the next
/// one is not the write buffer.
pub open spec fn spec_pop(s: Seq<Seq<CcValueTime>>) -> (Option<CcValueTime>, Seq<Seq<CcValueTime>>)
    decreases s.len(),
{
    if s.len() == 0 {
        (None, s)
    } else if s[0].len() > 0 {
        (Some(s[0][0]), s.update(0, s[0].drop_first()))
    } else if s.len() > 2 {
        spec_pop(s.drop_first())
    } else {
        (None, s)
    }
}

impl CommChannel {
    /// The buffer `which`.
    pub closed spec fn buffer(&self, which: WhichBuffer) -> Seq<CcValueTime> {
        match which {
            WhichBuffer::A => self.cc_values_a@,
            WhichBuffer::B => self.cc_values_b@,
            WhichBuffer::C => self.cc_values_c@,
        }
    }

    /// The buffer the reader is on.
    pub closed spec fn read_buffer(&self) -> WhichBuffer {
        cell_value(self.read_queue)
    }

    /// The buffer the writer is on.
    pub closed spec fn write_buffer(&self) -> WhichBuffer {
        cell_value(self.write_queue)
    }

    /// The reader and the writer are on different buffers, and the buffer
    /// that neither uses nor lies between them is empty.
    pub closed spec fn wf(&self) -> bool {
        let r = cell_value(self.read_queue);
        let w = cell_value(self.write_queue);
        &&& r != w
        &&& spec_next(r) == w ==> self.buffer(spec_next(w)).len() == 0
    }
}

impl View for CommChannel {
    type V = Seq<Seq<CcValueTime>>;

    /// The buffers in use, from the one read to the one written: two, or
    /// three when a completed batch waits behind the read buffer.
    closed spec fn view(&self) -> Seq<Seq<CcValueTime>> {
        let r = cell_value(self.read_queue);
        let w = cell_value(self.write_queue);
        if spec_next(r) == w {
            seq![self.buffer(r), self.buffer(w)]
        } else {
            seq![self.buffer(r), self.buffer(spec_next(r)), self.buffer(w)]
        }
    }
}

impl Default for CommChannel {
    /// An empty channel, reading buffer A and writing buffer B.
    fn default() -> (r: Self)
        ensures
            r.wf(),
            r@ == seq![Seq::<CcValueTime>::empty(), Seq::<CcValueTime>::empty()],
            r.read_buffer() == WhichBuffer::A,
            r.write_buffer() == WhichBuffer::B,
            forall|b: WhichBuffer| r.buffer(b) == Seq::<CcValueTime>::empty(),
    {
        let r = CommChannel {
            cc_values_a: VecDeque::new(),
            cc_values_b: VecDeque::new(),
            cc_values_c: VecDeque::new(),
            write_queue: cell_new(WhichBuffer::B),
            read_queue: cell_new(WhichBuffer::A),
        };
        assert(r@ =~= seq![Seq::<CcValueTime>::empty(), Seq::<CcValueTime>::empty()]);
        assert forall|b: WhichBuffer| r.buffer(b) == Seq::<CcValueTime>::empty() by {
            assert(r.buffer(b) =~= Seq::<CcValueTime>::empty());
        }
        r
    }
}

impl CommChannel {
    fn get_buffer_mut(&mut self, which: WhichBuffer) -> (r: &mut VecDeque<CcValueTime>)
        ensures
            r@ == old(self).buffer(which),
            final(self).write_queue == old(self).write_queue,
            final(self).read_queue == old(self).read_queue,
            forall|o: WhichBuffer| o != which ==> final(self).buffer(o) == old(self).buffer(o),
            final(self).buffer(which) == final(r)@,
    {
        match which {
            WhichBuffer::A => &mut self.cc_values_a,
            WhichBuffer::B => &mut self.cc_values_b,
            WhichBuffer::C => &mut self.cc_values_c,
        }
    }

    /// Appends a message to the buffer being written.
    pub fn push(&mut self, val: CcValueTime)
        requires
            old(self).wf(),
        ensures
            final(self).wf(),
            final(self)@ == spec_push(old(self)@, val),
            final(self).read_buffer() == old(self).read_buffer(),
            final(self).write_buffer() == old(self).write_buffer(),
            final(self).buffer(old(self).write_buffer()) == old(self).buffer(
                old(self).write_buffer(),
            ).push(val),
            forall|b: WhichBuffer|
                b != old(self).write_buffer() ==> final(self).buffer(b) == old(self).buffer(b),
    {
        let w = cell_load(&self.write_queue);
        self.get_buffer_mut(w).push_back(val);
        assert(self@ =~= spec_push(old(self)@, val));
    }

    /// Marks the pushes so far as a complete batch: the writer moves on to the
    /// next buffer unless the reader is on it.
    pub fn pushes_completed(&mut self)
        requires
            old(self).wf(),
        ensures
            final(self).wf(),
            final(self)@ == spec_pushes_completed(old(self)@),
            final(self).read_buffer() == old(self).read_buffer(),
            final(self).write_buffer() == if spec_next(old(self).write_buffer())
                != old(self).read_buffer() {
                spec_next(old(self).write_buffer())
            } else {
                old(self).write_buffer()
            },
            forall|b: WhichBuffer| final(self).buffer(b) == old(self).buffer(b),
    {
        let read_queue = cell_load(&self.read_queue);
        let write_queue = cell_load(&self.write_queue);
        if write_queue.next() != read_queue {
            cell_store(&mut self.write_queue, write_queue.next());
            assert(spec_next(read_queue) == write_queue) by {
                match read_queue {
                    WhichBuffer::A => {},
                    WhichBuffer::B => {},
                    WhichBuffer::C => {},
                }
            }
            assert(spec_next(read_queue) != spec_next(write_queue));
            assert(self.buffer(spec_next(write_queue)) =~= Seq::<CcValueTime>::empty());
            assert(self@ =~= spec_pushes_completed(old(self)@));
        } else {
            assert(self@ =~= spec_pushes_completed(old(self)@));
        }
    }

    /// Takes the oldest readable message, moving the reader on past an empty
    /// buffer when the next one is not being written.
    pub fn pop(&mut self) -> (r: Option<CcValueTime>)
        requires
            old(self).wf(),
        ensures
            final(self).wf(),
            (r, final(self)@) == spec_pop(old(self)@),
            final(self).write_buffer() == old(self).write_buffer(),
            final(self).read_buffer() == if old(self).buffer(old(self).read_buffer()).len() == 0
                && spec_next(old(self).read_buffer()) != old(self).write_buffer() {
                spec_next(old(self).read_buffer())
            } else {
                old(self).read_buffer()
            },
            final(self).buffer(final(self).read_buffer()) == if old(self).buffer(
                final(self).read_buffer(),
            ).len() > 0 {
                old(self).buffer(final(self).read_buffer()).drop_first()
            } else {
                old(self).buffer(final(self).read_buffer())
            },
            forall|b: WhichBuffer|
                b != final(self).read_buffer() ==> final(self).buffer(b) == old(self).buffer(b),
        decreases old(self)@.len(),
    {
        let write_queue = cell_load(&self.write_queue);
        let read_queue = cell_load(&self.read_queue);
        let val = self.get_buffer_mut(read_queue).pop_front();
        if val.is_none() && read_queue.next() != write_queue {
            cell_store(&mut self.read_queue, read_queue.next());
            assert(self@ =~= old(self)@.drop_first());
            assert(spec_next(spec_next(read_queue)) == write_queue) by {
                match read_queue {
                    WhichBuffer::A => {},
                    WhichBuffer::B => {},
                    WhichBuffer::C => {},
                }
            }
            return self.pop();
        }
        proof {
            if val.is_some() {
                assert(self@ =~= old(self)@.update(0, old(self)@[0].drop_first()));
            } else {
                assert(self@ =~= old(self)@);
            }
        }
        val
    }
}

/// The buffers in use are two or three, and the reader and the writer are
/// never on the same buffer.
pub proof fn lemma_buffers_in_use(c: &CommChannel)
    requires
        c.wf(),
    ensures
        c@.len() == 2 || c@.len() == 3,
        c.read_buffer() != c.write_buffer(),
{
}

proof fn lemma_flatten_small(s: Seq<Seq<CcValueTime>>)
    requires
        s.len() <= 3,
    ensures
        s.len() == 0 ==> s.flatten() == Seq::<CcValueTime>::empty(),
        s.len() == 1 ==> s.flatten() == s[0],
        s.len() == 2 ==> s.flatten() == s[0] + s[1],
        s.len() == 3 ==> s.flatten() == s[0] + s[1] + s[2],
{
    reveal_with_fuel(Seq::flatten, 4);
    if s.len() == 1 {
        assert(s[0] + Seq::<CcValueTime>::empty() =~= s[0]);
    } else if s.len() == 2 {
        assert(s.drop_first().drop_first().len() == 0);
        assert(s[1] + Seq::<CcValueTime>::empty() =~= s[1]);
    } else if s.len() == 3 {
        assert(s.drop_first().drop_first().drop_first().len() == 0);
        assert(s[2] + Seq::<CcValueTime>::empty() =~= s[2]);
        assert(s[0] + (s[1] + s[2]) =~= s[0] + s[1] + s[2]);
    }
}

/// The channel is a first-in first-out queue of everything pushed and not yet
/// popped: a push appends its message, completing a batch changes nothing
/// queued, a pop that returns a message returns the oldest one and removes
/// it, and one that returns nothing removes nothing; a pop returns a message
/// exactly when some message is readable, and the buffers in use stay two or
/// three.
pub proof fn lemma_channel_is_fifo(s: Seq<Seq<CcValueTime>>, val: CcValueTime)
    requires
        s.len() == 2 || s.len() == 3,
    ensures
        spec_queued(spec_push(s, val)) == spec_queued(s).push(val),
        spec_queued(spec_pushes_completed(s)) == spec_queued(s),
        spec_pop(s).0 matches Some(x) ==> x == spec_queued(s)[0] && x == spec_readable(s)[0]
            && spec_queued(spec_pop(s).1) == spec_queued(s).drop_first(),
        spec_pop(s).0 is None ==> spec_queued(spec_pop(s).1) == spec_queued(s),
        spec_pop(s).0 is Some <==> spec_readable(s).len() > 0,
        spec_push(s, val).len() == s.len(),
        spec_pushes_completed(s).len() == 3,
        spec_pop(s).1.len() == 2 || spec_pop(s).1.len() == 3,
{
    reveal_with_fuel(spec_pop, 3);
    let p = spec_push(s, val);
    let c = spec_pushes_completed(s);
    let (r, t) = spec_pop(s);
    lemma_flatten_small(s);
    lemma_flatten_small(s.drop_last());
    lemma_flatten_small(p);
    lemma_flatten_small(c);
    lemma_flatten_small(t);
    if s.len() == 2 {
        assert(spec_queued(p) =~= spec_queued(s).push(val));
        assert(spec_queued(c) =~= spec_queued(s));
        if s[0].len() > 0 {
            assert(spec_queued(t) =~= spec_queued(s).drop_first());
        }
    } else {
        assert(spec_queued(p) =~= spec_queued(s).push(val));
        lemma_flatten_small(s.drop_first());
        lemma_flatten_small(s.drop_first().drop_last());
        if s[0].len() > 0 {
            assert(spec_queued(t) =~= spec_queued(s).drop_first());
        } else {
            assert(s[0] + s[1] + s[2] =~= s[1] + s[2]);
            assert(s[0] + s[1] =~= s[1]);
            let u = s.drop_first();
            if u[0].len() > 0 {
                assert(t == u.update(0, u[0].drop_first()));
                assert(spec_queued(t) =~= spec_queued(s).drop_first());
            }
        }
    }
}

/// Completing a batch while a buffer is free makes everything queued
/// readable.
pub proof fn lemma_completed_batch_is_readable(s: Seq<Seq<CcValueTime>>)
    requires
        s.len() == 2,
    ensures
        spec_readable(spec_pushes_completed(s)) == spec_queued(s),
{
    let c = spec_pushes_completed(s);
    lemma_flatten_small(s);
    lemma_flatten_small(c.drop_last());
    assert(c.drop_last() =~= s);
}

/// One call on a `CommChannel`: `push` of a message, `pushes_completed`,
/// or `pop`.
#[derive(Copy, Clone, Debug, PartialEq, Eq, Structural)]
pub enum ChannelOp {
    Push(CcValueTime),
    Complete,
    Pop,
}

/// The messages popped by a run of calls, in order, and the buffers in use
/// after it.
pub open spec fn spec_run(s: Seq<Seq<CcValueTime>>, ops: Seq<ChannelOp>) -> (
    Seq<CcValueTime>,
    Seq<Seq<CcValueTime>>,
)
    decreases ops.len(),
{
    if ops.len() == 0 {
        (Seq::empty(), s)
    } else {
        let (popped, t) = spec_run(s, ops.drop_last());
        match ops.last() {
            ChannelOp::Push(v) => (popped, spec_push(t, v)),
            ChannelOp::Complete => (popped, spec_pushes_completed(t)),
            ChannelOp::Pop => match spec_pop(t).0 {
                Some(x) => (popped.push(x), spec_pop(t).1),
                None => (popped, spec_pop(t).1),
            },
        }
    }
}

/// The messages pushed by a run of calls, in order.
pub open spec fn spec_pushed(ops: Seq<ChannelOp>) -> Seq<CcValueTime>
    decreases ops.len(),
{
    if ops.len() == 0 {
        Seq::empty()
    } else {
        match ops.last() {
            ChannelOp::Push(v) => spec_pushed(ops.drop_last()).push(v),
            _ => spec_pushed(ops.drop_last()),
        }
    }
}

/// Over any run of calls, nothing is lost, duplicated or reordered: what was
/// queued before, followed by everything pushed, is exactly what was popped
/// followed by what is still queued. From a new channel (nothing queued) the
/// popped messages are therefore the first ones pushed, in push order.
pub proof fn lemma_run_is_fifo(s: Seq<Seq<CcValueTime>>, ops: Seq<ChannelOp>)
    requires
        s.len() == 2 || s.len() == 3,
    ensures
        spec_run(s, ops).1.len() == 2 || spec_run(s, ops).1.len() == 3,
        spec_run(s, ops).0 + spec_queued(spec_run(s, ops).1) == spec_queued(s) + spec_pushed(ops),
        spec_queued(s).len() == 0 ==> spec_run(s, ops).0 == spec_pushed(ops).take(
            spec_run(s, ops).0.len() as int,
        ),
    decreases ops.len(),
{
    let (popped, t) = spec_run(s, ops);
    if ops.len() == 0 {
        assert(popped + spec_queued(t) =~= spec_queued(s) + spec_pushed(ops));
    } else {
        let prev = ops.drop_last();
        lemma_run_is_fifo(s, prev);
        let (p0, t0) = spec_run(s, prev);
        match ops.last() {
            ChannelOp::Push(x) => {
                lemma_channel_is_fifo(t0, x);
                assert(spec_pushed(ops) == spec_pushed(prev).push(x));
                assert(t == spec_push(t0, x));
                assert(popped == p0);
                assert(p0 + spec_queued(t0).push(x) =~= (p0 + spec_queued(t0)).push(x));
                assert((spec_queued(s) + spec_pushed(prev)).push(x) =~= spec_queued(s)
                    + spec_pushed(prev).push(x));
                assert(popped + spec_queued(t) =~= spec_queued(s) + spec_pushed(ops));
            },
            ChannelOp::Complete => {
                lemma_channel_is_fifo(t0, CcValueTime { channel: 0, cc_num: 0, value: 0, instant: 0 });
                assert(popped + spec_queued(t) =~= spec_queued(s) + spec_pushed(ops));
            },
            ChannelOp::Pop => {
                lemma_channel_is_fifo(t0, CcValueTime { channel: 0, cc_num: 0, value: 0, instant: 0 });
                lemma_flatten_small(t0);
                lemma_flatten_small(t0.drop_last());
                match spec_pop(t0).0 {
                    Some(x) => {
                        assert(spec_queued(t0).len() > 0);
                        assert(p0.push(x) + spec_queued(t0).drop_first() =~= p0 + spec_queued(t0));
                    },
                    None => {},
                }
                assert(popped + spec_queued(t) =~= spec_queued(s) + spec_pushed(ops));
            },
        }
    }
    if spec_queued(s).len() == 0 {
        let all = spec_queued(s) + spec_pushed(ops);
        assert(all =~= spec_pushed(ops));
        assert(popped =~= (popped + spec_queued(t)).take(popped.len() as int));
    }
}

proof fn lemma_pushed_append(a: Seq<ChannelOp>, b: Seq<ChannelOp>)
    ensures
        spec_pushed(a + b) == spec_pushed(a) + spec_pushed(b),
    decreases b.len(),
{
    if b.len() == 0 {
        assert(a + b =~= a);
        assert(spec_pushed(a) + spec_pushed(b) =~= spec_pushed(a));
    } else {
        lemma_pushed_append(a, b.drop_last());
        assert((a + b).drop_last() =~= a + b.drop_last());
        assert((a + b).last() == b.last());
        match b.last() {
            ChannelOp::Push(v) => {
                assert(spec_pushed(a) + spec_pushed(b.drop_last()).push(v) =~= (spec_pushed(a)
                    + spec_pushed(b.drop_last())).push(v));
            },
            _ => {},
        }
    }
}

proof fn lemma_pop_keeps_write_buffer(t: Seq<Seq<CcValueTime>>)
    requires
        t.len() == 2 || t.len() == 3,
    ensures
        spec_pop(t).1.last() == t.last(),
{
    reveal_with_fuel(spec_pop, 3);
}

/// The number of messages that a run has made readable: those popped and
/// those that can still be popped.
pub open spec fn spec_made_readable(s: Seq<Seq<CcValueTime>>, ops: Seq<ChannelOp>) -> int {
    let (popped, t) = spec_run(s, ops);
    popped.len() + spec_queued(t).len() - t.last().len()
}

proof fn lemma_made_readable_grows(s: Seq<Seq<CcValueTime>>, a: Seq<ChannelOp>, b: Seq<ChannelOp>)
    requires
        s.len() == 2 || s.len() == 3,
    ensures
        spec_made_readable(s, a) <= spec_made_readable(s, a + b),
    decreases b.len(),
{
    if b.len() == 0 {
        assert(a + b =~= a);
    } else {
        let ab = a + b;
        lemma_made_readable_grows(s, a, b.drop_last());
        assert(ab.drop_last() =~= a + b.drop_last());
        let prev = ab.drop_last();
        lemma_run_is_fifo(s, prev);
        let (p0, t0) = spec_run(s, prev);
        let z = CcValueTime { channel: 0, cc_num: 0, value: 0, instant: 0 };
        lemma_flatten_small(t0);
        match ab.last() {
            ChannelOp::Push(v) => {
                lemma_channel_is_fifo(t0, v);
                let t = spec_push(t0, v);
                assert(t.last() == t0.last().push(v));
            },
            ChannelOp::Complete => {
                lemma_channel_is_fifo(t0, z);
                let t = spec_pushes_completed(t0);
                if t0.len() == 2 {
                    assert(t.last().len() == 0);
                }
            },
            ChannelOp::Pop => {
                lemma_channel_is_fifo(t0, z);
                lemma_pop_keeps_write_buffer(t0);
                lemma_flatten_small(t0.drop_last());
                match spec_pop(t0).0 {
                    Some(x) => {
                        assert(spec_queued(t0).len() > 0);
                    },
                    None => {},
                }
            },
        }
    }
}

/// A completed batch is never skipped: when `pushes_completed` finds a free
/// buffer, every message queued or pushed before it is popped before any
/// later pop returns nothing, and those messages are the first ones popped,
/// in order.
pub proof fn lemma_completed_batch_popped_before_none(
    s: Seq<Seq<CcValueTime>>,
    before: Seq<ChannelOp>,
    after: Seq<ChannelOp>,
)
    requires
        s.len() == 2 || s.len() == 3,
        spec_run(s, before).1.len() == 2,
        spec_pop(spec_run(s, before + seq![ChannelOp::Complete] + after).1).0 is None,
    ensures
        ({
            let popped = spec_run(s, before + seq![ChannelOp::Complete] + after).0;
            let batch = spec_queued(s) + spec_pushed(before);
            &&& popped.len() >= batch.len()
            &&& popped.take(batch.len() as int) == batch
        }),
{
    let c = before + seq![ChannelOp::Complete];
    let all = c + after;
    assert(c.drop_last() =~= before);
    lemma_run_is_fifo(s, before);
    let (p0, t0) = spec_run(s, before);
    lemma_flatten_small(t0);
    lemma_flatten_small(spec_pushes_completed(t0));
    assert(spec_made_readable(s, c) == p0.len() + spec_queued(t0).len());
    lemma_made_readable_grows(s, c, after);
    lemma_run_is_fifo(s, all);
    let (popped, t) = spec_run(s, all);
    lemma_channel_is_fifo(t, CcValueTime { channel: 0, cc_num: 0, value: 0, instant: 0 });
    lemma_flatten_small(t);
    lemma_flatten_small(t.drop_last());
    assert(spec_readable(t).len() == 0);
    assert(spec_made_readable(s, all) == popped.len());
    let batch = spec_queued(s) + spec_pushed(before);
    lemma_pushed_append(before, seq![ChannelOp::Complete]);
    lemma_pushed_append(c, after);
    assert(spec_pushed(seq![ChannelOp::Complete]) =~= Seq::<CcValueTime>::empty()) by {
        assert(seq![ChannelOp::Complete].drop_last() =~= Seq::<ChannelOp>::empty());
    }
    assert(spec_pushed(c) =~= spec_pushed(before));
    let whole = spec_queued(s) + spec_pushed(all);
    assert(whole =~= batch + spec_pushed(after));
    assert(popped + spec_queued(t) == whole);
    assert(popped.take(batch.len() as int) =~= batch) by {
        assert forall|k: int| 0 <= k < batch.len() implies popped.take(batch.len() as int)[k]
            == batch[k] by {
            assert(whole[k] == batch[k]);
            assert((popped + spec_queued(t))[k] == popped[k]);
        }
    }
}

} // verus!
